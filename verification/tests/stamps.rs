use n_renderer::object::Node;
use n_renderer::pos::Cell;
use n_renderer::print_point;
use n_renderer::render::{Color, Screen};
use n_renderer::stamp::{print_points, Stamp};

fn written(screen: &Screen) -> Vec<(usize, usize)> {
    let (width, height) = screen.size();
    let mut found = Vec::new();
    for y in 0..height {
        for x in 0..width {
            if screen.get_depth(x, y).unwrap().is_some() {
                found.push((x, y));
            }
        }
    }
    found
}

fn same(a: &Screen, b: &Screen) -> bool {
    let (width, height) = a.size();
    if b.size() != (width, height) || a.get_slice() != b.get_slice() {
        return false;
    }
    (0..height).all(|y| (0..width).all(|x| a.get_depth(x, y) == b.get_depth(x, y)))
}

#[test]
fn small_radius_stamps_one_pixel() {
    for r in [0, 1, 9] {
        let mut screen = Screen::new(5, 5);
        print_point(2, 3, r, &mut screen, Color::Red, 1);
        assert_eq!(written(&screen), vec![(2, 3)]);
        assert_eq!(screen.get_color(2, 3), Ok([0xff, 0, 0, 0xff]));
        assert_eq!(screen.get_depth(2, 3), Ok(Some(1)));
    }
}

#[test]
fn radius_ten_stamps_three_by_three() {
    let mut screen = Screen::new(7, 7);
    print_point(3, 2, 10, &mut screen, Color::Green, -2);
    let mut expected = Vec::new();
    for y in 1..=3 {
        for x in 2..=4 {
            expected.push((x, y));
        }
    }
    assert_eq!(written(&screen), expected);
    for (x, y) in expected {
        assert_eq!(screen.get_color(x, y), Ok([0, 0xff, 0, 0xff]));
        assert_eq!(screen.get_depth(x, y), Ok(Some(-2)));
    }
}

#[test]
fn half_width_is_a_tenth_rounded_down() {
    let mut screen = Screen::new(9, 9);
    print_point(4, 4, 29, &mut screen, Color::Blue, 0);
    assert_eq!(written(&screen).len(), 25);
    let mut wider = Screen::new(9, 9);
    print_point(4, 4, 30, &mut wider, Color::Blue, 0);
    assert_eq!(written(&wider).len(), 49);
}

#[test]
fn stamp_is_clipped_at_the_edges() {
    let mut screen = Screen::new(4, 3);
    print_point(0, 0, 10, &mut screen, Color::White, 5);
    assert_eq!(written(&screen), vec![(0, 0), (1, 0), (0, 1), (1, 1)]);
    let mut corner = Screen::new(4, 3);
    print_point(3, 2, 20, &mut corner, Color::White, 5);
    assert_eq!(written(&corner), vec![(1, 0), (2, 0), (3, 0), (1, 1), (2, 1), (3, 1), (1, 2), (2, 2), (3, 2)]);
}

#[test]
fn stamp_centred_outside_reaches_in() {
    let mut screen = Screen::new(4, 4);
    print_point(5, 1, 20, &mut screen, Color::Red, 5);
    assert_eq!(written(&screen), vec![(3, 0), (3, 1), (3, 2), (3, 3)]);
}

#[test]
fn stamp_far_outside_writes_nothing() {
    let mut screen = Screen::new(4, 4);
    print_point(10, 1, 20, &mut screen, Color::Red, 5);
    print_point(1, 7, 20, &mut screen, Color::Red, 5);
    print_point(usize::MAX, usize::MAX, 10, &mut screen, Color::Red, 5);
    print_point(usize::MAX, 0, usize::MAX, &mut screen, Color::Red, 5);
    assert_eq!(written(&screen), vec![]);
}

#[test]
fn huge_radius_covers_the_screen() {
    let mut screen = Screen::new(3, 2);
    print_point(1, 1, usize::MAX, &mut screen, Color::Purple, 8);
    assert_eq!(written(&screen).len(), 6);
    let mut empty = Screen::new(0, 0);
    print_point(0, 0, usize::MAX, &mut empty, Color::Purple, 8);
    assert_eq!(empty.get_slice().len(), 0);
}

#[test]
fn stamp_is_depth_tested_pixel_by_pixel() {
    let mut screen = Screen::new(3, 1);
    screen.write(0, 0, Color::Red, 10).unwrap();
    screen.write(1, 0, Color::Red, 1).unwrap();
    print_point(1, 0, 10, &mut screen, Color::Blue, 5);
    assert_eq!(screen.get_color(0, 0), Ok([0xff, 0, 0, 0xff]));
    assert_eq!(screen.get_depth(0, 0), Ok(Some(10)));
    assert_eq!(screen.get_color(1, 0), Ok([0, 0, 0xff, 0xff]));
    assert_eq!(screen.get_depth(1, 0), Ok(Some(5)));
    assert_eq!(screen.get_color(2, 0), Ok([0, 0, 0xff, 0xff]));
    assert_eq!(screen.get_depth(2, 0), Ok(Some(5)));
}

#[test]
fn batch_is_the_stamps_in_order() {
    let stamps = vec![
        Stamp { x: 1, y: 1, r: 10, color: Color::Red, depth: 1 },
        Stamp { x: 2, y: 2, r: 10, color: Color::Blue, depth: 2 },
        Stamp { x: 0, y: 3, r: 1, color: Color::Green, depth: 0 },
    ];
    let mut batch = Screen::new(4, 4);
    print_points(&mut batch, &stamps);
    let mut single = Screen::new(4, 4);
    for stamp in &stamps {
        print_point(stamp.x, stamp.y, stamp.r, &mut single, stamp.color, stamp.depth);
    }
    assert!(same(&batch, &single));
    assert_eq!(batch.get_color(1, 1), Ok([0, 0, 0xff, 0xff]));
    assert_eq!(batch.get_color(0, 0), Ok([0xff, 0, 0, 0xff]));
    assert_eq!(batch.get_color(0, 3), Ok([0, 0xff, 0, 0xff]));
    assert_eq!(batch.get_depth(3, 0), Ok(None));
}

#[test]
fn empty_batch_changes_nothing() {
    let mut screen = Screen::new(2, 2);
    screen.write(1, 0, Color::Red, 3).unwrap();
    print_points(&mut screen, &Vec::new());
    assert_eq!(written(&screen), vec![(1, 0)]);
}

#[test]
fn batch_order_does_not_matter_without_ties() {
    let mut stamps = Vec::new();
    for k in 0..40usize {
        stamps.push(Stamp {
            x: (k * 7) % 16,
            y: (k * 5) % 12,
            r: 10 * (k % 3),
            color: Color::RGB((k * 6) as u8, (255 - k) as u8, k as u8),
            depth: k as i32 - 20,
        });
    }
    let mut forward = Screen::new(16, 12);
    print_points(&mut forward, &stamps);
    let mut reversed = stamps.clone();
    reversed.reverse();
    let mut backward = Screen::new(16, 12);
    print_points(&mut backward, &reversed);
    assert!(same(&forward, &backward));
    let mut rotated = stamps.clone();
    rotated.rotate_left(13);
    let mut turned = Screen::new(16, 12);
    print_points(&mut turned, &rotated);
    assert!(same(&forward, &turned));
}

#[test]
fn tied_stamps_keep_the_first() {
    let red = Stamp { x: 0, y: 0, r: 1, color: Color::Red, depth: 4 };
    let blue = Stamp { x: 0, y: 0, r: 1, color: Color::Blue, depth: 4 };
    let mut screen = Screen::new(1, 1);
    print_points(&mut screen, &vec![red, blue]);
    assert_eq!(screen.get_color(0, 0), Ok([0xff, 0, 0, 0xff]));
    let mut other = Screen::new(1, 1);
    print_points(&mut other, &vec![blue, red]);
    assert_eq!(other.get_color(0, 0), Ok([0, 0, 0xff, 0xff]));
}

#[test]
fn vertex_of_radius_zero_emits_nothing() {
    let node = Node { pos: Cell { x: 0, y: 0, z: 0, w: 0 }, color: Color::Red, r: 0 };
    assert_eq!(node.draw_at(3, 4, 5), vec![]);
}

#[test]
fn vertex_emits_one_stamp_of_its_radius_and_colour() {
    let node = Node { pos: Cell { x: 0, y: 0, z: 0, w: 0 }, color: Color::Orange, r: 12 };
    assert_eq!(node.draw_at(3, 4, -5), vec![Stamp { x: 3, y: 4, r: 12, color: Color::Orange, depth: -5 }]);
}
