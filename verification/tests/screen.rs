use n_renderer::render::{Color, Screen};

const OUT_OF_BOUNDS: &str = "Trying to draw pixel outside screen buffer";

fn pixel(screen: &Screen, x: usize, y: usize) -> ([u8; 4], Option<i32>) {
    (screen.get_color(x, y).unwrap(), screen.get_depth(x, y).unwrap())
}

#[test]
fn new_screen_is_blank() {
    let screen = Screen::new(3, 2);
    assert_eq!(screen.size(), (3, 2));
    assert_eq!(screen.get_slice().len(), 4 * 3 * 2);
    assert!(screen.get_slice().iter().all(|byte| *byte == 0));
    for y in 0..2 {
        for x in 0..3 {
            assert_eq!(pixel(&screen, x, y), ([0, 0, 0, 0], None));
        }
    }
}

#[test]
fn empty_screen_has_no_pixels() {
    let mut screen = Screen::new(0, 5);
    assert_eq!(screen.size(), (0, 5));
    assert_eq!(screen.get_slice().len(), 0);
    assert_eq!(screen.write(0, 0, Color::Red, 1), Err(OUT_OF_BOUNDS));
    let mut flat = Screen::new(5, 0);
    assert_eq!(flat.size(), (5, 0));
    assert_eq!(flat.write(0, 0, Color::Red, 1), Err(OUT_OF_BOUNDS));
}

#[test]
fn write_to_unwritten_pixel_takes_color_and_depth() {
    let mut screen = Screen::new(4, 3);
    assert_eq!(screen.write(2, 1, Color::Orange, -7), Ok(()));
    assert_eq!(pixel(&screen, 2, 1), ([0xff, 0xaa, 0x00, 0xff], Some(-7)));
    assert_eq!(pixel(&screen, 1, 2), ([0, 0, 0, 0], None));
}

#[test]
fn pixels_are_stored_row_major() {
    let mut screen = Screen::new(3, 2);
    screen.write(1, 0, Color::RGBA(1, 2, 3, 4), 0).unwrap();
    screen.write(0, 1, Color::RGBA(5, 6, 7, 8), 0).unwrap();
    screen.write(2, 1, Color::RGBA(9, 10, 11, 12), 0).unwrap();
    let mut expected = vec![0u8; 24];
    expected[4..8].copy_from_slice(&[1, 2, 3, 4]);
    expected[12..16].copy_from_slice(&[5, 6, 7, 8]);
    expected[20..24].copy_from_slice(&[9, 10, 11, 12]);
    assert_eq!(screen.get_slice(), &expected[..]);
}

#[test]
fn out_of_bounds_write_is_reported_and_changes_nothing() {
    let mut screen = Screen::new(3, 2);
    assert_eq!(screen.write(3, 0, Color::Red, 1), Err(OUT_OF_BOUNDS));
    assert_eq!(screen.write(0, 2, Color::Red, 1), Err(OUT_OF_BOUNDS));
    assert_eq!(screen.write(3, 1, Color::Red, 1), Err(OUT_OF_BOUNDS));
    assert_eq!(screen.write(usize::MAX, usize::MAX, Color::Red, 1), Err(OUT_OF_BOUNDS));
    assert!(screen.get_slice().iter().all(|byte| *byte == 0));
    assert_eq!(screen.get_color(3, 0), Err(OUT_OF_BOUNDS));
    assert_eq!(screen.get_depth(0, 2), Err(OUT_OF_BOUNDS));
}

#[test]
fn larger_depth_replaces() {
    let mut screen = Screen::new(2, 2);
    screen.write(1, 1, Color::Red, 3).unwrap();
    screen.write(1, 1, Color::Blue, 4).unwrap();
    assert_eq!(pixel(&screen, 1, 1), ([0, 0, 0xff, 0xff], Some(4)));
}

#[test]
fn smaller_depth_is_dropped() {
    let mut screen = Screen::new(2, 2);
    screen.write(1, 1, Color::Red, 3).unwrap();
    assert_eq!(screen.write(1, 1, Color::Blue, 2), Ok(()));
    assert_eq!(pixel(&screen, 1, 1), ([0xff, 0, 0, 0xff], Some(3)));
    assert_eq!(screen.write(1, 1, Color::Blue, i32::MIN), Ok(()));
    assert_eq!(pixel(&screen, 1, 1), ([0xff, 0, 0, 0xff], Some(3)));
}

#[test]
fn equal_depth_keeps_the_first_write() {
    let mut screen = Screen::new(2, 2);
    screen.write(0, 1, Color::Red, 3).unwrap();
    screen.write(0, 1, Color::Blue, 3).unwrap();
    assert_eq!(pixel(&screen, 0, 1), ([0xff, 0, 0, 0xff], Some(3)));
}

#[test]
fn extreme_depths_are_ordered() {
    let mut screen = Screen::new(1, 1);
    screen.write(0, 0, Color::Red, i32::MIN).unwrap();
    assert_eq!(pixel(&screen, 0, 0), ([0xff, 0, 0, 0xff], Some(i32::MIN)));
    screen.write(0, 0, Color::Green, i32::MAX).unwrap();
    assert_eq!(pixel(&screen, 0, 0), ([0, 0xff, 0, 0xff], Some(i32::MAX)));
    screen.write(0, 0, Color::Blue, i32::MAX).unwrap();
    assert_eq!(pixel(&screen, 0, 0), ([0, 0xff, 0, 0xff], Some(i32::MAX)));
}

#[test]
fn writing_twice_is_writing_once() {
    let mut once = Screen::new(3, 3);
    let mut twice = Screen::new(3, 3);
    once.write(0, 0, Color::Yellow, 1).unwrap();
    twice.write(0, 0, Color::Yellow, 1).unwrap();
    for (x, y, color, depth) in [(1, 1, Color::Purple, 5), (0, 0, Color::White, 9), (0, 0, Color::Black, -3)] {
        once.write(x, y, color, depth).unwrap();
        twice.write(x, y, color, depth).unwrap();
        twice.write(x, y, color, depth).unwrap();
        assert_eq!(once.get_slice(), twice.get_slice());
        for py in 0..3 {
            for px in 0..3 {
                assert_eq!(once.get_depth(px, py), twice.get_depth(px, py));
            }
        }
    }
}

#[test]
fn nearer_write_wins_in_either_order() {
    for (d1, d2) in [(1, 2), (2, 1), (-5, 7), (0, i32::MAX), (i32::MIN, -1)] {
        let mut forward = Screen::new(2, 1);
        forward.write(1, 0, Color::Red, d1).unwrap();
        forward.write(1, 0, Color::Blue, d2).unwrap();
        let mut backward = Screen::new(2, 1);
        backward.write(1, 0, Color::Blue, d2).unwrap();
        backward.write(1, 0, Color::Red, d1).unwrap();
        let winner = if d1 > d2 { Color::Red } else { Color::Blue };
        let expected = (winner.get_rgba(), Some(d1.max(d2)));
        assert_eq!(pixel(&forward, 1, 0), expected);
        assert_eq!(pixel(&backward, 1, 0), expected);
    }
}

#[test]
fn clear_forgets_every_write() {
    let mut screen = Screen::new(3, 2);
    screen.write(0, 0, Color::Red, 100).unwrap();
    screen.write(2, 1, Color::Blue, -100).unwrap();
    screen.clear();
    assert_eq!(screen.size(), (3, 2));
    assert_eq!(screen.get_slice().len(), 24);
    assert!(screen.get_slice().iter().all(|byte| *byte == 0));
    assert_eq!(screen.get_depth(0, 0), Ok(None));
    assert_eq!(screen.get_depth(2, 1), Ok(None));
    screen.write(0, 0, Color::Green, -1000).unwrap();
    assert_eq!(pixel(&screen, 0, 0), ([0, 0xff, 0, 0xff], Some(-1000)));
}
