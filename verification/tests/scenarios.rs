use n_renderer::dispatch::{chunk_ranges, CHUNK_SIZE};
use n_renderer::object::{Face, Node, Object};
use n_renderer::render::{depth_key, Color, Screen};
use n_renderer::stamp::{print_points, Stamp};

/// The key of a float depth.
fn key(depth: f32) -> i32 {
    depth_key(depth.to_bits())
}

fn cube(r: f32) -> Object<(f32, f32, f32)> {
    let mut nodes = Vec::new();
    for i in 0..=1u8 {
        let z = (i as f32 - 0.5) * 2.0 * r;
        for j in 0..=1u8 {
            let y = (j as f32 - 0.5) * 2.0 * r;
            for k in 0..=1u8 {
                let x = (k as f32 - 0.5) * 2.0 * r;
                nodes.push(Node { pos: (x, y, z), r: 1, color: Color::RGB(i * 255, j * 255, k * 255) });
            }
        }
    }
    let corners: [(usize, usize, usize); 12] = [
        (0, 1, 4),
        (0, 4, 2),
        (0, 2, 1),
        (3, 1, 2),
        (3, 2, 7),
        (1, 3, 7),
        (5, 1, 7),
        (5, 4, 1),
        (5, 7, 4),
        (6, 2, 4),
        (6, 4, 7),
        (6, 7, 2),
    ];
    let faces = corners
        .iter()
        .map(|c| Face { node_a_index: c.0, node_b_index: c.1, node_c_index: c.2, r: 20 })
        .collect();
    Object::new(nodes, faces)
}

fn collapse(pos: (f32, f32, f32), scale: f32, size: (usize, usize)) -> (usize, usize, i32) {
    let x = pos.0 * scale + size.0 as f32 / 2.0;
    let y = pos.1 * scale + size.1 as f32 / 2.0;
    (x as usize, y as usize, key(pos.2 / 10.0))
}

fn stereographic(pos: (f32, f32, f32), scale: f32, size: (usize, usize)) -> (f32, f32, i32) {
    let x = 0.866 * pos.0 - 0.866 * pos.2;
    let y = -0.5 * pos.0 - pos.1 - 0.5 * pos.2;
    (x * scale * 100.0 + size.0 as f32 / 2.0, y * scale * 100.0 + size.1 as f32 / 2.0, key(0.0))
}

#[test]
fn depth_keys_are_ordered_as_depths() {
    let depths = [f32::NEG_INFINITY, -1.0e9, -5.0, -0.1, -1.0e-30, 0.0, 1.0e-30, 0.1, 0.5, 5.0, 1.0e9, f32::INFINITY];
    for pair in depths.windows(2) {
        assert!(key(pair[0]) < key(pair[1]), "{pair:?}");
    }
}

#[test]
fn depth_keys_of_given_bit_patterns() {
    assert_eq!(depth_key(0), 0);
    assert_eq!(depth_key(0x8000_0000), 0);
    assert_eq!(depth_key(1), 1);
    assert_eq!(depth_key(0x8000_0001), -1);
    assert_eq!(depth_key(0x3f80_0000), 0x3f80_0000);
    assert_eq!(depth_key(0xbf80_0000), -0x3f80_0000);
    assert_eq!(depth_key(0x7fff_ffff), i32::MAX);
    assert_eq!(depth_key(0xffff_ffff), -i32::MAX);
    assert_eq!(key(0.0), key(-0.0));
    assert_eq!(key(1.0), 0x3f80_0000);
    assert_eq!(key(-1.0), -0x3f80_0000);
}

#[test]
fn write_at_zero_does_not_replace_negative_zero() {
    let mut screen = Screen::new(1, 1);
    screen.write(0, 0, Color::Red, key(-0.0)).unwrap();
    screen.write(0, 0, Color::Blue, key(0.0)).unwrap();
    assert_eq!(screen.get_color(0, 0), Ok([0xff, 0, 0, 0xff]));
}

#[test]
fn cube_collapsed_into_a_hundred_pixels_square() {
    let object = cube(1.0);
    assert_eq!(object.nodes.len(), 8);
    assert_eq!(object.faces.len(), 12);
    let mut screen = Screen::new(100, 100);
    let size = screen.size();
    let mut stamps = Vec::new();
    for node in &object.nodes {
        let (x, y, depth) = collapse(node.pos, 1.0, size);
        stamps.extend(node.draw_at(x, y, depth));
    }
    assert_eq!(stamps.len(), 8);
    let mut places: Vec<(usize, usize)> = stamps.iter().map(|stamp| (stamp.x, stamp.y)).collect();
    places.sort();
    assert_eq!(places, vec![(49, 49), (49, 49), (49, 51), (49, 51), (51, 49), (51, 49), (51, 51), (51, 51)]);
    assert!(stamps.iter().all(|stamp| stamp.r == 1));
    print_points(&mut screen, &stamps);
    let near = key(0.1);
    for y in 0..100 {
        for x in 0..100 {
            let corner = (x == 49 || x == 51) && (y == 49 || y == 51);
            if corner {
                let green = if y == 51 { 255 } else { 0 };
                let blue = if x == 51 { 255 } else { 0 };
                assert_eq!(screen.get_color(x, y), Ok([255, green, blue, 255]));
                assert_eq!(screen.get_depth(x, y), Ok(Some(near)));
            } else {
                assert_eq!(screen.get_color(x, y), Ok([0, 0, 0, 0]));
                assert_eq!(screen.get_depth(x, y), Ok(None));
            }
        }
    }
}

#[test]
fn cube_under_the_stereographic_mode_stays_on_screen() {
    let object = cube(1.0);
    let mut screen = Screen::new(600, 600);
    let size = screen.size();
    let scale = 0.5 / 0.7;
    for node in &object.nodes {
        let (x, y, depth) = stereographic(node.pos, scale, size);
        assert!(0.0 <= x && x < 600.0 && 0.0 <= y && y < 600.0);
        assert_eq!(screen.write(x as usize, y as usize, node.color, depth), Ok(()));
    }
    for w in [-1.0f32, -0.5, 0.0, 0.25, 1.0] {
        for node in &object.nodes {
            let pos = (node.pos.0 / (2.0 + w), node.pos.1 / (2.0 + w), node.pos.2 / (2.0 + w));
            let (x, y, depth) = stereographic(pos, scale, size);
            assert!(x.is_finite() && y.is_finite());
            assert_eq!(screen.write(x as usize, y as usize, node.color, depth), Ok(()));
            assert_eq!(pos.0 > 0.0, node.pos.0 > 0.0);
            assert_eq!(pos.1 > 0.0, node.pos.1 > 0.0);
            assert_eq!(pos.2 > 0.0, node.pos.2 > 0.0);
        }
    }
}

/// The stamps of a mesh of 1000 vertices and 500 faces, no two of which
/// share a depth.
fn thousand_vertices_and_five_hundred_faces() -> (Vec<Stamp>, Vec<Vec<Stamp>>) {
    let mut seed: u32 = 12345;
    let mut next = move |bound: usize| {
        seed = seed.wrapping_mul(1664525).wrapping_add(1013904223);
        (seed >> 8) as usize % bound
    };
    let mut depth: i32 = -3000;
    let mut vertices = Vec::new();
    for k in 0..1000usize {
        depth += 1;
        vertices.push(Stamp { x: next(130), y: next(110), r: next(25), color: Color::RGB(k as u8, (k / 4) as u8, 7), depth });
    }
    let mut faces = Vec::new();
    for k in 0..500usize {
        let mut samples = Vec::new();
        for _ in 0..next(6) {
            depth += 1;
            samples.push(Stamp { x: next(130), y: next(110), r: 20, color: Color::RGBA(9, k as u8, (k / 2) as u8, 200), depth });
        }
        faces.push(samples);
    }
    (vertices, faces)
}

fn same(a: &Screen, b: &Screen) -> bool {
    let (width, height) = a.size();
    b.size() == (width, height)
        && a.get_slice() == b.get_slice()
        && (0..height).all(|y| (0..width).all(|x| a.get_depth(x, y) == b.get_depth(x, y)))
}

#[test]
fn chunked_draw_in_any_order_is_the_serial_draw() {
    let (vertices, faces) = thousand_vertices_and_five_hundred_faces();
    let mut serial = Screen::new(120, 100);
    print_points(&mut serial, &vertices);
    for samples in &faces {
        print_points(&mut serial, samples);
    }

    let mut batches: Vec<Vec<Stamp>> = Vec::new();
    for (start, end) in chunk_ranges(vertices.len(), CHUNK_SIZE) {
        batches.push(vertices[start..end].to_vec());
    }
    for (start, end) in chunk_ranges(faces.len(), CHUNK_SIZE) {
        batches.push(faces[start..end].concat());
    }
    assert_eq!(batches.len(), 5 + 3);

    let orders: [[usize; 8]; 4] =
        [[0, 1, 2, 3, 4, 5, 6, 7], [7, 6, 5, 4, 3, 2, 1, 0], [5, 0, 7, 2, 4, 6, 1, 3], [3, 6, 1, 4, 7, 0, 5, 2]];
    for order in orders {
        let mut chunked = Screen::new(120, 100);
        for k in order {
            print_points(&mut chunked, &batches[k]);
        }
        assert!(same(&serial, &chunked), "{order:?}");
    }
    assert!(serial.get_slice().iter().any(|byte| *byte != 0));
}
