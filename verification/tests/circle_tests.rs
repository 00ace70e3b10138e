use geometrical_shapes::{isqrt, Circle, Drawable, Pixel, PixelBuffer, Point};

fn coords(buf: &PixelBuffer) -> Vec<(i32, i32)> {
    buf.pixels.iter().map(|p: &Pixel| (p.x, p.y)).collect()
}

fn one_color(buf: &PixelBuffer) -> bool {
    buf.pixels.iter().all(|p: &Pixel| p.color == buf.pixels[0].color)
}

#[test]
fn circle_radius_zero_draws_nothing() {
    let mut buf = PixelBuffer::new();
    Circle::new(Point::new(10, 10), 0).draw(&mut buf);
    assert!(buf.pixels.is_empty());
}

#[test]
fn circle_negative_radius_draws_nothing() {
    let mut buf = PixelBuffer::new();
    Circle::new(Point::new(-3, 4), -17).draw(&mut buf);
    assert!(buf.pixels.is_empty());
}

#[test]
fn circle_radius_five_exact_orbit() {
    let mut buf = PixelBuffer::new();
    Circle::new(Point::new(10, 10), 5).draw(&mut buf);
    // The octant visits offsets (0,-5), (1,-5), (2,-5), (3,-4); each is
    // written together with its eight reflections.
    assert_eq!(buf.pixels.len(), 32);
    assert!(one_color(&buf));
    let got = coords(&buf);
    for (ox, oy) in [(0, -5), (1, -5), (2, -5), (3, -4)] {
        for (rx, ry) in [
            (ox, oy),
            (-ox, oy),
            (ox, -oy),
            (-ox, -oy),
            (oy, ox),
            (oy, -ox),
            (-oy, ox),
            (-oy, -ox),
        ] {
            assert!(got.contains(&(10 + rx, 10 + ry)));
        }
    }
}

#[test]
fn circle_radius_five_is_symmetric() {
    let mut buf = PixelBuffer::new();
    Circle::new(Point::new(10, 10), 5).draw(&mut buf);
    let got = coords(&buf);
    for &(px, py) in &got {
        let (ox, oy) = (px - 10, py - 10);
        for (rx, ry) in [
            (-ox, oy),
            (ox, -oy),
            (-ox, -oy),
            (oy, ox),
            (oy, -ox),
            (-oy, ox),
            (-oy, -ox),
        ] {
            assert!(got.contains(&(10 + rx, 10 + ry)));
        }
    }
}

#[test]
fn circle_radius_one_writes_one_orbit() {
    let mut buf = PixelBuffer::new();
    Circle::new(Point::new(0, 0), 1).draw(&mut buf);
    let got = coords(&buf);
    assert_eq!(got.len(), 8);
    for c in [(0, -1), (0, 1), (-1, 0), (1, 0)] {
        assert!(got.contains(&c));
    }
}

#[test]
fn circle_random_stays_in_box() {
    for _ in 0..200 {
        let s = Circle::random(10, 7);
        assert!(0 <= s.center.x && s.center.x <= 10);
        assert!(0 <= s.center.y && s.center.y <= 7);
        assert!(0 <= s.radius && s.radius * s.radius <= 149);
    }
}

#[test]
fn circle_in_bounds_matches_radius() {
    assert!(Circle::new(Point::new(0, 0), 100).in_bounds());
    assert!(Circle::new(Point::new(0, 0), -5).in_bounds());
    assert!(!Circle::new(Point::new(i32::MAX, 0), 1).in_bounds());
}

#[test]
fn isqrt_exact_values() {
    assert_eq!(isqrt(0), 0);
    assert_eq!(isqrt(1), 1);
    assert_eq!(isqrt(2), 1);
    assert_eq!(isqrt(24), 4);
    assert_eq!(isqrt(25), 5);
    assert_eq!(isqrt(26), 5);
    assert_eq!(isqrt(u64::MAX), 4294967295);
}
