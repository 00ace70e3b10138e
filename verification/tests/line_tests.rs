use geometrical_shapes::{Color, Drawable, Line, Pixel, PixelBuffer, Point};

fn coords(buf: &PixelBuffer) -> Vec<(i32, i32)> {
    buf.pixels.iter().map(|p: &Pixel| (p.x, p.y)).collect()
}

fn one_color(buf: &PixelBuffer) -> bool {
    buf.pixels.iter().all(|p: &Pixel| p.color == buf.pixels[0].color)
}

const INK: Color = Color { red: 7, green: 8, blue: 9 };

#[test]
fn degenerate_line_single_pixel() {
    let mut buf = PixelBuffer::new();
    let l = Line::new(Point::new(2, 3), Point::new(2, 3));
    l.draw_with_color(&mut buf, INK);
    assert_eq!(coords(&buf), vec![(2, 3)]);
    assert_eq!(buf.pixels[0].color, INK);
}

#[test]
fn diagonal_line_exact_pixels() {
    let mut buf = PixelBuffer::new();
    Line::new(Point::new(0, 0), Point::new(4, 4)).draw_with_color(&mut buf, INK);
    assert_eq!(coords(&buf), vec![(0, 0), (1, 1), (2, 2), (3, 3), (4, 4)]);
}

#[test]
fn reversed_diagonal_line_exact_pixels() {
    let mut buf = PixelBuffer::new();
    Line::new(Point::new(4, 4), Point::new(0, 0)).draw_with_color(&mut buf, INK);
    assert_eq!(coords(&buf), vec![(4, 4), (3, 3), (2, 2), (1, 1), (0, 0)]);
}

#[test]
fn horizontal_line_exact_pixels() {
    let mut buf = PixelBuffer::new();
    Line::new(Point::new(3, 1), Point::new(7, 1)).draw_with_color(&mut buf, INK);
    assert_eq!(coords(&buf), vec![(3, 1), (4, 1), (5, 1), (6, 1), (7, 1)]);
}

#[test]
fn vertical_line_exact_pixels() {
    let mut buf = PixelBuffer::new();
    Line::new(Point::new(-1, 2), Point::new(-1, -2)).draw_with_color(&mut buf, INK);
    assert_eq!(coords(&buf), vec![(-1, 2), (-1, 1), (-1, 0), (-1, -1), (-1, -2)]);
}

#[test]
fn negative_diagonal_line_exact_pixels() {
    let mut buf = PixelBuffer::new();
    Line::new(Point::new(0, 0), Point::new(-3, -3)).draw_with_color(&mut buf, INK);
    assert_eq!(coords(&buf), vec![(0, 0), (-1, -1), (-2, -2), (-3, -3)]);
}

#[test]
fn gentle_slope_rounds_halves_away_from_zero() {
    let mut buf = PixelBuffer::new();
    Line::new(Point::new(0, 0), Point::new(4, 2)).draw_with_color(&mut buf, INK);
    // offsets along y are round(i/2): 0, 1, 1, 2, 2
    assert_eq!(coords(&buf), vec![(0, 0), (1, 1), (2, 1), (3, 2), (4, 2)]);
}

#[test]
fn halves_round_on_the_accumulated_coordinate() {
    // From (1,0) to (0,2) step 1 accumulates x = 0.5, which rounds away
    // from zero to 1 — the tie is broken on the coordinate, not on the
    // displacement from the start.
    let mut buf = PixelBuffer::new();
    Line::new(Point::new(1, 0), Point::new(0, 2)).draw_with_color(&mut buf, INK);
    assert_eq!(coords(&buf), vec![(1, 0), (1, 1), (0, 2)]);
}

#[test]
fn negative_halves_round_away_from_zero() {
    // From (-1,0) to (0,2) step 1 accumulates x = -0.5, which rounds away
    // from zero to -1.
    let mut buf = PixelBuffer::new();
    Line::new(Point::new(-1, 0), Point::new(0, 2)).draw_with_color(&mut buf, INK);
    assert_eq!(coords(&buf), vec![(-1, 0), (-1, 1), (0, 2)]);
}

#[test]
fn line_draw_uses_one_color() {
    let mut buf = PixelBuffer::new();
    Line::new(Point::new(0, 0), Point::new(4, 4)).draw(&mut buf);
    assert_eq!(coords(&buf), vec![(0, 0), (1, 1), (2, 2), (3, 3), (4, 4)]);
    assert!(one_color(&buf));
}

#[test]
fn line_random_stays_in_box() {
    for _ in 0..200 {
        let l = Line::random(10, 7);
        assert!(0 <= l.0.x && l.0.x <= 10 && 0 <= l.0.y && l.0.y <= 7);
        assert!(0 <= l.1.x && l.1.x <= 10 && 0 <= l.1.y && l.1.y <= 7);
    }
}
