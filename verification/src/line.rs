use crate::arith::{lemma_round_between, lemma_round_exact, round_div, round_to_nearest, sgn};
use crate::color::Color;
use crate::drawable::Drawable;
use crate::point::Point;
use crate::rng::random_in_range;
use crate::sink::{pix, Displayable, Pix};
use vstd::math::{abs, max};
use vstd::prelude::*;

verus! {

/// The number of steps the rasterizer takes along the segment from `a` to
/// `b`: the length of the dominant axis.
pub open spec fn steps_of(a: Point, b: Point) -> int {
    max(abs(b.x - a.x) as int, abs(b.y - a.y) as int)
}

/// The pixel run of the segment from `a` to `b` in color `c`.
///
/// A degenerate segment (equal endpoints) is a single pixel at `a`.
/// Otherwise, with `n = steps_of(a, b)`, step `i` of `0..=n` lands on the
/// exact accumulated coordinate `a + (i/n)(b - a)` along each axis, rounded
/// to the nearest integer with halves away from zero.
pub open spec fn line_pixels(a: Point, b: Point, c: Color) -> Seq<Pix> {
    let dx = b.x - a.x;
    let dy = b.y - a.y;
    let n = steps_of(a, b);
    if n == 0 {
        seq![pix(a.x as int, a.y as int, c)]
    } else {
        Seq::new(
            (n + 1) as nat,
            |i: int| pix(
                round_to_nearest(a.x * n + i * dx, n),
                round_to_nearest(a.y * n + i * dy, n),
                c,
            ),
        )
    }
}

/// An ordered pair of endpoints. No invariant relates them: a degenerate
/// segment with equal endpoints is legal.
#[derive(Debug)]
pub struct Line(pub Point, pub Point);

impl Line {
    /// A segment between two uniformly random coordinates inside
    /// `[0, width] x [0, height]`.
    pub fn random(width: i32, height: i32) -> (l: Line)
        requires
            0 <= width,
            0 <= height,
        ensures
            0 <= l.0.x <= width && 0 <= l.0.y <= height,
            0 <= l.1.x <= width && 0 <= l.1.y <= height,
    {
        Line(Point::random(width, height), Point::random(width, height))
    }

    pub fn new(a: Point, b: Point) -> (l: Line)
        ensures
            l.0 == a,
            l.1 == b,
    {
        Line(a, b)
    }

    /// Rasterize the segment in the given color, appending exactly
    /// `line_pixels(self.0, self.1, color)` to the sink.
    pub fn draw_with_color<D: Displayable>(&self, img: &mut D, color: Color)
        ensures
            final(img).pixels() == old(img).pixels() + line_pixels(self.0, self.1, color),
    {
        let p0 = self.0;
        let p1 = self.1;
        let dx: i64 = p1.x as i64 - p0.x as i64;
        let dy: i64 = p1.y as i64 - p0.y as i64;
        let adx: i64 = if dx < 0 {
            -dx
        } else {
            dx
        };
        let ady: i64 = if dy < 0 {
            -dy
        } else {
            dy
        };
        let n: i64 = if adx > ady {
            adx
        } else {
            ady
        };
        if n == 0 {
            img.display(p0.x, p0.y, color);
            proof {
                assert(img.pixels() =~= old(img).pixels() + line_pixels(p0, p1, color));
            }
            return ;
        }
        let ghost run = line_pixels(p0, p1, color);
        let mut i: i64 = 0;
        while i <= n
            invariant
                0 < n == steps_of(p0, p1),
                dx == p1.x - p0.x,
                dy == p1.y - p0.y,
                run == line_pixels(p0, p1, color),
                run.len() == n + 1,
                0 <= i <= n + 1,
                img.pixels() == old(img).pixels() + run.subrange(0, i as int),
            decreases n + 1 - i,
        {
            proof {
                assert(-0x1_0000_0000_0000_0000 <= (i as int) * (dx as int)
                    <= 0x1_0000_0000_0000_0000) by (nonlinear_arith)
                    requires
                        0 <= (i as int) <= 0x1_0000_0000,
                        -0x1_0000_0000 <= (dx as int) <= 0x1_0000_0000,
                ;
                assert(-0x1_0000_0000_0000_0000 <= (i as int) * (dy as int)
                    <= 0x1_0000_0000_0000_0000) by (nonlinear_arith)
                    requires
                        0 <= (i as int) <= 0x1_0000_0000,
                        -0x1_0000_0000 <= (dy as int) <= 0x1_0000_0000,
                ;
                assert(-0x8000_0000_0000_0000 <= (p0.x as int) * (n as int)
                    <= 0x8000_0000_0000_0000) by (nonlinear_arith)
                    requires
                        -0x8000_0000 <= (p0.x as int) <= 0x8000_0000,
                        0 <= (n as int) <= 0x1_0000_0000,
                ;
                assert(-0x8000_0000_0000_0000 <= (p0.y as int) * (n as int)
                    <= 0x8000_0000_0000_0000) by (nonlinear_arith)
                    requires
                        -0x8000_0000 <= (p0.y as int) <= 0x8000_0000,
                        0 <= (n as int) <= 0x1_0000_0000,
                ;
                lemma_accumulator_between(p0.x as int, p1.x as int, i as int, n as int);
                lemma_accumulator_between(p0.y as int, p1.y as int, i as int, n as int);
            }
            let numx: i128 = (p0.x as i128) * (n as i128) + (i as i128) * (dx as i128);
            let numy: i128 = (p0.y as i128) * (n as i128) + (i as i128) * (dy as i128);
            let px: i32 = round_div(numx, n as i128) as i32;
            let py: i32 = round_div(numy, n as i128) as i32;
            img.display(px, py, color);
            proof {
                assert(run[i as int] == pix(px as int, py as int, color));
                assert(img.pixels() =~= old(img).pixels() + run.subrange(0, i + 1 as int));
            }
            i = i + 1;
        }
        proof {
            assert(run.subrange(0, (n + 1) as int) =~= run);
        }
    }
}

impl Drawable for Line {
    open spec fn pixel_run(&self, c: Color) -> Seq<Pix> {
        line_pixels(self.0, self.1, c)
    }

    open spec fn fits(&self) -> bool {
        true
    }

    /// Draw the segment in one fresh random color.
    fn draw<D: Displayable>(&self, img: &mut D) {
        let c = self.color();
        self.draw_with_color(img, c);
        proof {
            assert(img.pixels() == old(img).pixels() + self.pixel_run(c));
        }
    }
}

/// A degenerate segment, with equal endpoints, emits exactly one pixel, at
/// the shared endpoint.
pub proof fn lemma_degenerate_line(a: Point, b: Point, c: Color)
    requires
        a == b,
    ensures
        line_pixels(a, b, c) == seq![pix(a.x as int, a.y as int, c)],
{
}

/// Axis-aligned and diagonal segments step by exactly one sign unit per
/// axis: the run has `steps_of(a, b) + 1` pixels, pixel `i` is `a` displaced
/// by `i` sign units, and no pixel repeats.
pub proof fn lemma_canonical_line(a: Point, b: Point, c: Color)
    requires
        b.x - a.x == 0 || b.y - a.y == 0 || abs(b.x - a.x) == abs(b.y - a.y),
    ensures
        line_pixels(a, b, c).len() == steps_of(a, b) + 1,
        forall|i: int|
            0 <= i <= steps_of(a, b) ==> line_pixels(a, b, c)[i] == pix(
                a.x + i * sgn(b.x - a.x),
                a.y + i * sgn(b.y - a.y),
                c,
            ),
        forall|i: int, j: int|
            0 <= i < j <= steps_of(a, b) ==> line_pixels(a, b, c)[i] != line_pixels(a, b, c)[j],
{
    let dx = b.x - a.x;
    let dy = b.y - a.y;
    let n = steps_of(a, b);
    if n == 0 {
        assert(line_pixels(a, b, c)[0] == pix(a.x as int, a.y as int, c));
    } else {
        assert forall|i: int| 0 <= i <= n implies line_pixels(a, b, c)[i] == pix(
            a.x + i * sgn(dx),
            a.y + i * sgn(dy),
            c,
        ) by {
            lemma_axis_step(a.x as int, i, dx, n);
            lemma_axis_step(a.y as int, i, dy, n);
        }
        assert forall|i: int, j: int| 0 <= i < j <= n implies line_pixels(a, b, c)[i]
            != line_pixels(a, b, c)[j] by {
            if abs(dx) == n {
                assert(i * sgn(dx) != j * sgn(dx)) by (nonlinear_arith)
                    requires i != j && (sgn(dx) == 1 || sgn(dx) == -1);
            } else {
                assert(abs(dy) == n);
                assert(i * sgn(dy) != j * sgn(dy)) by (nonlinear_arith)
                    requires i != j && (sgn(dy) == 1 || sgn(dy) == -1);
            }
        }
    }
}

/// The accumulated coordinate of step `i` from `s` toward `e` rounds to a
/// value between the two endpoints.
proof fn lemma_accumulator_between(s: int, e: int, i: int, n: int)
    requires
        0 < n,
        0 <= i <= n,
    ensures
        s <= e ==> s <= round_to_nearest(s * n + i * (e - s), n) <= e,
        e < s ==> e <= round_to_nearest(s * n + i * (e - s), n) <= s,
{
    let d = e - s;
    if d >= 0 {
        assert(s * n <= s * n + i * d <= e * n) by (nonlinear_arith)
            requires 0 <= i <= n && 0 <= d && e == s + d && 0 < n;
        lemma_round_between(s * n + i * d, n, s, e);
    } else {
        assert(e * n <= s * n + i * d <= s * n) by (nonlinear_arith)
            requires 0 <= i <= n && d < 0 && e == s + d && 0 < n;
        lemma_round_between(s * n + i * d, n, e, s);
    }
}

/// On a canonical segment each axis displacement is `0`, `n` or `-n`, and
/// the accumulated coordinate of step `i` is exactly `s + i` sign units.
proof fn lemma_axis_step(s: int, i: int, d: int, n: int)
    requires
        0 < n,
        0 <= i <= n,
        d == 0 || d == n || d == -n,
    ensures
        round_to_nearest(s * n + i * d, n) == s + i * sgn(d),
{
    if d == 0 {
        assert(s * n + i * 0 == s * n) by (nonlinear_arith);
        lemma_round_exact(s, n);
    } else if d == n {
        assert(s * n + i * d == (s + i) * n) by (nonlinear_arith)
            requires d == n;
        lemma_round_exact(s + i, n);
        assert(i * sgn(d) == i) by (nonlinear_arith)
            requires sgn(d) == 1;
    } else {
        assert(s * n + i * d == (s - i) * n) by (nonlinear_arith)
            requires d == -n;
        lemma_round_exact(s - i, n);
        assert(i * sgn(d) == -i) by (nonlinear_arith)
            requires sgn(d) == -1;
    }
}

} // verus!
