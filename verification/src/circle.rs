use crate::arith::isqrt;
use crate::color::Color;
use crate::drawable::Drawable;
use crate::point::Point;
use crate::sink::{pix, Displayable, Pix};
use vstd::prelude::*;

verus! {

/// The eight symmetric reflections of the offset `(x, y)` around
/// `(cx, cy)`, in the order the rasterizer writes them.
pub open spec fn octet(cx: int, cy: int, x: int, y: int, c: Color) -> Seq<Pix> {
    seq![
        pix(cx + x, cy + y, c),
        pix(cx - x, cy + y, c),
        pix(cx + x, cy - y, c),
        pix(cx - x, cy - y, c),
        pix(cx + y, cy + x, c),
        pix(cx + y, cy - x, c),
        pix(cx - y, cy + x, c),
        pix(cx - y, cy - x, c),
    ]
}

/// The pixels the midpoint loop writes from state `(x, y, p)` on: while
/// `x < -y`, the decision variable `p` moves `y` one row up when positive,
/// and each iteration writes the eight reflections of the updated offset.
pub open spec fn octant_pixels(cx: int, cy: int, x: int, y: int, p: int, c: Color) -> Seq<Pix>
    decreases -y - x + 1,
{
    if x < -y {
        let y2 = if p > 0 {
            y + 1
        } else {
            y
        };
        let p2 = if p > 0 {
            p + 2 * (x + y + 1) + 1
        } else {
            p + 2 * x + 1
        };
        octet(cx, cy, x, y2, c) + octant_pixels(cx, cy, x + 1, y2, p2, c)
    } else {
        Seq::empty()
    }
}

/// The full pixel run of the circle outline around `center` with the given
/// radius: the midpoint loop started at `x = 0`, `y = -radius`,
/// `p = -radius`.
pub open spec fn circle_pixels(center: Point, radius: int, c: Color) -> Seq<Pix> {
    octant_pixels(center.x as int, center.y as int, 0, -radius, -radius, c)
}

/// A circle outline: a center and a radius. A non-positive radius is legal
/// and draws nothing.
#[derive(Debug)]
pub struct Circle {
    pub center: Point,
    pub radius: i32,
}

impl Circle {
    /// A circle around a random center inside `[0, width] x [0, height]`,
    /// whose radius is the distance from the center to a second random
    /// coordinate in the same box, rounded down to an integer.
    pub fn random(width: i32, height: i32) -> (s: Circle)
        requires
            0 <= width,
            0 <= height,
        ensures
            0 <= s.center.x <= width,
            0 <= s.center.y <= height,
            0 <= s.radius,
            s.radius * s.radius <= width * width + height * height,
    {
        let center = Point::random(width, height);
        let edge = Point::random(width, height);
        let dx: i64 = edge.x as i64 - center.x as i64;
        let dy: i64 = edge.y as i64 - center.y as i64;
        proof {
            assert(0 <= dx * dx <= (width as int) * (width as int)) by (nonlinear_arith)
                requires -width <= dx <= width;
            assert(0 <= dy * dy <= (height as int) * (height as int)) by (nonlinear_arith)
                requires -height <= dy <= height;
            assert(dx * dx <= 0x3FFF_FFFF_0000_0001) by (nonlinear_arith)
                requires -0x7FFF_FFFF <= dx <= 0x7FFF_FFFF;
            assert(dy * dy <= 0x3FFF_FFFF_0000_0001) by (nonlinear_arith)
                requires -0x7FFF_FFFF <= dy <= 0x7FFF_FFFF;
        }
        let sq: u64 = (dx * dx + dy * dy) as u64;
        let root: u64 = isqrt(sq);
        // The distance can exceed the i32 range on a huge canvas; cap it
        // there, as a narrowing conversion of the distance would.
        let radius: i32 = if root > 0x7FFF_FFFF {
            0x7FFF_FFFF
        } else {
            root as i32
        };
        proof {
            assert((radius as int) * (radius as int) <= (root as int) * (root as int))
                by (nonlinear_arith)
                requires 0 <= (radius as int) <= (root as int);
        }
        Circle::new(center, radius)
    }

    pub fn new(a: Point, b: i32) -> (s: Circle)
        ensures
            s.center == a,
            s.radius == b,
    {
        Circle { center: a, radius: b }
    }

    /// Whether every pixel of the outline fits in `i32` coordinates, so the
    /// circle may be drawn. Equivalent to the `fits` bound of the
    /// [`Drawable`] contract.
    pub fn in_bounds(&self) -> (b: bool)
        ensures
            b == self.fits(),
    {
        if self.radius <= 0 {
            true
        } else {
            let cx: i64 = self.center.x as i64;
            let cy: i64 = self.center.y as i64;
            let r: i64 = self.radius as i64;
            -0x8000_0000i64 <= cx - r && cx + r <= 0x7FFF_FFFFi64 && -0x8000_0000i64 <= cy - r
                && cy + r <= 0x7FFF_FFFFi64
        }
    }
}

impl Drawable for Circle {
    open spec fn pixel_run(&self, c: Color) -> Seq<Pix> {
        circle_pixels(self.center, self.radius as int, c)
    }

    open spec fn fits(&self) -> bool {
        self.radius <= 0 || (i32::MIN <= self.center.x - self.radius && self.center.x + self.radius
            <= i32::MAX && i32::MIN <= self.center.y - self.radius && self.center.y + self.radius
            <= i32::MAX)
    }

    /// Rasterize the outline in one fresh random color, by the incremental
    /// midpoint decision rule with eight-way symmetry.
    fn draw<D: Displayable>(&self, img: &mut D) {
        let c = self.color();
        let ghost run = circle_pixels(self.center, self.radius as int, c);
        let cx: i64 = self.center.x as i64;
        let cy: i64 = self.center.y as i64;
        let r: i64 = self.radius as i64;
        let mut x: i64 = 0;
        let mut y: i64 = -r;
        let mut p: i128 = -(r as i128);
        while x < -y
            invariant
                self.fits(),
                cx == self.center.x,
                cy == self.center.y,
                r == self.radius,
                0 <= x <= 0x8000_0000i64,
                x < -y ==> 1 <= r,
                1 <= r ==> -r <= y <= 0,
                x < -y ==> x < r,
                -0x1_0000_0000_0000_0000 - 0x4_0000_0000 * (x as int) <= p <= 0x1_0000_0000_0000_0000
                    + 0x4_0000_0000 * (x as int),
                img.pixels() + octant_pixels(cx as int, cy as int, x as int, y as int, p as int, c)
                    == old(img).pixels() + run,
            decreases -y - x + 1,
        {
            let ghost seen = img.pixels();
            let ghost x0 = x as int;
            let ghost y0 = y as int;
            let ghost p0 = p as int;
            if p > 0 {
                y = y + 1;
                p = p + 2 * ((x as i128) + (y as i128)) + 1;
            } else {
                p = p + 2 * (x as i128) + 1;
            }
            img.display((cx + x) as i32, (cy + y) as i32, c);
            img.display((cx - x) as i32, (cy + y) as i32, c);
            img.display((cx + x) as i32, (cy - y) as i32, c);
            img.display((cx - x) as i32, (cy - y) as i32, c);
            img.display((cx + y) as i32, (cy + x) as i32, c);
            img.display((cx + y) as i32, (cy - x) as i32, c);
            img.display((cx - y) as i32, (cy + x) as i32, c);
            img.display((cx - y) as i32, (cy - x) as i32, c);
            proof {
                assert(octant_pixels(cx as int, cy as int, x0, y0, p0, c) == octet(
                    cx as int,
                    cy as int,
                    x0,
                    y as int,
                    c,
                ) + octant_pixels(cx as int, cy as int, x0 + 1, y as int, p as int, c));
                assert(img.pixels() =~= seen + octet(cx as int, cy as int, x0, y as int, c));
                assert(img.pixels() + octant_pixels(
                    cx as int,
                    cy as int,
                    x0 + 1,
                    y as int,
                    p as int,
                    c,
                ) =~= old(img).pixels() + run);
            }
            x = x + 1;
        }
        proof {
            assert(octant_pixels(cx as int, cy as int, x as int, y as int, p as int, c)
                =~= Seq::<Pix>::empty());
            assert(img.pixels() =~= old(img).pixels() + run);
            assert(img.pixels() == old(img).pixels() + self.pixel_run(c));
        }
    }
}

/// Whether the run writes some pixel at the coordinate `(px, py)`, in any
/// color.
pub open spec fn run_marks(run: Seq<Pix>, px: int, py: int) -> bool {
    exists|k: int| 0 <= k < run.len() && run[k].x == px && run[k].y == py
}

/// A pixel of `rest` is a pixel of `head + rest`.
proof fn lemma_marks_in_tail(head: Seq<Pix>, rest: Seq<Pix>, px: int, py: int)
    requires
        run_marks(rest, px, py),
    ensures
        run_marks(head + rest, px, py),
{
    let j = choose|j: int| 0 <= j < rest.len() && rest[j].x == px && rest[j].y == py;
    assert((head + rest)[head.len() + j].x == px && (head + rest)[head.len() + j].y == py);
}

/// The midpoint loop's run is closed under the eight reflections of an
/// offset: each iteration writes a whole orbit at once.
proof fn lemma_octant_symmetry(cx: int, cy: int, x: int, y: int, p: int, c: Color, ox: int, oy: int)
    requires
        run_marks(octant_pixels(cx, cy, x, y, p, c), cx + ox, cy + oy),
    ensures
        run_marks(octant_pixels(cx, cy, x, y, p, c), cx - ox, cy + oy),
        run_marks(octant_pixels(cx, cy, x, y, p, c), cx + ox, cy - oy),
        run_marks(octant_pixels(cx, cy, x, y, p, c), cx - ox, cy - oy),
        run_marks(octant_pixels(cx, cy, x, y, p, c), cx + oy, cy + ox),
        run_marks(octant_pixels(cx, cy, x, y, p, c), cx + oy, cy - ox),
        run_marks(octant_pixels(cx, cy, x, y, p, c), cx - oy, cy + ox),
        run_marks(octant_pixels(cx, cy, x, y, p, c), cx - oy, cy - ox),
    decreases -y - x + 1,
{
    let run = octant_pixels(cx, cy, x, y, p, c);
    if x < -y {
        let y2 = if p > 0 {
            y + 1
        } else {
            y
        };
        let p2 = if p > 0 {
            p + 2 * (x + y + 1) + 1
        } else {
            p + 2 * x + 1
        };
        let head = octet(cx, cy, x, y2, c);
        let rest = octant_pixels(cx, cy, x + 1, y2, p2, c);
        assert(run == head + rest);
        let k = choose|k: int| 0 <= k < run.len() && run[k].x == cx + ox && run[k].y == cy + oy;
        if k < 8 {
            assert(run[0] == pix(cx + x, cy + y2, c));
            assert(run[1] == pix(cx - x, cy + y2, c));
            assert(run[2] == pix(cx + x, cy - y2, c));
            assert(run[3] == pix(cx - x, cy - y2, c));
            assert(run[4] == pix(cx + y2, cy + x, c));
            assert(run[5] == pix(cx + y2, cy - x, c));
            assert(run[6] == pix(cx - y2, cy + x, c));
            assert(run[7] == pix(cx - y2, cy - x, c));
        } else {
            assert(rest[k - 8].x == cx + ox && rest[k - 8].y == cy + oy);
            lemma_octant_symmetry(cx, cy, x + 1, y2, p2, c, ox, oy);
            lemma_marks_in_tail(head, rest, cx - ox, cy + oy);
            lemma_marks_in_tail(head, rest, cx + ox, cy - oy);
            lemma_marks_in_tail(head, rest, cx - ox, cy - oy);
            lemma_marks_in_tail(head, rest, cx + oy, cy + ox);
            lemma_marks_in_tail(head, rest, cx + oy, cy - ox);
            lemma_marks_in_tail(head, rest, cx - oy, cy + ox);
            lemma_marks_in_tail(head, rest, cx - oy, cy - ox);
        }
    }
}

/// A circle's pixel run is symmetric under the eight reflections of an
/// offset from its center: if it marks `center + (ox, oy)`, it also marks
/// the mirror images `center + (-ox, oy)`, `center + (ox, -oy)`,
/// `center + (-ox, -oy)` and the four with the axes swapped.
pub proof fn lemma_circle_symmetry(center: Point, radius: int, c: Color, ox: int, oy: int)
    requires
        run_marks(circle_pixels(center, radius, c), center.x + ox, center.y + oy),
    ensures
        run_marks(circle_pixels(center, radius, c), center.x - ox, center.y + oy),
        run_marks(circle_pixels(center, radius, c), center.x + ox, center.y - oy),
        run_marks(circle_pixels(center, radius, c), center.x - ox, center.y - oy),
        run_marks(circle_pixels(center, radius, c), center.x + oy, center.y + ox),
        run_marks(circle_pixels(center, radius, c), center.x + oy, center.y - ox),
        run_marks(circle_pixels(center, radius, c), center.x - oy, center.y + ox),
        run_marks(circle_pixels(center, radius, c), center.x - oy, center.y - ox),
{
    lemma_octant_symmetry(center.x as int, center.y as int, 0, -radius, -radius, c, ox, oy);
}

/// A circle with a non-positive radius draws nothing: the loop bound
/// `x < -y` is false at the start, so the run is empty.
pub proof fn lemma_small_circle_empty(center: Point, radius: int, c: Color)
    requires
        radius <= 0,
    ensures
        circle_pixels(center, radius, c) == Seq::<Pix>::empty(),
{
}

} // verus!
