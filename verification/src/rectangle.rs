use crate::color::Color;
use crate::drawable::Drawable;
use crate::line::{line_pixels, Line};
use crate::point::Point;
use crate::sink::{Displayable, Pix};
use vstd::prelude::*;

verus! {

/// An axis-aligned rectangle, stored as its four corners: the two given
/// opposite corners first, then the two derived ones. The corners need not
/// be in any particular order; a box given by swapped corners is legal.
#[derive(Debug)]
pub struct Rectangle(pub Point, pub Point, pub Point, pub Point);

impl Rectangle {
    /// Build the rectangle with opposite corners `a` and `b`; the other two
    /// corners are derived as `(a.x, b.y)` and `(b.x, a.y)`.
    pub fn new(a: &Point, b: &Point) -> (r: Rectangle)
        ensures
            r.0 == *a,
            r.1 == *b,
            r.2 == (Point { x: a.x, y: b.y }),
            r.3 == (Point { x: b.x, y: a.y }),
    {
        let c = Point::new(a.x, b.y);
        let d = Point::new(b.x, a.y);
        Rectangle(*a, *b, c, d)
    }
}

impl Drawable for Rectangle {
    open spec fn pixel_run(&self, c: Color) -> Seq<Pix> {
        line_pixels(self.0, self.2, c) + line_pixels(self.2, self.1, c) + line_pixels(
            self.1,
            self.3,
            c,
        ) + line_pixels(self.3, self.0, c)
    }

    open spec fn fits(&self) -> bool {
        true
    }

    /// Draw the four sides `(a, c)`, `(c, b)`, `(b, d)`, `(d, a)`, tracing
    /// the box once around, all in one shared fresh random color.
    fn draw<D: Displayable>(&self, img: &mut D) {
        let c = self.color();
        let l1 = Line::new(self.0, self.2);
        let l2 = Line::new(self.2, self.1);
        let l3 = Line::new(self.1, self.3);
        let l4 = Line::new(self.3, self.0);
        l1.draw_with_color(img, c);
        l2.draw_with_color(img, c);
        l3.draw_with_color(img, c);
        l4.draw_with_color(img, c);
        proof {
            assert(img.pixels() =~= old(img).pixels() + self.pixel_run(c));
        }
    }
}

} // verus!
