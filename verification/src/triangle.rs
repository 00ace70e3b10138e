use crate::color::Color;
use crate::drawable::Drawable;
use crate::line::{line_pixels, Line};
use crate::point::Point;
use crate::sink::{Displayable, Pix};
use vstd::prelude::*;

verus! {

/// An ordered triple of vertices. No winding or non-degeneracy invariant:
/// three collinear vertices are legal and draw as overlapping segments.
#[derive(Debug)]
pub struct Triangle(pub Point, pub Point, pub Point);

impl Triangle {
    pub fn new(a: &Point, b: &Point, c: &Point) -> (t: Triangle)
        ensures
            t.0 == *a,
            t.1 == *b,
            t.2 == *c,
    {
        Triangle(*a, *b, *c)
    }
}

impl Drawable for Triangle {
    open spec fn pixel_run(&self, c: Color) -> Seq<Pix> {
        line_pixels(self.0, self.1, c) + line_pixels(self.1, self.2, c) + line_pixels(
            self.2,
            self.0,
            c,
        )
    }

    open spec fn fits(&self) -> bool {
        true
    }

    /// Draw the three edges `(v0, v1)`, `(v1, v2)`, `(v2, v0)`, all in one
    /// shared fresh random color.
    fn draw<D: Displayable>(&self, img: &mut D) {
        let c = self.color();
        let l1 = Line::new(self.0, self.1);
        let l2 = Line::new(self.1, self.2);
        let l3 = Line::new(self.2, self.0);
        l1.draw_with_color(img, c);
        l2.draw_with_color(img, c);
        l3.draw_with_color(img, c);
        proof {
            assert(img.pixels() =~= old(img).pixels() + self.pixel_run(c));
        }
    }
}

} // verus!
