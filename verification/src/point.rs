use crate::color::Color;
use crate::drawable::Drawable;
use crate::rng::random_in_range;
use crate::sink::{pix, Displayable, Pix};
use vstd::prelude::*;

verus! {

/// A 2D integer coordinate. An immutable value; copied freely.
#[derive(Clone, Copy, Debug, PartialEq, Eq, Structural)]
pub struct Point {
    pub x: i32,
    pub y: i32,
}

impl Point {
    pub fn new(x: i32, y: i32) -> (p: Point)
        ensures
            p == (Point { x, y }),
    {
        Point { x, y }
    }

    /// A uniformly random coordinate with `x` drawn from `[0, width]` and
    /// `y` from `[0, height]`, both bounds inclusive.
    pub fn random(width: i32, height: i32) -> (p: Point)
        requires
            0 <= width,
            0 <= height,
        ensures
            0 <= p.x <= width,
            0 <= p.y <= height,
    {
        let x = random_in_range(0, width);
        let y = random_in_range(0, height);
        Point::new(x, y)
    }
}

impl Drawable for Point {
    open spec fn pixel_run(&self, c: Color) -> Seq<Pix> {
        seq![pix(self.x as int, self.y as int, c)]
    }

    open spec fn fits(&self) -> bool {
        true
    }

    fn draw<D: Displayable>(&self, img: &mut D) {
        let c = self.color();
        img.display(self.x, self.y, c);
        proof {
            assert(img.pixels() =~= old(img).pixels() + self.pixel_run(c));
        }
    }
}

} // verus!
