use crate::color::Color;
use vstd::prelude::*;

verus! {

/// One pixel write, at the mathematical level: the coordinate it lands on
/// and the color it carries.
pub ghost struct Pix {
    pub x: int,
    pub y: int,
    pub color: Color,
}

/// The pixel write at `(x, y)` in color `color`.
pub open spec fn pix(x: int, y: int, color: Color) -> Pix {
    Pix { x, y, color }
}

/// One recorded pixel write, as [`PixelBuffer`] stores it.
#[derive(Clone, Copy, Debug, PartialEq, Eq, Structural)]
pub struct Pixel {
    pub x: i32,
    pub y: i32,
    pub color: Color,
}

impl View for Pixel {
    type V = Pix;

    open spec fn view(&self) -> Pix {
        pix(self.x as int, self.y as int, self.color)
    }
}

/// A pixel sink: anything that accepts pixel writes. `pixels()` is the
/// history of the writes it has accepted, oldest first. The sink, not the
/// rasterizer, is in charge of clipping or ignoring out-of-bounds writes.
pub trait Displayable {
    spec fn pixels(&self) -> Seq<Pix>;

    /// Accept one pixel write.
    fn display(&mut self, x: i32, y: i32, color: Color)
        ensures
            final(self).pixels() == old(self).pixels().push(pix(x as int, y as int, color)),
    ;
}

/// An in-memory sink that records every write it accepts, in order.
pub struct PixelBuffer {
    pub pixels: Vec<Pixel>,
}

impl PixelBuffer {
    /// An empty buffer: no writes accepted yet.
    pub fn new() -> (b: PixelBuffer)
        ensures
            b.pixels() == Seq::<Pix>::empty(),
    {
        let b = PixelBuffer { pixels: Vec::new() };
        proof {
            assert(b.pixels() =~= Seq::<Pix>::empty());
        }
        b
    }
}

impl Displayable for PixelBuffer {
    open spec fn pixels(&self) -> Seq<Pix> {
        self.pixels@.map(|_k: int, p: Pixel| p@)
    }

    fn display(&mut self, x: i32, y: i32, color: Color) {
        self.pixels.push(Pixel { x, y, color });
        proof {
            assert(self.pixels() =~= old(self).pixels().push(pix(x as int, y as int, color)));
        }
    }
}

} // verus!
