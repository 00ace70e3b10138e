use crate::color::{random_color, Color};
use crate::sink::{Displayable, Pix};
use vstd::prelude::*;

verus! {

/// The common contract of every shape.
///
/// Drawing appends the shape's pixel run, in one color, to whatever the sink
/// already holds. Which color is used is the shape's own business (by
/// default a random one per call), but the run of coordinates is pinned down
/// exactly by `pixel_run`.
pub trait Drawable {
    /// The exact run of pixels the shape emits when drawn in color `c`.
    spec fn pixel_run(&self, c: Color) -> Seq<Pix>;

    /// Machine-size bound: every coordinate the shape would emit fits in an
    /// `i32`. Shapes whose runs always fit define this as `true`.
    spec fn fits(&self) -> bool;

    /// Rasterize the shape into `img`.
    fn draw<D: Displayable>(&self, img: &mut D)
        requires
            self.fits(),
        ensures
            exists|c: Color| final(img).pixels() == old(img).pixels() + #[trigger] self.pixel_run(c),
    ;

    /// The stroke color for one `draw` call: a fresh random color.
    fn color(&self) -> Color {
        random_color()
    }
}

} // verus!
