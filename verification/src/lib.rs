//! Rasterization of basic geometric primitives onto a pixel sink.
//!
//! The library computes which pixels a shape outline covers: straight
//! segments by incremental dominant-axis stepping, circle outlines by the
//! midpoint decision rule with eight-way symmetry. Every shape satisfies the
//! [`Drawable`] contract, which pins down the exact pixel run a `draw` call
//! appends to a [`Displayable`] sink.

mod arith;
mod circle;
mod color;
mod drawable;
mod line;
mod point;
mod rectangle;
mod rng;
mod sink;
mod triangle;

pub use arith::{isqrt, round_to_nearest, sgn};
pub use circle::{
    circle_pixels, lemma_circle_symmetry, lemma_small_circle_empty, octant_pixels, octet,
    run_marks, Circle,
};
pub use color::{random_color, Color};
pub use drawable::Drawable;
pub use line::{lemma_canonical_line, lemma_degenerate_line, line_pixels, steps_of, Line};
pub use point::Point;
pub use rectangle::Rectangle;
pub use sink::{pix, Displayable, Pix, Pixel, PixelBuffer};
pub use triangle::Triangle;
