use crate::rng::random_byte;
use vstd::prelude::*;

verus! {

/// A fully opaque color: three 8-bit channels.
#[derive(Clone, Copy, Debug, PartialEq, Eq, Structural)]
pub struct Color {
    pub red: u8,
    pub green: u8,
    pub blue: u8,
}

/// A color whose three channels are drawn independently at random; the
/// default stroke color of a shape. Drawn afresh on every call.
pub fn random_color() -> Color {
    Color { red: random_byte(), green: random_byte(), blue: random_byte() }
}

} // verus!
