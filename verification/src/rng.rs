use rand::Rng;
use vstd::prelude::*;

verus! {

/// Relies on rand's `Rng::random_range` over the inclusive range `lo..=hi`:
/// it panics on an empty range and otherwise returns a uniformly drawn value
/// lying inside the range.
#[verifier::external_body]
pub(crate) fn random_in_range(lo: i32, hi: i32) -> (r: i32)
    requires
        lo <= hi,
    ensures
        lo <= r <= hi,
{
    rand::rng().random_range(lo..=hi)
}

/// Relies on rand's `Rng::random` at type `u8`: a uniformly drawn byte.
/// Every byte value is a possible outcome, so nothing is promised of it.
#[verifier::external_body]
pub(crate) fn random_byte() -> u8 {
    rand::rng().random()
}

} // verus!
