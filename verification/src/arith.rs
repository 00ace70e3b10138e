use vstd::arithmetic::div_mod::{
    lemma_basic_div, lemma_div_is_ordered, lemma_div_multiples_vanish_fancy,
    lemma_div_nonincreasing, lemma_div_pos_is_pos,
};
use vstd::arithmetic::mul::lemma_mul_upper_bound;
use vstd::prelude::*;

verus! {

/// `num / den` rounded to the nearest integer, halves away from zero.
/// Meaningful for `den > 0`.
pub open spec fn round_to_nearest(num: int, den: int) -> int {
    if num >= 0 {
        (2 * num + den) / (2 * den)
    } else {
        -((2 * (-num) + den) / (2 * den))
    }
}

/// The sign of `v`: `-1`, `0` or `1`.
pub open spec fn sgn(v: int) -> int {
    if v > 0 {
        1
    } else if v < 0 {
        -1
    } else {
        0
    }
}

/// Rounding a nonnegative quotient bounded by whole multiples of the
/// denominator stays between those multiples.
proof fn lemma_round_between_nonneg(num: int, den: int, lo: int, hi: int)
    requires
        0 < den,
        0 <= num,
        lo * den <= num <= hi * den,
    ensures
        lo <= round_to_nearest(num, den) <= hi,
{
    lemma_div_pos_is_pos(2 * num + den, 2 * den);
    assert(0 <= hi) by (nonlinear_arith)
        requires 0 < den && 0 <= num && num <= hi * den;
    assert(2 * num + den <= (2 * den) * hi + den) by (nonlinear_arith)
        requires num <= hi * den && 0 < den;
    lemma_div_is_ordered(2 * num + den, (2 * den) * hi + den, 2 * den);
    lemma_div_multiples_vanish_fancy(hi, den, 2 * den);
    if lo >= 1 {
        assert((2 * den) * lo + den <= 2 * num + den) by (nonlinear_arith)
            requires lo * den <= num && 0 < den;
        lemma_div_is_ordered((2 * den) * lo + den, 2 * num + den, 2 * den);
        lemma_div_multiples_vanish_fancy(lo, den, 2 * den);
    }
}

/// A quotient bounded by whole multiples of the denominator rounds to a
/// value between those multiples.
pub proof fn lemma_round_between(num: int, den: int, lo: int, hi: int)
    requires
        0 < den,
        lo * den <= num <= hi * den,
    ensures
        lo <= round_to_nearest(num, den) <= hi,
{
    if num >= 0 {
        lemma_round_between_nonneg(num, den, lo, hi);
    } else {
        assert((-hi) * den <= -num <= (-lo) * den) by (nonlinear_arith)
            requires lo * den <= num <= hi * den;
        lemma_round_between_nonneg(-num, den, -hi, -lo);
        lemma_round_negated(-num, den);
    }
}

/// Rounding is an odd function of the numerator.
pub proof fn lemma_round_negated(num: int, den: int)
    requires
        0 < den,
    ensures
        round_to_nearest(-num, den) == -round_to_nearest(num, den),
{
    if num == 0 {
        lemma_basic_div(den, 2 * den);
    }
}

/// An exact multiple of the denominator rounds to itself.
pub proof fn lemma_round_exact(i: int, den: int)
    requires
        0 < den,
    ensures
        round_to_nearest(i * den, den) == i,
{
    if i >= 0 {
        assert(i * den >= 0) by (nonlinear_arith)
            requires 0 <= i && 0 < den;
        assert(2 * (i * den) + den == (2 * den) * i + den) by (nonlinear_arith);
        lemma_div_multiples_vanish_fancy(i, den, 2 * den);
    } else {
        assert(i * den < 0) by (nonlinear_arith)
            requires i < 0 && 0 < den;
        assert(2 * (-(i * den)) + den == (2 * den) * (-i) + den) by (nonlinear_arith);
        lemma_div_multiples_vanish_fancy(-i, den, 2 * den);
    }
}

/// `num / den` rounded to the nearest integer, halves away from zero.
pub(crate) fn round_div(num: i128, den: i128) -> (r: i128)
    requires
        0 < den <= 0x1_0000_0000_0000_0000,
        -0x1_0000_0000_0000_0000_0000_0000 <= num <= 0x1_0000_0000_0000_0000_0000_0000,
    ensures
        r == round_to_nearest(num as int, den as int),
{
    let neg = num < 0;
    let na: u128 = if neg {
        (-num) as u128
    } else {
        num as u128
    };
    let d: u128 = den as u128;
    let q: u128 = (2 * na + d) / (2 * d);
    proof {
        lemma_div_nonincreasing(2 * na + d, 2 * d);
    }
    let qi: i128 = q as i128;
    if neg {
        -qi
    } else {
        qi
    }
}

/// The integer square root: the greatest `r` with `r * r <= n`.
pub fn isqrt(n: u64) -> (r: u64)
    ensures
        r * r <= n < (r + 1) * (r + 1),
{
    let mut lo: u64 = 0;
    let mut hi: u64 = 0x1_0000_0000;
    while lo + 1 < hi
        invariant
            lo < hi <= 0x1_0000_0000,
            lo * lo <= n,
            n < hi * hi,
        decreases hi - lo,
    {
        let mid: u64 = lo + (hi - lo) / 2;
        proof {
            lemma_mul_upper_bound(mid as int, 0xFFFF_FFFF, mid as int, 0xFFFF_FFFF);
        }
        if mid * mid <= n {
            lo = mid;
        } else {
            hi = mid;
        }
    }
    lo
}

} // verus!
