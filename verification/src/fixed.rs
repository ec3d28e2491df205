//! Fixed-point units shared by the whole pipeline.

use vstd::prelude::*;

verus! {

/// One whole, in parts per million. Progress values, shaping outputs and the
/// smoothing coefficient are fractions of this unit.
pub const UNIT: u32 = 1_000_000;

/// Upper end of a joint's mechanical range, in millidegrees (180 degrees).
pub const ANGLE_MAX: u32 = 180_000;

/// Millidegrees in one degree.
pub const MILLIS_PER_DEGREE: u32 = 1_000;

/// A fraction in parts per million lies in the closed interval from 0 to 1.
pub open spec fn is_fraction(ppm: int) -> bool {
    0 <= ppm <= UNIT
}

/// `share` parts per million of `amount`, rounded down.
pub open spec fn scaled(amount: int, share: int) -> int {
    amount * share / (UNIT as int)
}

/// A share of a non-negative amount is non-negative and never exceeds the
/// amount; no share is nothing, the whole share is the amount, and any share
/// short of the whole leaves something of a positive amount out.
pub proof fn lemma_scaled_bounds(amount: int, share: int)
    requires
        0 <= amount,
        is_fraction(share),
    ensures
        0 <= scaled(amount, share) <= amount,
        share == 0 ==> scaled(amount, share) == 0,
        share == UNIT ==> scaled(amount, share) == amount,
        amount > 0 && share < UNIT ==> scaled(amount, share) < amount,
{
    let unit = UNIT as int;
    assert(0 <= amount * share <= amount * unit) by (nonlinear_arith)
        requires
            0 <= amount,
            0 <= share <= unit,
    ;
    if amount > 0 && share < unit {
        assert(amount * share <= amount * unit - amount) by (nonlinear_arith)
            requires
                0 < amount,
                0 <= share < unit,
        ;
    }
    if share == 0 {
        assert(amount * share == 0) by (nonlinear_arith)
            requires
                share == 0,
        ;
    }
    if share == unit {
        assert(amount * share == amount * unit) by (nonlinear_arith)
            requires
                share == unit,
        ;
    }
}

/// A larger amount, or a larger share, gives a share at least as large.
pub proof fn lemma_scaled_monotone(a: int, b: int, share_a: int, share_b: int)
    requires
        0 <= a <= b,
        0 <= share_a <= share_b,
    ensures
        scaled(a, share_a) <= scaled(b, share_b),
{
    assert(a * share_a <= b * share_b) by (nonlinear_arith)
        requires
            0 <= a <= b,
            0 <= share_a <= share_b,
    ;
}

/// The integer nearest to `num / den`, with halves rounded up: half the
/// denominator is added before the division rounds down. For the non-negative
/// quotients of this crate that is rounding half away from zero.
pub open spec fn rounded(num: int, den: int) -> int {
    (num + den / 2) / den
}

/// `rounded` picks the nearest integer: the quotient lies within one half of
/// it, and an exact half goes to the larger neighbour.
pub proof fn lemma_rounded_is_nearest(num: int, den: int)
    requires
        den > 0,
    ensures
        (2 * rounded(num, den) - 1) * den <= 2 * num < (2 * rounded(num, den) + 1) * den,
{
    let half = den / 2;
    let r = rounded(num, den);
    let whole = r * den;
    vstd::arithmetic::div_mod::lemma_fundamental_div_mod(num + half, den);
    vstd::arithmetic::div_mod::lemma_mod_bound(num + half, den);
    assert(den * r == whole) by (nonlinear_arith)
        requires
            whole == r * den,
    ;
    assert(whole <= num + half < whole + den);
    assert(den == 2 * half || den == 2 * half + 1);
    assert((2 * r - 1) * den == 2 * whole - den) by (nonlinear_arith)
        requires
            whole == r * den,
    ;
    assert((2 * r + 1) * den == 2 * whole + den) by (nonlinear_arith)
        requires
            whole == r * den,
    ;
}

/// Rounding keeps order.
pub proof fn lemma_rounded_monotone(a: int, b: int, den: int)
    requires
        den > 0,
        a <= b,
    ensures
        rounded(a, den) <= rounded(b, den),
{
    vstd::arithmetic::div_mod::lemma_div_is_ordered(a + den / 2, b + den / 2, den);
}

/// Computes `share` parts per million of `amount`, rounded down.
pub fn scale(amount: u32, share: u32) -> (part: u32)
    requires
        share <= UNIT,
    ensures
        part == scaled(amount as int, share as int),
        part <= amount,
{
    proof {
        lemma_scaled_bounds(amount as int, share as int);
        assert(amount * share <= 0xFFFF_FFFF * 1_000_000) by (nonlinear_arith)
            requires
                0 <= amount <= 0xFFFF_FFFF,
                0 <= share <= 1_000_000,
        ;
    }
    let product: u64 = (amount as u64) * (share as u64);
    let part: u64 = product / (UNIT as u64);
    part as u32
}

} // verus!
