//! Power-law curves `t^p` with a fractional exponent `p` below one.
//!
//! The exponent is a fraction `num / den`. For progress `x` parts per million
//! the curve's value `y`, rounded down to parts per million, is the largest
//! integer with `y^den <= x^num * UNIT^(den - num)`: an integer root, found by
//! bisection and stated without any approximation.

use vstd::prelude::*;
use vstd::arithmetic::power::{pow, lemma_pow0, lemma0_pow, lemma_pow_adds, lemma_pow_positive};
use crate::fixed::UNIT;

verus! {

/// Largest denominator of an exponent: the sixth power of `UNIT` is the
/// largest that fits 128 bits.
pub const MAX_ROOT: u8 = 6;

/// The sixth power of `UNIT`.
pub const UNIT_POW6: u128 = 1_000_000_000_000_000_000_000_000_000_000_000_000;

/// The exponent of a power-law curve: the fraction `num / den`, strictly
/// between 0 and 1.
#[derive(Clone, Copy, Debug, PartialEq, Eq)]
pub struct Exponent {
    pub num: u8,
    pub den: u8,
}

impl Exponent {
    /// The fraction lies strictly between 0 and 1 and its denominator is
    /// within reach of 128-bit arithmetic.
    pub open spec fn wf(self) -> bool {
        0 < self.num < self.den <= MAX_ROOT
    }

    /// Makes an exponent, or `None` when the fraction is not strictly between
    /// 0 and 1 or its denominator exceeds `MAX_ROOT`.
    pub fn new(num: u8, den: u8) -> (exponent: Option<Exponent>)
        ensures
            0 < num < den <= MAX_ROOT ==> exponent == Some(Exponent { num, den }),
            !(0 < num < den <= MAX_ROOT) ==> exponent.is_none(),
    {
        if 0 < num && num < den && den <= MAX_ROOT {
            Some(Exponent { num, den })
        } else {
            None
        }
    }
}

/// `y` is the `degree`-th root of `target`, rounded down.
pub open spec fn is_root_floor(y: int, target: int, degree: nat) -> bool {
    0 <= y && pow(y, degree) <= target < pow(y + 1, degree)
}

/// The number whose `den`-th root, in parts per million, is
/// `(x / UNIT)^(num / den)`.
pub open spec fn radicand(x: int, exponent: Exponent) -> int {
    pow(x, exponent.num as nat) * pow(UNIT as int, (exponent.den - exponent.num) as nat)
}

/// The power-law curve at `x` parts per million, in parts per million and
/// rounded down.
pub open spec fn power_law(x: int, exponent: Exponent) -> int {
    choose|y: int| is_root_floor(y, radicand(x, exponent), exponent.den as nat)
}

/// Powers keep the order of non-negative bases, strictly so for a positive
/// exponent.
pub proof fn lemma_pow_base_monotone(a: int, b: int, n: nat)
    requires
        0 <= a <= b,
    ensures
        0 <= pow(a, n) <= pow(b, n),
        a < b && n > 0 ==> pow(a, n) < pow(b, n),
    decreases n,
{
    reveal(pow);
    if n > 0 {
        lemma_pow_base_monotone(a, b, (n - 1) as nat);
        let pa = pow(a, (n - 1) as nat);
        let pb = pow(b, (n - 1) as nat);
        assert(0 <= a * pa <= b * pb) by (nonlinear_arith)
            requires
                0 <= a <= b,
                0 <= pa <= pb,
        ;
        if a < b {
            assert(pb > 0) by {
                lemma_pow_positive(b, (n - 1) as nat);
            }
            assert(a * pa < b * pb) by (nonlinear_arith)
                requires
                    0 <= a < b,
                    0 <= pa <= pb,
                    pb > 0,
            ;
        }
    }
}

/// A positive power of a positive integer is at least the integer.
proof fn lemma_pow_at_least_base(b: int, n: nat)
    requires
        b >= 1,
        n >= 1,
    ensures
        pow(b, n) >= b,
    decreases n,
{
    reveal(pow);
    if n > 1 {
        lemma_pow_at_least_base(b, (n - 1) as nat);
        let rest = pow(b, (n - 1) as nat);
        assert(b * rest >= b) by (nonlinear_arith)
            requires
                b >= 1,
                rest >= b,
        ;
    } else {
        lemma_pow0(b);
    }
}

/// The largest `y` up to `bound` whose power does not exceed `target`.
spec fn root_below(target: int, degree: nat, bound: nat) -> int
    decreases bound,
{
    if bound == 0 {
        0
    } else if pow(bound as int, degree) <= target {
        bound as int
    } else {
        root_below(target, degree, (bound - 1) as nat)
    }
}

proof fn lemma_root_below(target: int, degree: nat, bound: nat)
    requires
        target >= 0,
        degree >= 1,
        target < pow((bound + 1) as int, degree),
    ensures
        is_root_floor(root_below(target, degree, bound), target, degree),
    decreases bound,
{
    if bound == 0 {
        lemma0_pow(degree);
    } else if pow(bound as int, degree) <= target {
    } else {
        lemma_root_below(target, degree, (bound - 1) as nat);
    }
}

/// Every non-negative number has exactly one rounded-down root of each
/// positive degree.
pub proof fn lemma_root_floor_unique(y: int, z: int, target: int, degree: nat)
    requires
        degree >= 1,
        is_root_floor(y, target, degree),
        is_root_floor(z, target, degree),
    ensures
        y == z,
{
    if y < z {
        lemma_pow_base_monotone(y + 1, z, degree);
    }
    if z < y {
        lemma_pow_base_monotone(z + 1, y, degree);
    }
}

/// The power-law curve is the rounded-down root that its definition asks for.
pub proof fn lemma_power_law_is_root(x: int, exponent: Exponent)
    requires
        0 <= x,
        exponent.wf(),
    ensures
        is_root_floor(power_law(x, exponent), radicand(x, exponent), exponent.den as nat),
{
    let target = radicand(x, exponent);
    let degree = exponent.den as nat;
    lemma_pow_base_monotone(0, x, exponent.num as nat);
    lemma_pow_positive(UNIT as int, (exponent.den - exponent.num) as nat);
    assert(target >= 0) by (nonlinear_arith)
        requires
            target == pow(x, exponent.num as nat) * pow(
                UNIT as int,
                (exponent.den - exponent.num) as nat,
            ),
            pow(x, exponent.num as nat) >= 0,
            pow(UNIT as int, (exponent.den - exponent.num) as nat) > 0,
    ;
    lemma_pow_at_least_base(target + 1, degree);
    lemma_root_below(target, degree, target as nat);
    assert(is_root_floor(root_below(target, degree, target as nat), target, degree));
}

/// Within the unit interval the radicand is at most the `den`-th power of the
/// unit and at least the `den`-th power of `x`, and it grows with `x`.
pub proof fn lemma_radicand(lower: int, upper: int, exponent: Exponent)
    requires
        0 <= lower <= upper <= UNIT,
        exponent.wf(),
    ensures
        0 <= radicand(lower, exponent) <= radicand(upper, exponent),
        pow(upper, exponent.den as nat) <= radicand(upper, exponent) <= pow(
            UNIT as int,
            exponent.den as nat,
        ),
        radicand(0, exponent) == 0,
        radicand(UNIT as int, exponent) == pow(UNIT as int, exponent.den as nat),
{
    let unit = UNIT as int;
    let num = exponent.num as nat;
    let rest = (exponent.den - exponent.num) as nat;
    let scale = pow(unit, rest);
    lemma_pow_positive(unit, rest);
    lemma_pow_base_monotone(lower, upper, num);
    lemma_pow_base_monotone(upper, unit, num);
    lemma_pow_base_monotone(upper, unit, rest);
    lemma_pow_adds(upper, num, rest);
    lemma_pow_adds(unit, num, rest);
    lemma0_pow(num);
    let pl = pow(lower, num);
    let pu = pow(upper, num);
    let pn = pow(unit, num);
    let pr = pow(upper, rest);
    assert(0 <= pl * scale <= pu * scale <= pn * scale) by (nonlinear_arith)
        requires
            0 <= pl <= pu <= pn,
            scale > 0,
    ;
    assert(pu * pr <= pu * scale) by (nonlinear_arith)
        requires
            0 <= pu,
            0 <= pr <= scale,
    ;
    assert(0 * scale == 0);
}

/// The power-law curve starts at 0, ends at one whole, never decreases, and
/// runs on or above the diagonal: it is ahead of linear progress everywhere.
pub proof fn lemma_power_law_monotone(lower: int, upper: int, exponent: Exponent)
    requires
        0 <= lower <= upper <= UNIT,
        exponent.wf(),
    ensures
        lower <= power_law(lower, exponent) <= power_law(upper, exponent) <= UNIT,
        power_law(0, exponent) == 0,
        power_law(UNIT as int, exponent) == UNIT,
{
    let unit = UNIT as int;
    let degree = exponent.den as nat;
    let yl = power_law(lower, exponent);
    let yu = power_law(upper, exponent);
    lemma_power_law_is_root(lower, exponent);
    lemma_power_law_is_root(upper, exponent);
    lemma_power_law_is_root(0, exponent);
    lemma_power_law_is_root(unit, exponent);
    lemma_radicand(lower, upper, exponent);
    lemma_radicand(lower, lower, exponent);
    lemma_radicand(0, unit, exponent);
    // Order of the two roots.
    if yu < yl {
        lemma_pow_base_monotone(yu + 1, yl, degree);
    }
    // The curve does not exceed one whole.
    if yu > unit {
        lemma_pow_base_monotone(unit + 1, yu, degree);
        lemma_pow_base_monotone(unit, unit + 1, degree);
    }
    // The curve is on or above the diagonal.
    if yl < lower {
        lemma_pow_base_monotone(yl + 1, lower, degree);
    }
    // The two ends.
    lemma0_pow(degree);
    lemma_pow_base_monotone(0, 1, degree);
    assert(is_root_floor(0, radicand(0, exponent), degree)) by {
        vstd::arithmetic::power::lemma1_pow(degree);
    }
    lemma_root_floor_unique(power_law(0, exponent), 0, radicand(0, exponent), degree);
    lemma_pow_base_monotone(unit, unit + 1, degree);
    assert(is_root_floor(unit, radicand(unit, exponent), degree));
    lemma_root_floor_unique(power_law(unit, exponent), unit, radicand(unit, exponent), degree);
}

/// The powers of `UNIT` up to the sixth fit 128 bits.
proof fn lemma_unit_pow_bound(n: nat)
    requires
        n <= MAX_ROOT,
    ensures
        0 < pow(UNIT as int, n) <= UNIT_POW6,
{
    let unit = UNIT as int;
    reveal(pow);
    assert(pow(unit, 0) == 1);
    assert(pow(unit, 1) == 1_000_000);
    assert(pow(unit, 2) == 1_000_000_000_000);
    assert(pow(unit, 3) == 1_000_000_000_000_000_000);
    assert(pow(unit, 4) == 1_000_000_000_000_000_000_000_000);
    assert(pow(unit, 5) == 1_000_000_000_000_000_000_000_000_000_000);
    assert(pow(unit, 6) == 1_000_000_000_000_000_000_000_000_000_000_000_000);
}

/// Raises a base within the unit interval to a small power.
fn power(base: u128, exponent: u8) -> (result: u128)
    requires
        base <= UNIT,
        exponent <= MAX_ROOT,
    ensures
        result == pow(base as int, exponent as nat),
{
    let mut result: u128 = 1;
    let mut done: u8 = 0;
    proof {
        lemma_pow0(base as int);
    }
    while done < exponent
        invariant
            done <= exponent <= MAX_ROOT,
            base <= UNIT,
            result == pow(base as int, done as nat),
        decreases exponent - done,
    {
        proof {
            reveal(pow);
            lemma_pow_base_monotone(base as int, UNIT as int, (done + 1) as nat);
            lemma_unit_pow_bound((done + 1) as nat);
            assert(pow(base as int, (done + 1) as nat) == base * pow(base as int, done as nat));
            assert(base * result == result * base) by (nonlinear_arith);
        }
        result = result * base;
        done = done + 1;
    }
    result
}

/// Evaluates the power-law curve at `t` parts per million.
pub fn power_law_floor(t: u32, exponent: Exponent) -> (s: u32)
    requires
        t <= UNIT,
        exponent.wf(),
    ensures
        s == power_law(t as int, exponent),
        t <= s <= UNIT,
        t == 0 ==> s == 0,
        t == UNIT ==> s == UNIT,
{
    let degree: u8 = exponent.den;
    let ghost target_spec = radicand(t as int, exponent);
    proof {
        lemma_radicand(t as int, t as int, exponent);
        lemma_unit_pow_bound(degree as nat);
        lemma_unit_pow_bound((exponent.den - exponent.num) as nat);
        lemma_pow_base_monotone(0, t as int, exponent.num as nat);
    }
    let head: u128 = power(t as u128, exponent.num);
    let tail: u128 = power(UNIT as u128, exponent.den - exponent.num);
    let target: u128 = head * tail;
    let mut low: u32 = 0;
    let mut high: u32 = UNIT + 1;
    proof {
        lemma0_pow(degree as nat);
        lemma_pow_base_monotone(UNIT as int, UNIT + 1, degree as nat);
    }
    while high - low > 1
        invariant
            0 <= low < high <= UNIT + 1,
            degree == exponent.den,
            exponent.wf(),
            target == target_spec,
            pow(low as int, degree as nat) <= target,
            target < pow(high as int, degree as nat),
        decreases high - low,
    {
        let middle: u32 = low + (high - low) / 2;
        let raised: u128 = power(middle as u128, degree);
        if raised <= target {
            low = middle;
        } else {
            high = middle;
        }
    }
    proof {
        lemma_power_law_is_root(t as int, exponent);
        assert(is_root_floor(low as int, target_spec, degree as nat));
        lemma_root_floor_unique(
            low as int,
            power_law(t as int, exponent),
            target_spec,
            degree as nat,
        );
        lemma_power_law_monotone(t as int, t as int, exponent);
    }
    low
}

} // verus!
