//! Shaping functions: curves that remap normalized progress through a phase.
//!
//! Progress and shaped output are fractions in parts per million.

use vstd::prelude::*;
use crate::fixed::{UNIT, is_fraction};
use crate::power::{Exponent, power_law, power_law_floor, lemma_power_law_monotone};
use crate::quintic::{
    min_jerk_numerator, lemma_min_jerk_numerator_split, lemma_min_jerk_numerator_monotone,
    lemma_min_jerk_numerator_symmetric, lemma_min_jerk_numerator_ends,
    lemma_min_jerk_numerator_flat_ends,
};

verus! {

/// The fourth power of `UNIT`.
pub const UNIT_POW4: u128 = 1_000_000_000_000_000_000_000_000;

/// The minimum-jerk curve at `x` parts per million, in parts per million and
/// rounded down.
pub open spec fn min_jerk(x: int) -> int {
    min_jerk_numerator(x, 1_000_000) / (UNIT_POW4 as int)
}

/// The fifth power of `UNIT` is `UNIT` times `UNIT_POW4`.
proof fn lemma_unit_powers()
    ensures
        (UNIT as int) * (UNIT as int) * (UNIT as int) * (UNIT as int) * (UNIT as int) == UNIT
            * UNIT_POW4,
        (UNIT as int) * (UNIT as int) * (UNIT as int) * (UNIT as int) == UNIT_POW4,
{
    let u = UNIT as int;
    assert(u * u == 1_000_000_000_000);
    assert(u * u * u == 1_000_000_000_000_000_000);
    assert(u * u * u * u == 1_000_000_000_000_000_000_000_000);
    assert(u * u * u * u * u == 1_000_000_000_000_000_000_000_000_000_000);
}

/// The minimum-jerk curve starts at 0, ends at 1 and passes through one half
/// at the midpoint.
pub proof fn lemma_min_jerk_landmarks()
    ensures
        min_jerk(0) == 0,
        min_jerk(UNIT as int) == UNIT,
        min_jerk(UNIT as int / 2) == UNIT / 2,
{
    let u = UNIT as int;
    lemma_min_jerk_numerator_ends(u);
    lemma_unit_powers();
    lemma_min_jerk_numerator_symmetric(u / 2, u);
    assert(u - u / 2 == u / 2);
    assert(2 * min_jerk_numerator(u / 2, u) == u * UNIT_POW4);
}

/// The minimum-jerk curve never decreases and stays within the unit interval.
pub proof fn lemma_min_jerk_monotone(lower: int, upper: int)
    requires
        0 <= lower <= upper <= UNIT,
    ensures
        0 <= min_jerk(lower) <= min_jerk(upper) <= UNIT,
{
    let u = UNIT as int;
    lemma_min_jerk_numerator_ends(u);
    lemma_unit_powers();
    lemma_min_jerk_numerator_monotone(0, lower, u);
    lemma_min_jerk_numerator_monotone(lower, upper, u);
    lemma_min_jerk_numerator_monotone(upper, u, u);
}

/// Point symmetry after rounding: the curve's values at `x` and at `1 - x` add
/// up to one whole, less at most the one unit lost to rounding down twice.
pub proof fn lemma_min_jerk_symmetric(x: int)
    requires
        is_fraction(x),
    ensures
        UNIT - 1 <= min_jerk(x) + min_jerk(UNIT - x) <= UNIT,
{
    let u = UNIT as int;
    lemma_min_jerk_numerator_symmetric(x, u);
    lemma_unit_powers();
}

/// The minimum-jerk curve is flat at both ends: it starts no faster than ten
/// times the cube of the progress and arrives no faster than ten times the
/// cube of what is left, as a curve with zero velocity and acceleration at its
/// ends does.
pub proof fn lemma_min_jerk_flat_ends(x: int)
    requires
        is_fraction(x),
    ensures
        min_jerk(x) * (UNIT * UNIT) <= 10 * (x * x * x),
        (UNIT - min_jerk(x) - 1) * (UNIT * UNIT) < 10 * ((UNIT - x) * (UNIT - x) * (UNIT - x)),
{
    let u = UNIT as int;
    let n = min_jerk_numerator(x, u);
    lemma_min_jerk_numerator_flat_ends(x, u);
    lemma_unit_powers();
    let cube = x * x * x;
    let rest = (u - x) * (u - x) * (u - x);
    assert(10 * cube * (u * u) == 10_000_000_000_000 * cube) by (nonlinear_arith)
        requires
            u == 1_000_000,
    ;
    assert(10 * rest * (u * u) == 10_000_000_000_000 * rest) by (nonlinear_arith)
        requires
            u == 1_000_000,
    ;
    assert(u * u == 1_000_000_000_000);
}

/// Evaluates the minimum-jerk curve at `t` parts per million.
pub fn minimum_jerk(t: u32) -> (s: u32)
    requires
        t <= UNIT,
    ensures
        s == min_jerk(t as int),
        s <= UNIT,
        t == 0 ==> s == 0,
        t == UNIT / 2 ==> s == UNIT / 2,
        t == UNIT ==> s == UNIT,
{
    let x: u128 = t as u128;
    let rest: u128 = (UNIT - t) as u128;
    proof {
        lemma_min_jerk_numerator_split(x as int, UNIT as int);
        lemma_min_jerk_monotone(t as int, UNIT as int);
        lemma_min_jerk_landmarks();
        assert(x * x <= 1_000_000 * 1_000_000 && x * rest <= 1_000_000 * 1_000_000 && rest * rest
            <= 1_000_000 * 1_000_000) by (nonlinear_arith)
            requires
                0 <= x <= 1_000_000,
                0 <= rest <= 1_000_000,
        ;
        assert(x * x * x <= 1_000_000_000_000 * 1_000_000) by (nonlinear_arith)
            requires
                0 <= x <= 1_000_000,
                0 <= x * x <= 1_000_000_000_000,
        ;
        assert((x * x * x) * (x * x + 5 * (x * rest) + 10 * (rest * rest))
            <= 1_000_000_000_000_000_000 * 16_000_000_000_000) by (nonlinear_arith)
            requires
                0 <= x * x * x <= 1_000_000_000_000_000_000,
                0 <= x * x + 5 * (x * rest) + 10 * (rest * rest) <= 16_000_000_000_000,
        ;
        assert(5 * x * rest == 5 * (x * rest)) by (nonlinear_arith);
    }
    let cube: u128 = x * x * x;
    let form: u128 = x * x + 5 * (x * rest) + 10 * (rest * rest);
    let numerator: u128 = cube * form;
    (numerator / UNIT_POW4) as u32
}

/// Progress through a phase at tick `tick` of `total`, in parts per million and
/// rounded down.
pub open spec fn tick_progress(tick: int, total: int) -> int {
    tick * UNIT / total
}

/// Progress runs from 0 at the first tick to one whole at the last, and never
/// decreases from one tick to the next.
pub proof fn lemma_tick_progress(earlier: int, later: int, total: int)
    requires
        0 <= earlier <= later <= total,
        0 < total,
    ensures
        0 <= tick_progress(earlier, total) <= tick_progress(later, total) <= UNIT,
        tick_progress(0, total) == 0,
        tick_progress(total, total) == UNIT,
{
    let u = UNIT as int;
    assert(0 <= earlier * u <= later * u <= total * u) by (nonlinear_arith)
        requires
            0 <= earlier <= later <= total,
            u > 0,
    ;
    vstd::arithmetic::div_mod::lemma_div_is_ordered(0, earlier * u, total);
    vstd::arithmetic::div_mod::lemma_div_is_ordered(earlier * u, later * u, total);
    vstd::arithmetic::div_mod::lemma_div_is_ordered(later * u, total * u, total);
    vstd::arithmetic::div_mod::lemma_div_by_multiple(u, total);
    assert(total * u == u * total) by (nonlinear_arith);
    assert(0 * u == 0);
}

/// Computes the progress through a phase at tick `tick` of `total`.
pub fn progress(tick: u32, total: u32) -> (t: u32)
    requires
        0 < total,
        tick <= total,
    ensures
        t == tick_progress(tick as int, total as int),
        t <= UNIT,
{
    proof {
        lemma_tick_progress(tick as int, tick as int, total as int);
        assert(tick * UNIT <= 0xFFFF_FFFF * 1_000_000) by (nonlinear_arith)
            requires
                0 <= tick <= 0xFFFF_FFFF,
                UNIT == 1_000_000,
        ;
    }
    ((tick as u64) * (UNIT as u64) / (total as u64)) as u32
}

/// The curve that shapes progress through a phase.
#[derive(Clone, Copy, Debug, PartialEq, Eq)]
pub enum Shaping {
    /// Progress is passed through unchanged: constant speed.
    Linear,
    /// The minimum-jerk quintic: zero velocity and acceleration at both ends.
    MinimumJerk,
    /// Power-law ease-in `t^p` with `p` below one: a fast start.
    EaseIn(Exponent),
    /// Power-law ease-out `1 - (1 - t)^p` with `p` below one.
    EaseOut(Exponent),
}

/// The shaped output for progress `t`, both in parts per million.
pub open spec fn shaped(shaping: Shaping, t: int) -> int {
    match shaping {
        Shaping::Linear => t,
        Shaping::MinimumJerk => min_jerk(t),
        Shaping::EaseIn(exponent) => power_law(t, exponent),
        Shaping::EaseOut(exponent) => UNIT - power_law(UNIT - t, exponent),
    }
}

/// Every shaping curve starts at 0, ends at one whole, never decreases and
/// stays within the unit interval.
pub proof fn lemma_shaped_monotone(shaping: Shaping, lower: int, upper: int)
    requires
        shaping.wf(),
        0 <= lower <= upper <= UNIT,
    ensures
        0 <= shaped(shaping, lower) <= shaped(shaping, upper) <= UNIT,
        shaped(shaping, 0) == 0,
        shaped(shaping, UNIT as int) == UNIT,
{
    lemma_min_jerk_monotone(lower, upper);
    lemma_min_jerk_landmarks();
    match shaping {
        Shaping::EaseIn(exponent) => {
            lemma_power_law_monotone(lower, upper, exponent);
        },
        Shaping::EaseOut(exponent) => {
            lemma_power_law_monotone(UNIT - upper, UNIT - lower, exponent);
        },
        _ => {},
    }
}

/// Power-law ease-in runs on or above the diagonal and ease-out on or below
/// it: with an exponent below one, `t^p >= t` on the unit interval.
pub proof fn lemma_ease_sides(exponent: Exponent, t: int)
    requires
        exponent.wf(),
        is_fraction(t),
    ensures
        shaped(Shaping::EaseIn(exponent), t) >= t,
        shaped(Shaping::EaseOut(exponent), t) <= t,
{
    lemma_power_law_monotone(t, t, exponent);
    lemma_power_law_monotone(UNIT - t, UNIT - t, exponent);
}

impl Shaping {
    /// The exponent of a power-law curve is a fraction strictly between 0 and
    /// 1 with a denominator in reach; the other curves have no parameter.
    pub open spec fn wf(self) -> bool {
        match self {
            Shaping::Linear => true,
            Shaping::MinimumJerk => true,
            Shaping::EaseIn(exponent) => exponent.wf(),
            Shaping::EaseOut(exponent) => exponent.wf(),
        }
    }

    /// Tells whether the curve's parameter lies in its domain.
    pub fn is_valid(&self) -> (valid: bool)
        ensures
            valid == self.wf(),
    {
        match self {
            Shaping::Linear => true,
            Shaping::MinimumJerk => true,
            Shaping::EaseIn(exponent) => 0 < exponent.num && exponent.num < exponent.den
                && exponent.den <= crate::power::MAX_ROOT,
            Shaping::EaseOut(exponent) => 0 < exponent.num && exponent.num < exponent.den
                && exponent.den <= crate::power::MAX_ROOT,
        }
    }

    /// Evaluates the curve at `t` parts per million.
    pub fn apply(&self, t: u32) -> (s: u32)
        requires
            self.wf(),
            t <= UNIT,
        ensures
            s == shaped(*self, t as int),
            s <= UNIT,
            t == 0 ==> s == 0,
            t == UNIT ==> s == UNIT,
    {
        proof {
            lemma_shaped_monotone(*self, t as int, t as int);
        }
        match self {
            Shaping::Linear => t,
            Shaping::MinimumJerk => minimum_jerk(t),
            Shaping::EaseIn(exponent) => power_law_floor(t, *exponent),
            Shaping::EaseOut(exponent) => UNIT - power_law_floor(UNIT - t, *exponent),
        }
    }
}

} // verus!
