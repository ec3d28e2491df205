//! The position smoother: a first-order low-pass filter applied once per tick.
//!
//! With coefficient `alpha` the filter moves the running value to
//! `current * (1 - alpha) + target * alpha`. Written from the target's side
//! this is `target - (target - current) * (1 - alpha)`: the gap to the target
//! shrinks by the factor `1 - alpha`. The integer filter rounds the remaining
//! gap down, so the value lands on the target's side of the exact result and
//! reaches a constant target after finitely many ticks.

use vstd::prelude::*;
use vstd::arithmetic::power::pow;
use crate::fixed::{UNIT, is_fraction, scaled, scale, lemma_scaled_bounds, lemma_scaled_monotone};

verus! {

/// Distance between two values.
pub open spec fn gap(a: int, b: int) -> int {
    if a >= b { a - b } else { b - a }
}

/// The filter's output for one tick.
pub open spec fn smoothed(current: int, target: int, alpha: int) -> int {
    if target >= current {
        target - scaled(target - current, UNIT - alpha)
    } else {
        target + scaled(current - target, UNIT - alpha)
    }
}

/// The filter's output after `ticks` ticks with the target held constant.
pub open spec fn smoothed_after(current: int, target: int, alpha: int, ticks: nat) -> int
    decreases ticks,
{
    if ticks == 0 {
        current
    } else {
        smoothed(smoothed_after(current, target, alpha, (ticks - 1) as nat), target, alpha)
    }
}

/// Applies the filter once.
pub fn smooth(current: u32, target: u32, alpha: u32) -> (next: u32)
    requires
        0 < alpha <= UNIT,
    ensures
        next == smoothed(current as int, target as int, alpha as int),
{
    if target >= current {
        let rest: u32 = scale(target - current, UNIT - alpha);
        target - rest
    } else {
        let rest: u32 = scale(current - target, UNIT - alpha);
        target + rest
    }
}

/// The filter never overshoots: its output lies between the old value and the
/// target, both included.
pub proof fn lemma_smoothed_between(current: int, target: int, alpha: int)
    requires
        is_fraction(alpha),
    ensures
        current <= target ==> current <= smoothed(current, target, alpha) <= target,
        target <= current ==> target <= smoothed(current, target, alpha) <= current,
{
    lemma_scaled_bounds(gap(target, current), UNIT - alpha);
}

/// The filter keeps a value within any bounds that hold both the value and the
/// target: a joint that is filtered toward targets inside a range never
/// leaves the range.
pub proof fn lemma_smoothed_bounded(current: int, target: int, alpha: int, low: int, high: int)
    requires
        is_fraction(alpha),
        low <= current <= high,
        low <= target <= high,
    ensures
        low <= smoothed(current, target, alpha) <= high,
{
    lemma_smoothed_between(current, target, alpha);
}

/// One tick multiplies the gap to the target by `1 - alpha`, rounded down. With
/// a positive coefficient a non-zero gap gets strictly smaller.
pub proof fn lemma_smoothed_gap(current: int, target: int, alpha: int)
    requires
        is_fraction(alpha),
    ensures
        gap(target, smoothed(current, target, alpha)) == scaled(gap(target, current), UNIT - alpha),
        gap(target, smoothed(current, target, alpha)) <= gap(target, current),
        alpha > 0 && current != target ==> gap(target, smoothed(current, target, alpha)) < gap(
            target,
            current,
        ),
        alpha == UNIT ==> smoothed(current, target, alpha) == target,
{
    lemma_scaled_bounds(gap(target, current), UNIT - alpha);
}

/// The lag behind a moving target is bounded. A value that was within `lag`
/// of the previous target, when the target moves by at most `speed`, ends up
/// within `(lag + speed) * (1 - alpha)` of the new target; and a lag with
/// `lag * alpha >= speed * (1 - alpha)` is kept from tick to tick.
pub proof fn lemma_smoothed_lag(
    current: int,
    previous: int,
    target: int,
    alpha: int,
    lag: int,
    speed: int,
)
    requires
        is_fraction(alpha),
        gap(previous, current) <= lag,
        gap(target, previous) <= speed,
    ensures
        gap(target, smoothed(current, target, alpha)) <= scaled(lag + speed, UNIT - alpha),
        lag * alpha >= speed * (UNIT - alpha) ==> gap(target, smoothed(current, target, alpha))
            <= lag,
{
    let keep = UNIT - alpha;
    lemma_smoothed_gap(current, target, alpha);
    lemma_scaled_monotone(gap(target, current), lag + speed, keep, keep);
    if lag * alpha >= speed * keep {
        assert((lag + speed) * keep <= lag * UNIT) by (nonlinear_arith)
            requires
                lag * alpha >= speed * keep,
                keep == UNIT - alpha,
        ;
        vstd::arithmetic::div_mod::lemma_div_is_ordered(
            (lag + speed) * keep,
            lag * UNIT,
            UNIT as int,
        );
        vstd::arithmetic::div_mod::lemma_div_by_multiple(lag, UNIT as int);
    }
}

/// The output is the convex combination `current * (1 - alpha) + target * alpha`
/// rounded toward the target: it differs from the exact value by less than one
/// unit, on the target's side.
pub proof fn lemma_smoothed_is_convex_combination(current: int, target: int, alpha: int)
    requires
        is_fraction(alpha),
    ensures
        ({
            let exact = current * (UNIT - alpha) + target * alpha;
            let out = smoothed(current, target, alpha) * UNIT;
            &&& target >= current ==> exact <= out < exact + UNIT
            &&& target < current ==> exact - UNIT < out <= exact
        }),
{
    let unit = UNIT as int;
    let keep = unit - alpha;
    let g = gap(target, current);
    let rest = scaled(g, keep);
    assert(rest * unit <= g * keep < rest * unit + unit) by {
        vstd::arithmetic::div_mod::lemma_fundamental_div_mod(g * keep, unit);
        vstd::arithmetic::div_mod::lemma_mod_bound(g * keep, unit);
        assert(unit * rest == rest * unit) by (nonlinear_arith);
    }
    if target >= current {
        assert(target * unit - (target - current) * keep == current * keep + target * alpha)
            by (nonlinear_arith)
            requires
                keep == unit - alpha,
        ;
        assert((target - rest) * unit == target * unit - rest * unit) by (nonlinear_arith);
    } else {
        assert(target * unit + (current - target) * keep == current * keep + target * alpha)
            by (nonlinear_arith)
            requires
                keep == unit - alpha,
        ;
        assert((target + rest) * unit == target * unit + rest * unit) by (nonlinear_arith);
    }
}

/// With the target held constant the value stays between where it started and
/// the target at every tick, and its gap to the target never grows from one
/// tick to the next.
pub proof fn lemma_smoothed_after_no_overshoot(current: int, target: int, alpha: int, ticks: nat)
    requires
        is_fraction(alpha),
    ensures
        current <= target ==> current <= smoothed_after(current, target, alpha, ticks) <= target,
        target <= current ==> target <= smoothed_after(current, target, alpha, ticks) <= current,
        gap(target, smoothed_after(current, target, alpha, ticks + 1)) <= gap(
            target,
            smoothed_after(current, target, alpha, ticks),
        ),
        gap(target, smoothed_after(current, target, alpha, ticks)) <= gap(target, current),
    decreases ticks,
{
    let here = smoothed_after(current, target, alpha, ticks);
    if ticks > 0 {
        let before = smoothed_after(current, target, alpha, (ticks - 1) as nat);
        lemma_smoothed_after_no_overshoot(current, target, alpha, (ticks - 1) as nat);
        lemma_smoothed_between(before, target, alpha);
        lemma_smoothed_gap(before, target, alpha);
    }
    lemma_smoothed_between(here, target, alpha);
    lemma_smoothed_gap(here, target, alpha);
}

/// Geometric convergence: after `ticks` ticks the gap to a constant target is at
/// most the starting gap times `(1 - alpha)` to the power `ticks`.
pub proof fn lemma_smoothed_after_geometric(current: int, target: int, alpha: int, ticks: nat)
    requires
        is_fraction(alpha),
    ensures
        gap(target, smoothed_after(current, target, alpha, ticks)) * pow(UNIT as int, ticks) <= gap(
            target,
            current,
        ) * pow(UNIT - alpha, ticks),
    decreases ticks,
{
    let unit = UNIT as int;
    let keep = unit - alpha;
    reveal(pow);
    if ticks == 0 {
    } else {
        let n = (ticks - 1) as nat;
        let before = smoothed_after(current, target, alpha, n);
        let here = smoothed_after(current, target, alpha, ticks);
        lemma_smoothed_after_geometric(current, target, alpha, n);
        lemma_smoothed_gap(before, target, alpha);
        let g0 = gap(target, current);
        let gb = gap(target, before);
        let gh = gap(target, here);
        let un = pow(unit, n);
        let kn = pow(keep, n);
        vstd::arithmetic::power::lemma_pow_positive(unit, n);
        assert(kn >= 0) by {
            if keep > 0 {
                vstd::arithmetic::power::lemma_pow_positive(keep, n);
            } else if n > 0 {
                vstd::arithmetic::power::lemma0_pow(n);
            } else {
                vstd::arithmetic::power::lemma_pow0(keep);
            }
        }
        assert(gh * unit <= gb * keep) by {
            vstd::arithmetic::div_mod::lemma_fundamental_div_mod(gb * keep, unit);
            vstd::arithmetic::div_mod::lemma_mod_bound(gb * keep, unit);
            assert(unit * gh == gh * unit) by (nonlinear_arith);
        }
        assert(gh * (unit * un) <= g0 * (keep * kn)) by (nonlinear_arith)
            requires
                gh * unit <= gb * keep,
                gb * un <= g0 * kn,
                un > 0,
                keep >= 0,
                gh >= 0,
                gb >= 0,
        ;
    }
}

/// A constant target is reached exactly: with a positive coefficient the gap
/// loses at least one unit per tick, so after as many ticks as the starting gap
/// has units the value equals the target, and it stays there.
pub proof fn lemma_smoothed_after_reaches_target(current: int, target: int, alpha: int, ticks: nat)
    requires
        0 < alpha <= UNIT,
    ensures
        gap(target, smoothed_after(current, target, alpha, ticks)) <= if gap(target, current)
            >= ticks {
            gap(target, current) - ticks
        } else {
            0
        },
        ticks >= gap(target, current) ==> smoothed_after(current, target, alpha, ticks) == target,
    decreases ticks,
{
    if ticks > 0 {
        let before = smoothed_after(current, target, alpha, (ticks - 1) as nat);
        lemma_smoothed_after_reaches_target(current, target, alpha, (ticks - 1) as nat);
        lemma_smoothed_gap(before, target, alpha);
    }
}

} // verus!
