//! Algebra of the minimum-jerk quintic `10 t^3 - 15 t^4 + 6 t^5`.
//!
//! The polynomial is handled as an integer numerator over the fifth power of
//! the unit, so that its landmarks, its symmetry and its monotonicity are exact
//! statements about integers. The proofs expand products one small step at a
//! time, naming each monomial.

use vstd::prelude::*;

verus! {

/// Numerator of the minimum-jerk quintic `10 t^3 - 15 t^4 + 6 t^5` at
/// `t = x / unit`, over the denominator `unit^5`.
pub open spec fn min_jerk_numerator(x: int, unit: int) -> int {
    10 * (x * x * x) * (unit * unit) - 15 * (x * x * x * x) * unit + 6 * (x * x * x * x * x)
}

/// The quintic written over `x` and the rest `unit - x`: the upper half of the
/// binomial expansion of `(x + rest)^5`.
pub proof fn lemma_min_jerk_numerator_split(x: int, unit: int)
    ensures
        min_jerk_numerator(x, unit) == (x * x * x) * (x * x + 5 * x * (unit - x) + 10 * ((unit - x)
            * (unit - x))),
{
    let v = unit - x;
    assert(10 * (x * x * x) * ((x + v) * (x + v)) - 15 * (x * x * x * x) * (x + v) + 6 * (x * x * x
        * x * x) == (x * x * x) * (x * x + 5 * x * v + 10 * (v * v))) by (nonlinear_arith);
}

/// Differences of third, fourth and fifth powers, factored by the step.
proof fn lemma_power_differences(m: int, x: int)
    ensures
        m * m * m - x * x * x == (m - x) * (m * m + m * x + x * x),
        m * m * m * m - x * x * x * x == (m - x) * (m * m * m + m * m * x + m * x * x + x * x * x),
        m * m * m * m * m - x * x * x * x * x == (m - x) * (m * m * m * m + m * m * m * x + m * m
            * x * x + m * x * x * x + x * x * x * x),
{
    assert((m - x) * (m * m + m * x + x * x) == m * m * m - x * x * x) by (nonlinear_arith);
    assert((m - x) * (m * m * m + m * m * x + m * x * x + x * x * x) == m * m * m * m - x * x * x
        * x) by (nonlinear_arith);
    assert((m - x) * (m * m * m * m + m * m * m * x + m * m * x * x + m * x * x * x + x * x * x
        * x) == m * m * m * m * m - x * x * x * x * x) by (nonlinear_arith);
}

/// The rise of the quintic at the very end of the interval (`unit == m`),
/// divided by the step: a square times a positive form.
proof fn lemma_rise_at_end(m: int, x: int)
    ensures
        10 * (m * m) * (m * m + m * x + x * x) - 15 * m * (m * m * m + m * m * x + m * x * x + x
            * x * x) + 6 * (m * m * m * m + m * m * m * x + m * m * x * x + m * x * x * x + x * x
            * x * x) == ((m - x) * (m - x)) * (m * m + 3 * m * x + 6 * x * x),
{
    let m4 = m * m * m * m;
    let m3x = m * m * m * x;
    let m2x2 = m * m * x * x;
    let mx3 = m * x * x * x;
    let x4 = x * x * x * x;
    let a = m * m + m * x + x * x;
    let b = m * m * m + m * m * x + m * x * x + x * x * x;
    let q = m * m + 3 * m * x + 6 * x * x;
    let square = (m - x) * (m - x);
    assert((m * m) * a == m4 + m3x + m2x2) by (nonlinear_arith)
        requires
            a == m * m + m * x + x * x,
            m4 == m * m * m * m,
            m3x == m * m * m * x,
            m2x2 == m * m * x * x,
    ;
    assert(m * b == m4 + m3x + m2x2 + mx3) by (nonlinear_arith)
        requires
            b == m * m * m + m * m * x + m * x * x + x * x * x,
            m4 == m * m * m * m,
            m3x == m * m * m * x,
            m2x2 == m * m * x * x,
            mx3 == m * x * x * x,
    ;
    assert((m * m) * q == m4 + 3 * m3x + 6 * m2x2) by (nonlinear_arith)
        requires
            q == m * m + 3 * m * x + 6 * x * x,
            m4 == m * m * m * m,
            m3x == m * m * m * x,
            m2x2 == m * m * x * x,
    ;
    assert((m * x) * q == m3x + 3 * m2x2 + 6 * mx3) by (nonlinear_arith)
        requires
            q == m * m + 3 * m * x + 6 * x * x,
            m3x == m * m * m * x,
            m2x2 == m * m * x * x,
            mx3 == m * x * x * x,
    ;
    assert((x * x) * q == m2x2 + 3 * mx3 + 6 * x4) by (nonlinear_arith)
        requires
            q == m * m + 3 * m * x + 6 * x * x,
            m2x2 == m * m * x * x,
            mx3 == m * x * x * x,
            x4 == x * x * x * x,
    ;
    assert(square * q == (m * m) * q - 2 * ((m * x) * q) + (x * x) * q) by (nonlinear_arith)
        requires
            square == (m - x) * (m - x),
    ;
    assert(10 * (m * m) * a == 10 * ((m * m) * a)) by (nonlinear_arith);
    assert(15 * m * b == 15 * (m * b)) by (nonlinear_arith);
}

/// The quintic's rise from `x` to `m`, with `w` left to the end of the
/// interval, is a sum of products of non-negative terms.
proof fn lemma_min_jerk_rise(x: int, m: int, w: int)
    requires
        0 <= x <= m,
        0 <= w,
    ensures
        min_jerk_numerator(x, m + w) <= min_jerk_numerator(m, m + w),
{
    let d = m - x;
    let u = m + w;
    let a = m * m + m * x + x * x;
    let b = m * m * m + m * m * x + m * x * x + x * x * x;
    let c = m * m * m * m + m * m * m * x + m * m * x * x + m * x * x * x + x * x * x * x;
    lemma_power_differences(m, x);
    let m3 = m * m * m;
    let m4 = m * m * m * m;
    let m5 = m * m * m * m * m;
    let x3 = x * x * x;
    let x4 = x * x * x * x;
    let x5 = x * x * x * x * x;
    assert((10 * m3 * (u * u) - 15 * m4 * u + 6 * m5) - (10 * x3 * (u * u) - 15 * x4 * u + 6 * x5)
        == d * (10 * (u * u) * a - 15 * u * b + 6 * c)) by (nonlinear_arith)
        requires
            m3 - x3 == d * a,
            m4 - x4 == d * b,
            m5 - x5 == d * c,
    ;
    // Sorted by powers of `w`.
    let flat = 10 * (m * m) * a - 15 * m * b + 6 * c;
    let slope = 20 * m * a - 15 * b;
    let bend = 10 * a;
    assert(10 * ((m + w) * (m + w)) * a - 15 * (m + w) * b + 6 * c == (10 * (m * m) * a - 15 * m
        * b + 6 * c) + w * (20 * m * a - 15 * b) + (w * w) * (10 * a)) by (nonlinear_arith);
    lemma_rise_at_end(m, x);
    assert(slope == 5 * (m - x) * (m * m + 2 * m * x + 3 * x * x)) by (nonlinear_arith)
        requires
            slope == 20 * m * (m * m + m * x + x * x) - 15 * (m * m * m + m * m * x + m * x * x + x
                * x * x),
    ;
    assert(flat >= 0) by (nonlinear_arith)
        requires
            flat == ((m - x) * (m - x)) * (m * m + 3 * m * x + 6 * x * x),
            0 <= x <= m,
    ;
    assert(slope >= 0) by (nonlinear_arith)
        requires
            slope == 5 * (m - x) * (m * m + 2 * m * x + 3 * x * x),
            0 <= x <= m,
    ;
    assert(bend >= 0) by (nonlinear_arith)
        requires
            bend == 10 * (m * m + m * x + x * x),
            0 <= x <= m,
    ;
    assert(d * (flat + w * slope + (w * w) * bend) >= 0) by (nonlinear_arith)
        requires
            d >= 0,
            w >= 0,
            flat >= 0,
            slope >= 0,
            bend >= 0,
    ;
}

/// The quintic never decreases on the unit interval.
pub proof fn lemma_min_jerk_numerator_monotone(lower: int, upper: int, unit: int)
    requires
        0 <= lower <= upper <= unit,
    ensures
        min_jerk_numerator(lower, unit) <= min_jerk_numerator(upper, unit),
{
    lemma_min_jerk_rise(lower, upper, unit - upper);
}

/// The binomial expansion of a fifth power, over the products that the split
/// form of the quintic uses.
proof fn lemma_fifth_power_of_sum(x: int, v: int)
    ensures
        (x + v) * (x + v) * (x + v) * (x + v) * (x + v) == (x * x * x) * (x * x) + 5 * ((x * x * x)
            * (x * v)) + 10 * ((x * x * x) * (v * v)) + 10 * ((v * v * v) * (x * x)) + 5 * ((v * v
            * v) * (x * v)) + (v * v * v) * (v * v),
{
    let u = x + v;
    let x2 = x * x;
    let xv = x * v;
    let v2 = v * v;
    let x3 = x * x * x;
    let x2v = x * x * v;
    let xv2 = x * v * v;
    let v3 = v * v * v;
    let u2 = u * u;
    let u3 = u * u * u;
    assert(u2 == x2 + 2 * xv + v2) by (nonlinear_arith)
        requires
            u == x + v,
            u2 == u * u,
            x2 == x * x,
            xv == x * v,
            v2 == v * v,
    ;
    assert(u3 == x3 + 3 * x2v + 3 * xv2 + v3) by (nonlinear_arith)
        requires
            u == x + v,
            u3 == u * u * u,
            x3 == x * x * x,
            x2v == x * x * v,
            xv2 == x * v * v,
            v3 == v * v * v,
    ;
    assert(u * u * u * u * u == u3 * u2) by (nonlinear_arith)
        requires
            u3 == u * u * u,
            u2 == u * u,
    ;
    assert((x3 + 3 * x2v + 3 * xv2 + v3) * (x2 + 2 * xv + v2) == x3 * x2 + 2 * (x3 * xv) + x3 * v2
        + 3 * (x2v * x2) + 6 * (x2v * xv) + 3 * (x2v * v2) + 3 * (xv2 * x2) + 6 * (xv2 * xv) + 3 * (
    xv2 * v2) + v3 * x2 + 2 * (v3 * xv) + v3 * v2) by (nonlinear_arith);
    assert(x2v * x2 == x3 * xv) by (nonlinear_arith)
        requires
            x2v == x * x * v,
            x2 == x * x,
            x3 == x * x * x,
            xv == x * v,
    ;
    assert(x2v * xv == x3 * v2) by (nonlinear_arith)
        requires
            x2v == x * x * v,
            xv == x * v,
            x3 == x * x * x,
            v2 == v * v,
    ;
    assert(x2v * v2 == v3 * x2) by (nonlinear_arith)
        requires
            x2v == x * x * v,
            v2 == v * v,
            v3 == v * v * v,
            x2 == x * x,
    ;
    assert(xv2 * x2 == x3 * v2) by (nonlinear_arith)
        requires
            xv2 == x * v * v,
            x2 == x * x,
            x3 == x * x * x,
            v2 == v * v,
    ;
    assert(xv2 * xv == v3 * x2) by (nonlinear_arith)
        requires
            xv2 == x * v * v,
            xv == x * v,
            v3 == v * v * v,
            x2 == x * x,
    ;
    assert(xv2 * v2 == v3 * xv) by (nonlinear_arith)
        requires
            xv2 == x * v * v,
            v2 == v * v,
            v3 == v * v * v,
            xv == x * v,
    ;
}

/// The quintic is point-symmetric about the midpoint of the interval: the
/// values at `x` and at `unit - x` add up to one whole.
pub proof fn lemma_min_jerk_numerator_symmetric(x: int, unit: int)
    ensures
        min_jerk_numerator(x, unit) + min_jerk_numerator(unit - x, unit) == unit * unit * unit
            * unit * unit,
{
    let v = unit - x;
    let x2 = x * x;
    let xv = x * v;
    let v2 = v * v;
    let x3 = x * x * x;
    let v3 = v * v * v;
    lemma_min_jerk_numerator_split(x, unit);
    lemma_min_jerk_numerator_split(v, unit);
    lemma_fifth_power_of_sum(x, v);
    assert(unit - v == x);
    assert(5 * x * v == 5 * xv && 5 * v * x == 5 * xv) by (nonlinear_arith)
        requires
            xv == x * v,
    ;
    assert(x3 * (x2 + 5 * xv + 10 * v2) == x3 * x2 + 5 * (x3 * xv) + 10 * (x3 * v2))
        by (nonlinear_arith);
    assert(v3 * (v2 + 5 * xv + 10 * x2) == v3 * v2 + 5 * (v3 * xv) + 10 * (v3 * x2))
        by (nonlinear_arith);
}

/// The quintic is flat at both ends: near the start it stays below ten times
/// the cube of the progress, and near the end it misses one whole by no more
/// than ten times the cube of what is left. This is what zero velocity and
/// zero acceleration at the ends come to for integers.
pub proof fn lemma_min_jerk_numerator_flat_ends(x: int, unit: int)
    requires
        0 <= x <= unit,
    ensures
        min_jerk_numerator(x, unit) <= 10 * (x * x * x) * (unit * unit),
        unit * unit * unit * unit * unit - min_jerk_numerator(x, unit) <= 10 * ((unit - x) * (unit
            - x) * (unit - x)) * (unit * unit),
{
    lemma_below_cubic(x, unit);
    lemma_below_cubic(unit - x, unit);
    lemma_min_jerk_numerator_symmetric(x, unit);
}

/// On the unit interval the quintic stays below its leading term.
proof fn lemma_below_cubic(x: int, unit: int)
    requires
        0 <= x <= unit,
    ensures
        min_jerk_numerator(x, unit) <= 10 * (x * x * x) * (unit * unit),
{
    let x4 = x * x * x * x;
    let x5 = x * x * x * x * x;
    assert(x4 >= 0) by (nonlinear_arith)
        requires
            x4 == x * x * x * x,
            x >= 0,
    ;
    assert(x5 == x4 * x) by (nonlinear_arith)
        requires
            x4 == x * x * x * x,
            x5 == x * x * x * x * x,
    ;
    assert(6 * (x4 * x) <= 15 * (x4 * unit)) by (nonlinear_arith)
        requires
            x4 >= 0,
            0 <= x <= unit,
    ;
    assert(15 * x4 * unit == 15 * (x4 * unit)) by (nonlinear_arith);
}

/// The quintic starts at zero and ends at one whole.
pub proof fn lemma_min_jerk_numerator_ends(unit: int)
    ensures
        min_jerk_numerator(0, unit) == 0,
        min_jerk_numerator(unit, unit) == unit * unit * unit * unit * unit,
{
    lemma_min_jerk_numerator_symmetric(0, unit);
    assert(min_jerk_numerator(0, unit) == 0) by (nonlinear_arith)
        requires
            min_jerk_numerator(0, unit) == 10 * (0 * 0 * 0) * (unit * unit) - 15 * (0 * 0 * 0 * 0)
                * unit + 6 * (0 * 0 * 0 * 0 * 0),
    ;
}

} // verus!
