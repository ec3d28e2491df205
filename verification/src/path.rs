//! Joint paths: where a joint should be at each point of a phase.
//!
//! A path is a list of knots, angles in millidegrees, spaced evenly over the
//! shaped progress of the phase and joined by straight segments. One knot
//! holds a joint in place, two knots sweep it from a start to an end angle,
//! and more knots trace any sampled curve, such as one joint's share of a
//! circle that two joints draw together.

use vstd::prelude::*;
use crate::fixed::{UNIT, is_fraction, scaled, scale, lemma_scaled_bounds, lemma_scaled_monotone};

verus! {

/// The point `share` parts per million of the way from `from` to `to`,
/// rounded toward `from`.
pub open spec fn interpolated(from: int, to: int, share: int) -> int {
    if to >= from {
        from + scaled(to - from, share)
    } else {
        from - scaled(from - to, share)
    }
}

/// Index of the segment that holds progress `s` on a path of `segments`
/// segments. The end of the path belongs to the last segment.
pub open spec fn segment_at(segments: int, s: int) -> int {
    if s >= UNIT {
        segments - 1
    } else {
        s * segments / (UNIT as int)
    }
}

/// How far progress `s` has come within its segment, in parts per million of
/// the segment.
pub open spec fn share_at(segments: int, s: int) -> int {
    s * segments - segment_at(segments, s) * UNIT
}

/// The angle on the path at shaped progress `s`.
pub open spec fn path_at(knots: Seq<u32>, s: int) -> int {
    if knots.len() <= 1 {
        knots[0] as int
    } else {
        let segments = knots.len() - 1;
        let index = segment_at(segments, s);
        interpolated(knots[index] as int, knots[index + 1] as int, share_at(segments, s))
    }
}

/// An interpolated point lies between the two ends, starts at `from` and
/// arrives at `to`.
pub proof fn lemma_interpolated_between(from: int, to: int, share: int)
    requires
        is_fraction(share),
    ensures
        from <= to ==> from <= interpolated(from, to, share) <= to,
        to <= from ==> to <= interpolated(from, to, share) <= from,
        interpolated(from, to, 0) == from,
        interpolated(from, to, UNIT as int) == to,
{
    if to >= from {
        lemma_scaled_bounds(to - from, share);
        lemma_scaled_bounds(to - from, 0);
        lemma_scaled_bounds(to - from, UNIT as int);
    } else {
        lemma_scaled_bounds(from - to, share);
        lemma_scaled_bounds(from - to, 0);
        lemma_scaled_bounds(from - to, UNIT as int);
    }
}

/// A larger share brings the interpolated point no farther from `to`.
pub proof fn lemma_interpolated_monotone(from: int, to: int, earlier: int, later: int)
    requires
        0 <= earlier <= later <= UNIT,
    ensures
        from <= to ==> interpolated(from, to, earlier) <= interpolated(from, to, later),
        to <= from ==> interpolated(from, to, later) <= interpolated(from, to, earlier),
{
    if to >= from {
        lemma_scaled_monotone(to - from, to - from, earlier, later);
    }
    if to <= from {
        lemma_scaled_monotone(from - to, from - to, earlier, later);
    }
    if to == from {
        lemma_scaled_bounds(0, earlier);
        lemma_scaled_bounds(0, later);
    }
}

/// Every progress value falls into one of the path's segments, at a share
/// between 0 and one whole of that segment.
pub proof fn lemma_segment_at(segments: int, s: int)
    requires
        segments >= 1,
        is_fraction(s),
    ensures
        0 <= segment_at(segments, s) < segments,
        is_fraction(share_at(segments, s)),
        segment_at(segments, 0) == 0,
        share_at(segments, 0) == 0,
        share_at(segments, UNIT as int) == UNIT,
{
    let unit = UNIT as int;
    assert(0 * segments == 0);
    assert(unit * segments - (segments - 1) * unit == unit) by (nonlinear_arith);
    if s < unit {
        assert(0 <= s * segments < unit * segments) by (nonlinear_arith)
            requires
                0 <= s < unit,
                segments >= 1,
        ;
        let index = s * segments / unit;
        vstd::arithmetic::div_mod::lemma_fundamental_div_mod(s * segments, unit);
        vstd::arithmetic::div_mod::lemma_mod_bound(s * segments, unit);
        assert(unit * index == index * unit) by (nonlinear_arith);
        assert(index < segments) by (nonlinear_arith)
            requires
                index * unit <= s * segments,
                s * segments < unit * segments,
                unit > 0,
        ;
    }
}

/// A path starts at its first knot and ends at its last.
pub proof fn lemma_path_at_ends(knots: Seq<u32>)
    requires
        knots.len() >= 1,
    ensures
        path_at(knots, 0) == knots[0],
        path_at(knots, UNIT as int) == knots[knots.len() - 1],
{
    if knots.len() > 1 {
        let segments = knots.len() - 1;
        lemma_segment_at(segments, 0);
        lemma_segment_at(segments, UNIT as int);
        lemma_interpolated_between(knots[0] as int, knots[1] as int, 0);
        lemma_interpolated_between(
            knots[segments - 1] as int,
            knots[segments] as int,
            UNIT as int,
        );
    }
}

/// A path passes through each knot: where the progress is exactly `index`
/// segments along, the angle is that knot.
pub proof fn lemma_path_at_knot(knots: Seq<u32>, s: int, index: int)
    requires
        knots.len() >= 2,
        is_fraction(s),
        0 <= index < knots.len(),
        s * (knots.len() - 1) == index * UNIT,
    ensures
        path_at(knots, s) == knots[index],
{
    let unit = UNIT as int;
    let segments = knots.len() - 1;
    lemma_segment_at(segments, s);
    if s >= unit {
        assert(index == segments) by (nonlinear_arith)
            requires
                s == unit,
                unit > 0,
                s * segments == index * unit,
        ;
        lemma_interpolated_between(knots[segments - 1] as int, knots[segments] as int, unit);
    } else {
        vstd::arithmetic::div_mod::lemma_div_by_multiple(index, unit);
        assert(segment_at(segments, s) == index);
        lemma_interpolated_between(knots[index] as int, knots[index + 1] as int, 0);
    }
}

/// A path never leaves the span of its knots.
pub proof fn lemma_path_at_in_range(knots: Seq<u32>, s: int, low: int, high: int)
    requires
        knots.len() >= 1,
        is_fraction(s),
        forall|i: int| 0 <= i < knots.len() ==> low <= #[trigger] knots[i] <= high,
    ensures
        low <= path_at(knots, s) <= high,
{
    if knots.len() > 1 {
        let segments = knots.len() - 1;
        lemma_segment_at(segments, s);
        let index = segment_at(segments, s);
        lemma_interpolated_between(
            knots[index] as int,
            knots[index + 1] as int,
            share_at(segments, s),
        );
    }
}

/// Computes the point `share` parts per million of the way from `from` to
/// `to`.
pub fn interpolate(from: u32, to: u32, share: u32) -> (point: u32)
    requires
        share <= UNIT,
    ensures
        point == interpolated(from as int, to as int, share as int),
{
    if to >= from {
        from + scale(to - from, share)
    } else {
        from - scale(from - to, share)
    }
}

/// Computes the angle on a path at shaped progress `s`.
pub fn locate(knots: &Vec<u32>, s: u32) -> (angle: u32)
    requires
        knots@.len() >= 1,
        s <= UNIT,
    ensures
        angle == path_at(knots@, s as int),
{
    if knots.len() == 1 {
        return knots[0];
    }
    let segments: usize = knots.len() - 1;
    proof {
        lemma_segment_at(segments as int, s as int);
        assert(s * segments <= 1_000_000 * 0xFFFF_FFFF_FFFF_FFFF) by (nonlinear_arith)
            requires
                0 <= s <= 1_000_000,
                0 <= segments <= 0xFFFF_FFFF_FFFF_FFFF,
        ;
    }
    let position: u128 = (s as u128) * (segments as u128);
    let index: usize = if s >= UNIT {
        segments - 1
    } else {
        (position / (UNIT as u128)) as usize
    };
    proof {
        assert(index * UNIT <= 0xFFFF_FFFF_FFFF_FFFF * 1_000_000) by (nonlinear_arith)
            requires
                0 <= index <= 0xFFFF_FFFF_FFFF_FFFF,
                UNIT == 1_000_000,
        ;
    }
    let share: u128 = position - (index as u128) * (UNIT as u128);
    interpolate(knots[index], knots[index + 1], share as u32)
}

} // verus!
