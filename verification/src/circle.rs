//! Circular motion of two coupled joints.
//!
//! A shoulder and an elbow draw a circle together when the shoulder follows
//! `center + radius * sin(theta)` and the elbow `center + radius * cos(theta)`
//! while `theta` sweeps. The sine and cosine of the sampled angles come from
//! the caller, in parts per million; this module checks them, applies the
//! geometry and builds the two tracks.

use vstd::prelude::*;
use crate::fixed::{ANGLE_MAX, UNIT, rounded, lemma_rounded_is_nearest, lemma_rounded_monotone};
use crate::phase::Track;

verus! {

/// Sine and cosine of one sampled angle, in parts per million.
#[derive(Clone, Copy, Debug, PartialEq, Eq)]
pub struct UnitSample {
    pub sin: i32,
    pub cos: i32,
}

/// Why a circle cannot be drawn.
#[derive(Clone, Copy, Debug, PartialEq, Eq)]
pub enum CircleError {
    /// There is no sample.
    NoSamples,
    /// The circle reaches below 0 degrees or above 180 degrees.
    LeavesRange,
    /// A sine or cosine lies outside the interval from -1 to 1.
    SampleOutOfRange,
}

impl UnitSample {
    /// Sine and cosine lie between -1 and 1.
    pub open spec fn wf(self) -> bool {
        -UNIT <= self.sin <= UNIT && -UNIT <= self.cos <= UNIT
    }
}

/// `radius * value`, with `value` in parts per million, rounded to the
/// nearest millidegree, halves away from zero.
pub open spec fn circle_offset(radius: int, value: int) -> int {
    if value >= 0 {
        rounded(radius * value, UNIT as int)
    } else {
        -rounded(radius * (-value), UNIT as int)
    }
}

/// The angle `center + radius * value`.
pub open spec fn circle_point(center: int, radius: int, value: int) -> int {
    center + circle_offset(radius, value)
}

/// The circle lies within the mechanical range.
pub open spec fn circle_fits(center: int, radius: int) -> bool {
    0 <= radius <= center && center + radius <= ANGLE_MAX
}

/// Some sample has a sine or cosine outside the interval from -1 to 1.
pub open spec fn has_bad_sample(samples: Seq<UnitSample>) -> bool {
    exists|k: int| 0 <= k < samples.len() && !(#[trigger] samples[k]).wf()
}

/// What is wrong with a circle, if anything. Where several things are wrong,
/// the first in the order of `CircleError` is named.
pub open spec fn circle_fault(center: int, radius: int, samples: Seq<UnitSample>) -> Option<
    CircleError,
> {
    if samples.len() == 0 {
        Some(CircleError::NoSamples)
    } else if !circle_fits(center, radius) {
        Some(CircleError::LeavesRange)
    } else if has_bad_sample(samples) {
        Some(CircleError::SampleOutOfRange)
    } else {
        None
    }
}

/// The knots of the joint that follows the sine.
pub open spec fn sine_knots(center: int, radius: int, samples: Seq<UnitSample>) -> Seq<u32> {
    Seq::new(samples.len(), |k: int| circle_point(center, radius, samples[k].sin as int) as u32)
}

/// The knots of the joint that follows the cosine.
pub open spec fn cosine_knots(center: int, radius: int, samples: Seq<UnitSample>) -> Seq<u32> {
    Seq::new(samples.len(), |k: int| circle_point(center, radius, samples[k].cos as int) as u32)
}

/// The offset never exceeds the radius; it is the full radius where the sine
/// is one, nothing where the sine is zero, and it mirrors with the sign.
pub proof fn lemma_circle_offset(radius: int, value: int)
    requires
        0 <= radius,
        -UNIT <= value <= UNIT,
    ensures
        -radius <= circle_offset(radius, value) <= radius,
        circle_offset(radius, UNIT as int) == radius,
        circle_offset(radius, -(UNIT as int)) == -radius,
        circle_offset(radius, 0) == 0,
        circle_offset(radius, -value) == -circle_offset(radius, value),
{
    let unit = UNIT as int;
    let size = if value >= 0 {
        value
    } else {
        -value
    };
    assert(0 <= radius * size <= radius * unit) by (nonlinear_arith)
        requires
            0 <= radius,
            0 <= size <= unit,
    ;
    lemma_rounded_monotone(0, radius * size, unit);
    lemma_rounded_monotone(radius * size, radius * unit, unit);
    lemma_rounded_is_nearest(radius * unit, unit);
    lemma_rounded_is_nearest(0, unit);
    let whole = rounded(radius * unit, unit);
    assert(whole == radius) by (nonlinear_arith)
        requires
            (2 * whole - 1) * unit <= 2 * (radius * unit) < (2 * whole + 1) * unit,
            unit > 0,
    ;
    assert(radius * 0 == 0);
    assert(radius * (-0) == 0);
}

/// A larger sine gives an angle at least as large.
pub proof fn lemma_circle_offset_monotone(radius: int, lower: int, upper: int)
    requires
        0 <= radius,
        lower <= upper,
    ensures
        circle_offset(radius, lower) <= circle_offset(radius, upper),
{
    let unit = UNIT as int;
    if lower >= 0 {
        assert(radius * lower <= radius * upper) by (nonlinear_arith)
            requires
                0 <= radius,
                lower <= upper,
        ;
        lemma_rounded_monotone(radius * lower, radius * upper, unit);
    } else if upper < 0 {
        assert(radius * (-upper) <= radius * (-lower)) by (nonlinear_arith)
            requires
                0 <= radius,
                lower <= upper,
        ;
        lemma_rounded_monotone(radius * (-upper), radius * (-lower), unit);
    } else {
        assert(0 <= radius * (-lower) && 0 <= radius * upper) by (nonlinear_arith)
            requires
                0 <= radius,
                lower < 0 <= upper,
        ;
        lemma_rounded_monotone(0, radius * (-lower), unit);
        lemma_rounded_monotone(0, radius * upper, unit);
    }
}

/// Every point of a circle that fits lies within its excursion, from
/// `center - radius` to `center + radius`, and so within the mechanical range.
pub proof fn lemma_circle_point_in_range(center: int, radius: int, value: int)
    requires
        circle_fits(center, radius),
        -UNIT <= value <= UNIT,
    ensures
        0 <= center - radius <= circle_point(center, radius, value) <= center + radius <= ANGLE_MAX,
{
    lemma_circle_offset(radius, value);
}

/// Computes `center + radius * value` for one sine or cosine.
pub fn point_on_circle(center: u32, radius: u32, value: i32) -> (angle: u32)
    requires
        circle_fits(center as int, radius as int),
        -UNIT <= value <= UNIT,
    ensures
        angle == circle_point(center as int, radius as int, value as int),
        center - radius <= angle <= center + radius,
{
    proof {
        lemma_circle_point_in_range(center as int, radius as int, value as int);
    }
    let size: u64 = if value >= 0 {
        value as u64
    } else {
        (-(value as i64)) as u64
    };
    proof {
        assert(radius * size <= 180_000 * 1_000_000) by (nonlinear_arith)
            requires
                0 <= radius <= 180_000,
                0 <= size <= 1_000_000,
        ;
    }
    let product: u64 = (radius as u64) * size;
    let offset: u64 = (product + (UNIT as u64) / 2) / (UNIT as u64);
    if value >= 0 {
        center + (offset as u32)
    } else {
        center - (offset as u32)
    }
}

/// Builds the two tracks of a circle: the shoulder follows the sines of the
/// samples, the elbow their cosines.
pub fn circle_tracks(
    shoulder: usize,
    elbow: usize,
    center: u32,
    radius: u32,
    samples: &Vec<UnitSample>,
) -> (result: Result<(Track, Track), CircleError>)
    ensures
        match circle_fault(center as int, radius as int, samples@) {
            Some(error) => result == Err::<(Track, Track), CircleError>(error),
            None => {
                &&& result matches Ok((first, second))
                &&& first.joint == shoulder
                &&& second.joint == elbow
                &&& first.knots@ == sine_knots(center as int, radius as int, samples@)
                &&& second.knots@ == cosine_knots(center as int, radius as int, samples@)
            },
        },
{
    if samples.len() == 0 {
        return Err(CircleError::NoSamples);
    }
    if radius > center || center > ANGLE_MAX || radius > ANGLE_MAX - center {
        return Err(CircleError::LeavesRange);
    }
    let mut sines: Vec<u32> = Vec::new();
    let mut cosines: Vec<u32> = Vec::new();
    let mut at: usize = 0;
    while at < samples.len()
        invariant
            at <= samples@.len(),
            circle_fits(center as int, radius as int),
            sines@.len() == at,
            cosines@.len() == at,
            forall|k: int| 0 <= k < at ==> (#[trigger] samples@[k]).wf(),
            forall|k: int|
                0 <= k < at ==> #[trigger] sines@[k] == circle_point(
                    center as int,
                    radius as int,
                    samples@[k].sin as int,
                ),
            forall|k: int|
                0 <= k < at ==> #[trigger] cosines@[k] == circle_point(
                    center as int,
                    radius as int,
                    samples@[k].cos as int,
                ),
        decreases samples@.len() - at,
    {
        let sample: UnitSample = samples[at];
        let unit: i32 = UNIT as i32;
        if sample.sin < -unit || sample.sin > unit || sample.cos < -unit || sample.cos > unit {
            proof {
                assert(!samples@[at as int].wf());
            }
            return Err(CircleError::SampleOutOfRange);
        }
        sines.push(point_on_circle(center, radius, sample.sin));
        cosines.push(point_on_circle(center, radius, sample.cos));
        at = at + 1;
    }
    proof {
        assert(sines@ =~= sine_knots(center as int, radius as int, samples@));
        assert(cosines@ =~= cosine_knots(center as int, radius as int, samples@));
    }
    Ok((Track::along(shoulder, sines), Track::along(elbow, cosines)))
}

} // verus!
