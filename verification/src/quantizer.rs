//! The duty quantizer: from a joint angle to an actuator duty code, and from
//! the code to the value of the bus-level duty register.
//!
//! The code for an angle is `min + angle / 180 degrees * (max - min)`, rounded
//! to the nearest integer with halves away from zero. The register value is the
//! code rescaled from the code's full scale to the register's, rounded down.

use vstd::prelude::*;
use crate::fixed::{ANGLE_MAX, rounded, lemma_rounded_is_nearest, lemma_rounded_monotone};

verus! {

/// Full scale of a duty code.
pub const CODE_FULL_SCALE: u32 = 255;

/// Full scale of the duty register (14 bits).
pub const REGISTER_FULL_SCALE: u32 = 16_384;

/// Thousandths in one duty code: the two ends of a `DutyRange` are given in
/// thousandths so that a pulse width between two codes can be configured.
pub const DUTY_SUBSTEPS: u32 = 1_000;

/// Denominator of the exact duty: thousandths of a code times millidegrees of
/// the mechanical range, `DUTY_SUBSTEPS * ANGLE_MAX`.
pub const DUTY_DENOMINATOR: u32 = 180_000_000;

/// Largest configurable end of a duty range, in thousandths of a code.
pub const DUTY_LIMIT: u32 = 255_000;

/// The duty at the two ends of the mechanical range, in thousandths of a code:
/// `min_millis` at 0 degrees, `max_millis` at 180 degrees.
#[derive(Clone, Copy, Debug, PartialEq, Eq, Structural)]
pub struct DutyRange {
    pub min_millis: u32,
    pub max_millis: u32,
}

impl DutyRange {
    /// The range is ordered and its codes fit the code's full scale.
    pub open spec fn wf(self) -> bool {
        self.min_millis <= self.max_millis <= DUTY_LIMIT
    }

    /// The code at 0 degrees.
    pub open spec fn min_code(self) -> int {
        rounded(self.min_millis as int, DUTY_SUBSTEPS as int)
    }

    /// The code at 180 degrees.
    pub open spec fn max_code(self) -> int {
        rounded(self.max_millis as int, DUTY_SUBSTEPS as int)
    }
}

/// The exact duty at `angle` millidegrees, as a numerator over
/// `DUTY_DENOMINATOR`.
pub open spec fn duty_numerator(range: DutyRange, angle: int) -> int {
    range.min_millis * ANGLE_MAX + angle * (range.max_millis - range.min_millis)
}

/// The duty code for `angle` millidegrees.
pub open spec fn duty_code(range: DutyRange, angle: int) -> int {
    rounded(duty_numerator(range, angle), DUTY_DENOMINATOR as int)
}

/// The duty register value for a duty code.
pub open spec fn register_value(code: int) -> int {
    code * REGISTER_FULL_SCALE / (CODE_FULL_SCALE as int)
}

/// The two ends of the mechanical range map to the rounded ends of the duty
/// range.
pub proof fn lemma_duty_code_endpoints(range: DutyRange)
    requires
        range.wf(),
    ensures
        duty_code(range, 0) == range.min_code(),
        duty_code(range, ANGLE_MAX as int) == range.max_code(),
{
    let den = DUTY_DENOMINATOR as int;
    let span = ANGLE_MAX as int;
    let sub = DUTY_SUBSTEPS as int;
    assert(duty_numerator(range, ANGLE_MAX as int) == range.max_millis * span) by (nonlinear_arith)
        requires
            duty_numerator(range, ANGLE_MAX as int) == range.min_millis * span + span * (
            range.max_millis - range.min_millis),
    ;
    assert(duty_numerator(range, 0) == range.min_millis * span);
    lemma_rounded_scales(range.min_millis as int, sub, span);
    lemma_rounded_scales(range.max_millis as int, sub, span);
    assert(sub * span == den) by (nonlinear_arith)
        requires
            sub == 1000,
            span == 180_000,
            den == 180_000_000,
    ;
}

/// Scaling numerator and denominator by the same positive factor does not
/// change the rounded quotient.
proof fn lemma_rounded_scales(num: int, den: int, factor: int)
    requires
        den > 0,
        factor > 0,
    ensures
        rounded(num * factor, den * factor) == rounded(num, den),
{
    let r = rounded(num, den);
    let q = rounded(num * factor, den * factor);
    let d = den * factor;
    assert(d > 0) by (nonlinear_arith)
        requires
            den > 0,
            factor > 0,
            d == den * factor,
    ;
    lemma_rounded_is_nearest(num, den);
    lemma_rounded_is_nearest(num * factor, d);
    // Both r and q are within one half of the same quotient, halves up.
    assert((2 * r - 1) * d <= 2 * (num * factor) < (2 * r + 1) * d) by (nonlinear_arith)
        requires
            (2 * r - 1) * den <= 2 * num < (2 * r + 1) * den,
            factor > 0,
            d == den * factor,
    ;
    assert(q == r) by (nonlinear_arith)
        requires
            (2 * r - 1) * d <= 2 * (num * factor) < (2 * r + 1) * d,
            (2 * q - 1) * d <= 2 * (num * factor) < (2 * q + 1) * d,
            d > 0,
    ;
}

/// The duty code never decreases when the angle grows.
pub proof fn lemma_duty_code_monotone(range: DutyRange, lower: int, upper: int)
    requires
        range.wf(),
        lower <= upper,
    ensures
        duty_code(range, lower) <= duty_code(range, upper),
{
    let span = range.max_millis - range.min_millis;
    assert(lower * span <= upper * span) by (nonlinear_arith)
        requires
            lower <= upper,
            span >= 0,
    ;
    lemma_rounded_monotone(
        duty_numerator(range, lower),
        duty_numerator(range, upper),
        DUTY_DENOMINATOR as int,
    );
}

/// Within the mechanical range every duty code lies between the codes of the
/// two ends, and so within the code's full scale.
pub proof fn lemma_duty_code_in_range(range: DutyRange, angle: int)
    requires
        range.wf(),
        0 <= angle <= ANGLE_MAX,
    ensures
        0 <= range.min_code() <= duty_code(range, angle) <= range.max_code() <= CODE_FULL_SCALE,
{
    lemma_duty_code_endpoints(range);
    lemma_duty_code_monotone(range, 0, angle);
    lemma_duty_code_monotone(range, angle, ANGLE_MAX as int);
    lemma_rounded_monotone(0, range.min_millis as int, DUTY_SUBSTEPS as int);
    lemma_rounded_monotone(range.max_millis as int, DUTY_LIMIT as int, DUTY_SUBSTEPS as int);
}

/// The register value never decreases when the code grows, and the code's full
/// scale maps to the register's full scale.
pub proof fn lemma_register_value_monotone(lower: int, upper: int)
    requires
        0 <= lower <= upper <= CODE_FULL_SCALE,
    ensures
        0 <= register_value(lower) <= register_value(upper) <= REGISTER_FULL_SCALE,
        register_value(0) == 0,
        register_value(CODE_FULL_SCALE as int) == REGISTER_FULL_SCALE,
{
}

/// The register value is the rescaled code with the fraction cut off: it
/// falls short of the exact value by less than one step of the register.
pub proof fn lemma_register_value_truncates(code: int)
    ensures
        register_value(code) * CODE_FULL_SCALE <= code * REGISTER_FULL_SCALE < (register_value(code)
            + 1) * CODE_FULL_SCALE,
{
}

/// Quantizes an angle in millidegrees to a duty code.
pub fn angle_to_duty(range: &DutyRange, angle: u32) -> (code: u8)
    requires
        range.wf(),
        angle <= ANGLE_MAX,
    ensures
        code == duty_code(*range, angle as int),
        range.min_code() <= code <= range.max_code(),
{
    proof {
        lemma_duty_code_in_range(*range, angle as int);
        assert(angle * (range.max_millis - range.min_millis) <= 180_000 * 255_000)
            by (nonlinear_arith)
            requires
                0 <= angle <= 180_000,
                0 <= range.max_millis - range.min_millis <= 255_000,
        ;
        assert(range.min_millis * ANGLE_MAX <= 255_000 * 180_000);
    }
    let span: u64 = (range.max_millis - range.min_millis) as u64;
    let numerator: u64 = (range.min_millis as u64) * (ANGLE_MAX as u64) + (angle as u64) * span;
    let denominator: u64 = DUTY_DENOMINATOR as u64;
    let code: u64 = (numerator + denominator / 2) / denominator;
    code as u8
}

/// Rescales a duty code to the duty register, rounding down.
pub fn duty_to_register(code: u8) -> (value: u32)
    ensures
        value == register_value(code as int),
        value <= REGISTER_FULL_SCALE,
{
    (code as u32) * REGISTER_FULL_SCALE / CODE_FULL_SCALE
}

} // verus!
