//! Program parameters, fixed when the arm is created.

use vstd::prelude::*;
use crate::fixed::{UNIT, ANGLE_MAX};
use crate::quantizer::{DutyRange, DUTY_LIMIT};

verus! {

/// Reference smoothing coefficient: one half.
pub const SMOOTHING: u32 = 500_000;

/// Reference duty at 0 degrees, in thousandths of a code.
pub const MIN_DUTY: u32 = 26_000;

/// Reference duty at 180 degrees, in thousandths of a code.
pub const MAX_DUTY: u32 = 128_000;

/// Reference home angle: 90 degrees.
pub const HOME_POS: u32 = 90_000;

/// Number of joints of the reference arm.
pub const JOINT_COUNT: usize = 4;

/// Control frequency of the reference arm, in ticks per second.
pub const CONTROL_HZ: u32 = 50;

/// Pacing delay between two ticks at the control frequency, in milliseconds.
pub const TICK_PERIOD_MS: u32 = 1_000 / CONTROL_HZ;

/// The parameters of the pipeline.
#[derive(Clone, Copy, Debug, PartialEq, Eq)]
pub struct Config {
    /// Smoothing coefficient in parts per million, above 0 and at most one
    /// whole.
    pub smoothing: u32,
    /// Duty at the two ends of the mechanical range.
    pub duty: DutyRange,
    /// Home angle in millidegrees.
    pub home: u32,
}

/// Why a set of parameters was rejected.
#[derive(Clone, Copy, Debug, PartialEq, Eq)]
pub enum ConfigError {
    /// The smoothing coefficient is 0 or above one whole.
    SmoothingOutOfRange,
    /// The duty range is inverted or exceeds the code's full scale.
    DutyRangeInvalid,
    /// The home angle lies outside the mechanical range.
    HomeOutOfRange,
}

impl Config {
    /// All parameters lie in their domains.
    pub open spec fn wf(self) -> bool {
        &&& 0 < self.smoothing <= UNIT
        &&& self.duty.wf()
        &&& self.home <= ANGLE_MAX
    }

    /// The parameters of the reference arm.
    pub open spec fn reference_spec() -> Config {
        Config {
            smoothing: SMOOTHING,
            duty: DutyRange { min_millis: MIN_DUTY, max_millis: MAX_DUTY },
            home: HOME_POS,
        }
    }

    /// Checks a set of parameters. The first parameter out of its domain, in
    /// the order smoothing, duty range, home, decides the error.
    pub fn new(smoothing: u32, min_millis: u32, max_millis: u32, home: u32) -> (result: Result<
        Config,
        ConfigError,
    >)
        ensures
            !(0 < smoothing <= UNIT) ==> result == Err::<Config, ConfigError>(
                ConfigError::SmoothingOutOfRange,
            ),
            0 < smoothing <= UNIT && !(min_millis <= max_millis <= DUTY_LIMIT) ==> result == Err::<
                Config,
                ConfigError,
            >(ConfigError::DutyRangeInvalid),
            0 < smoothing <= UNIT && min_millis <= max_millis <= DUTY_LIMIT && home > ANGLE_MAX
                ==> result == Err::<Config, ConfigError>(ConfigError::HomeOutOfRange),
            0 < smoothing <= UNIT && min_millis <= max_millis <= DUTY_LIMIT && home <= ANGLE_MAX
                ==> result == Ok::<Config, ConfigError>(
                (Config { smoothing, duty: (DutyRange { min_millis, max_millis }), home }),
            ),
            result matches Ok(config) ==> config.wf(),
    {
        if smoothing == 0 || smoothing > UNIT {
            return Err(ConfigError::SmoothingOutOfRange);
        }
        if min_millis > max_millis || max_millis > DUTY_LIMIT {
            return Err(ConfigError::DutyRangeInvalid);
        }
        if home > ANGLE_MAX {
            return Err(ConfigError::HomeOutOfRange);
        }
        Ok(Config { smoothing, duty: DutyRange { min_millis, max_millis }, home })
    }

    /// The parameters of the reference arm: smoothing one half, duty codes 26
    /// to 128, home at 90 degrees.
    pub fn reference() -> (config: Config)
        ensures
            config == Config::reference_spec(),
            config.wf(),
    {
        Config {
            smoothing: SMOOTHING,
            duty: DutyRange { min_millis: MIN_DUTY, max_millis: MAX_DUTY },
            home: HOME_POS,
        }
    }
}

} // verus!
