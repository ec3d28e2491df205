//! Motion generation and actuation for a servo-driven arm.
//!
//! A choreography is an ordered list of timed phases. Every control tick the
//! sequencer evaluates the phase's shaping curve, derives one target angle per
//! joint, runs it through the smoothing filter and the duty quantizer, and lets
//! the change gate decide whether the actuator needs a new register value.
//!
//! The modules follow the pipeline: `shaping` (with `quintic` and `power`
//! behind it), `path` and `circle` for the targets, `smoother`, `quantizer`,
//! `joint` for the change gate, `arm` for the per-tick pipeline, `phase` and
//! `sequencer` for the choreography.
//!
//! Beside the motion engine the crate holds the text handling of the voice
//! front end that turns a spoken request into a generated motion script.
//!
//! The crate holds no floating-point code. Angles are whole millidegrees and
//! fractions are parts per million, so every formula is stated and proved over
//! exact integers, with the rounding direction spelled out in each contract.

pub mod arm;
pub mod circle;
pub mod config;
pub mod fixed;
pub mod joint;
pub mod path;
pub mod phase;
pub mod power;
pub mod quantizer;
pub mod quintic;
pub mod script;
pub mod sequencer;
pub mod shaping;
pub mod smoother;
