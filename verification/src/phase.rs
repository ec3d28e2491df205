//! Motion phases: the timed segments of a choreography.
//!
//! A phase runs for a fixed number of ticks. At each tick the progress through
//! the phase is shaped by the phase's curve, and every track of the phase
//! turns the shaped progress into a target angle for its joint. Tracks of one
//! phase share the shaped progress: a phase with one track moves a single
//! joint, a phase with several moves its joints together as one parameter
//! sweeps.

use vstd::prelude::*;
use crate::arm::{Command, Mode, command_fits};
use crate::fixed::{ANGLE_MAX, UNIT};
use crate::path::{path_at, locate, lemma_path_at_in_range};
use crate::shaping::{Shaping, shaped, tick_progress, progress, lemma_tick_progress, lemma_shaped_monotone};

verus! {

/// The path of one joint through a phase.
#[derive(Clone, Debug, PartialEq, Eq)]
pub struct Track {
    /// Index of the joint that follows the path.
    pub joint: usize,
    /// The knots of the path, in millidegrees.
    pub knots: Vec<u32>,
}

/// One timed segment of motion.
#[derive(Clone, Debug, PartialEq, Eq)]
pub struct MotionPhase {
    /// The curve that shapes progress through the phase.
    pub shaping: Shaping,
    /// The last tick of the phase: ticks run from 0 to `ticks`, both included.
    pub ticks: u32,
    /// Pacing delay after each tick, in milliseconds.
    pub delay_ms: u32,
    /// Whether targets are filtered or applied directly.
    pub mode: Mode,
    /// One path per joint involved.
    pub tracks: Vec<Track>,
}

/// Why a phase cannot be run.
#[derive(Clone, Copy, Debug, PartialEq, Eq)]
pub enum PhaseError {
    /// The phase has a tick count of zero.
    NoTicks,
    /// The exponent of the phase's power-law curve is out of its domain.
    ExponentOutOfRange,
    /// A track names a joint that the arm does not have.
    UnknownJoint,
    /// A track has no knots.
    EmptyPath,
    /// A knot lies outside the mechanical range.
    AngleOutOfRange,
}

impl Track {
    /// Some knot of the path lies outside the mechanical range.
    pub open spec fn off_range(&self) -> bool {
        exists|j: int| 0 <= j < self.knots@.len() && #[trigger] self.knots@[j] > ANGLE_MAX
    }

    /// The track names a joint of the arm and its path is not empty and stays
    /// within the mechanical range.
    pub open spec fn wf(&self, joint_count: nat) -> bool {
        &&& self.joint < joint_count
        &&& self.knots@.len() >= 1
        &&& !self.off_range()
    }

    /// The command that the track gives at shaped progress `s`.
    pub open spec fn command_at(&self, s: int, mode: Mode) -> Command {
        Command { joint: self.joint, target: path_at(self.knots@, s) as u32, mode }
    }

    /// A track that holds a joint at one angle.
    pub fn hold(joint: usize, angle: u32) -> (track: Track)
        ensures
            track.joint == joint,
            track.knots@ == seq![angle],
    {
        let mut knots: Vec<u32> = Vec::new();
        knots.push(angle);
        Track { joint, knots }
    }

    /// A track that sweeps a joint from `start` to `end`.
    pub fn sweep(joint: usize, start: u32, end: u32) -> (track: Track)
        ensures
            track.joint == joint,
            track.knots@ == seq![start, end],
    {
        let mut knots: Vec<u32> = Vec::new();
        knots.push(start);
        knots.push(end);
        Track { joint, knots }
    }

    /// A track that takes a joint along a sampled path.
    pub fn along(joint: usize, knots: Vec<u32>) -> (track: Track)
        ensures
            track.joint == joint,
            track.knots@ == knots@,
    {
        Track { joint, knots }
    }

    /// Tells whether some knot lies outside the mechanical range.
    pub fn has_knot_off_range(&self) -> (found: bool)
        ensures
            found == self.off_range(),
    {
        let mut at: usize = 0;
        while at < self.knots.len()
            invariant
                at <= self.knots@.len(),
                forall|j: int| 0 <= j < at ==> self.knots@[j] <= ANGLE_MAX,
            decreases self.knots@.len() - at,
        {
            if self.knots[at] > ANGLE_MAX {
                return true;
            }
            at = at + 1;
        }
        false
    }
}

impl MotionPhase {
    /// Some track names a joint that the arm does not have.
    pub open spec fn names_unknown_joint(&self, joint_count: nat) -> bool {
        exists|k: int| 0 <= k < self.tracks@.len() && (#[trigger] self.tracks@[k]).joint >= joint_count
    }

    /// Some track has no knots.
    pub open spec fn has_empty_path(&self) -> bool {
        exists|k: int| 0 <= k < self.tracks@.len() && (#[trigger] self.tracks@[k]).knots@.len() == 0
    }

    /// Some track has a knot outside the mechanical range.
    pub open spec fn leaves_range(&self) -> bool {
        exists|k: int| 0 <= k < self.tracks@.len() && (#[trigger] self.tracks@[k]).off_range()
    }

    /// What is wrong with the phase, if anything. Where several things are
    /// wrong, the first in the order of `PhaseError` is named.
    pub open spec fn fault(&self, joint_count: nat) -> Option<PhaseError> {
        if self.ticks == 0 {
            Some(PhaseError::NoTicks)
        } else if !self.shaping.wf() {
            Some(PhaseError::ExponentOutOfRange)
        } else if self.names_unknown_joint(joint_count) {
            Some(PhaseError::UnknownJoint)
        } else if self.has_empty_path() {
            Some(PhaseError::EmptyPath)
        } else if self.leaves_range() {
            Some(PhaseError::AngleOutOfRange)
        } else {
            None
        }
    }

    /// The phase can be run on an arm of `joint_count` joints.
    pub open spec fn wf(&self, joint_count: nat) -> bool {
        &&& self.ticks > 0
        &&& self.shaping.wf()
        &&& forall|k: int| 0 <= k < self.tracks@.len() ==> (#[trigger] self.tracks@[k]).wf(joint_count)
    }

    /// The shaped progress at a tick of the phase.
    pub open spec fn shaped_progress(&self, tick: int) -> int {
        shaped(self.shaping, tick_progress(tick, self.ticks as int))
    }

    /// The commands of a tick: one per track, in the order of the tracks.
    pub open spec fn commands_at(&self, tick: int) -> Seq<Command> {
        Seq::new(
            self.tracks@.len(),
            |k: int| self.tracks@[k].command_at(self.shaped_progress(tick), self.mode),
        )
    }

    /// A phase for a single joint that sweeps from `start` to `end`.
    pub fn single(
        shaping: Shaping,
        ticks: u32,
        delay_ms: u32,
        mode: Mode,
        joint: usize,
        start: u32,
        end: u32,
    ) -> (phase: MotionPhase)
        ensures
            phase.shaping == shaping,
            phase.ticks == ticks,
            phase.delay_ms == delay_ms,
            phase.mode == mode,
            phase.tracks@.len() == 1,
            phase.tracks@[0].joint == joint,
            phase.tracks@[0].knots@ == seq![start, end],
    {
        let mut tracks: Vec<Track> = Vec::new();
        tracks.push(Track::sweep(joint, start, end));
        MotionPhase { shaping, ticks, delay_ms, mode, tracks }
    }

    /// A phase that moves several joints along their tracks as one shaped
    /// parameter sweeps.
    pub fn coupled(shaping: Shaping, ticks: u32, delay_ms: u32, mode: Mode, tracks: Vec<Track>) -> (phase:
        MotionPhase)
        ensures
            phase.shaping == shaping,
            phase.ticks == ticks,
            phase.delay_ms == delay_ms,
            phase.mode == mode,
            phase.tracks == tracks,
    {
        MotionPhase { shaping, ticks, delay_ms, mode, tracks }
    }

    /// Checks the phase against an arm of `joint_count` joints.
    pub fn validate(&self, joint_count: usize) -> (result: Result<(), PhaseError>)
        ensures
            result == match self.fault(joint_count as nat) {
                Some(error) => Err::<(), PhaseError>(error),
                None => Ok::<(), PhaseError>(()),
            },
            result.is_ok() <==> self.wf(joint_count as nat),
    {
        if self.ticks == 0 {
            return Err(PhaseError::NoTicks);
        }
        if !self.shaping.is_valid() {
            return Err(PhaseError::ExponentOutOfRange);
        }
        let mut unknown_joint: bool = false;
        let mut empty_path: bool = false;
        let mut off_range: bool = false;
        let mut at: usize = 0;
        while at < self.tracks.len()
            invariant
                at <= self.tracks@.len(),
                unknown_joint <==> exists|k: int|
                    0 <= k < at && (#[trigger] self.tracks@[k]).joint >= joint_count,
                empty_path <==> exists|k: int|
                    0 <= k < at && (#[trigger] self.tracks@[k]).knots@.len() == 0,
                off_range <==> exists|k: int| 0 <= k < at && (#[trigger] self.tracks@[k]).off_range(),
            decreases self.tracks@.len() - at,
        {
            let track: &Track = &self.tracks[at];
            if track.joint >= joint_count {
                unknown_joint = true;
            }
            if track.knots.len() == 0 {
                empty_path = true;
            }
            if track.has_knot_off_range() {
                off_range = true;
            }
            at = at + 1;
        }
        if unknown_joint {
            Err(PhaseError::UnknownJoint)
        } else if empty_path {
            Err(PhaseError::EmptyPath)
        } else if off_range {
            Err(PhaseError::AngleOutOfRange)
        } else {
            Ok(())
        }
    }

    /// Computes the commands of a tick.
    pub fn commands(&self, joint_count: usize, tick: u32) -> (commands: Vec<Command>)
        requires
            self.wf(joint_count as nat),
            tick <= self.ticks,
        ensures
            commands@ == self.commands_at(tick as int),
            forall|k: int|
                0 <= k < commands@.len() ==> command_fits(#[trigger] commands@[k], joint_count as nat),
    {
        proof {
            lemma_tick_progress(tick as int, tick as int, self.ticks as int);
            lemma_shaped_monotone(
                self.shaping,
                tick_progress(tick as int, self.ticks as int),
                tick_progress(tick as int, self.ticks as int),
            );
        }
        let s: u32 = self.shaping.apply(progress(tick, self.ticks));
        let mut commands: Vec<Command> = Vec::new();
        let mut at: usize = 0;
        while at < self.tracks.len()
            invariant
                at <= self.tracks@.len(),
                self.wf(joint_count as nat),
                s == self.shaped_progress(tick as int),
                s <= UNIT,
                commands@.len() == at,
                forall|k: int|
                    0 <= k < at ==> #[trigger] commands@[k] == self.tracks@[k].command_at(
                        s as int,
                        self.mode,
                    ),
                forall|k: int|
                    0 <= k < at ==> command_fits(#[trigger] commands@[k], joint_count as nat),
            decreases self.tracks@.len() - at,
        {
            let track: &Track = &self.tracks[at];
            proof {
                assert(self.tracks@[at as int].wf(joint_count as nat));
                lemma_path_at_in_range(track.knots@, s as int, 0, ANGLE_MAX as int);
            }
            let target: u32 = locate(&track.knots, s);
            commands.push(Command { joint: track.joint, target, mode: self.mode });
            at = at + 1;
        }
        proof {
            assert(commands@ =~= self.commands_at(tick as int));
        }
        commands
    }
}

} // verus!
