//! The motion sequencer: drives an arm through an ordered list of phases.
//!
//! The sequencer is a state machine that is stepped once per control tick. A
//! step carries out the work of the current stage on the arm and reports the
//! register writes to send to the actuators and the time to wait before the
//! next step. The caller owns the hardware and the clock: it performs the
//! writes, sleeps, and steps again.
//!
//! Every phase runs its ticks in order and ends with a pause that lets the
//! mechanism settle. After the last phase all joints return to the home angle
//! and the sequencer idles.

use vstd::prelude::*;
use crate::arm::{Arm, Command, Mode, Write, joints_after, writes_issued};
use crate::phase::{MotionPhase, PhaseError};

verus! {

/// Default pause after each phase, in milliseconds.
pub const PHASE_PAUSE_MS: u32 = 500;

/// Default waiting period of the idle stage, in milliseconds.
pub const IDLE_PERIOD_MS: u32 = 1_000;

/// Where the sequencer stands: what its next step will do.
#[derive(Clone, Copy, Debug, PartialEq, Eq)]
pub enum Stage {
    /// The next step runs tick `tick` of phase `phase`.
    Moving { phase: usize, tick: u32 },
    /// The next step is the pause that ends phase `phase`.
    Pausing { phase: usize },
    /// The next step returns every joint to the home angle.
    Homing,
    /// All phases are done; every further step only waits.
    Idle,
}

/// What one step did and asks of the caller.
#[derive(Clone, Debug, PartialEq, Eq)]
pub struct Step {
    /// The stage that the step carried out.
    pub stage: Stage,
    /// The register writes to send to the actuators, in order.
    pub writes: Vec<Write>,
    /// How long to wait before the next step, in milliseconds.
    pub delay_ms: u32,
}

/// Why a choreography was refused.
#[derive(Clone, Copy, Debug, PartialEq, Eq)]
pub enum SequenceError {
    /// The phase at `index` is the first that cannot be run, because of
    /// `fault`.
    InvalidPhase { index: usize, fault: PhaseError },
}

/// An arm together with its choreography and the position within it.
#[derive(Clone, Debug)]
pub struct Sequencer {
    pub arm: Arm,
    pub phases: Vec<MotionPhase>,
    /// Pause that ends each phase, in milliseconds.
    pub pause_ms: u32,
    /// Waiting period of the homing and idle stages, in milliseconds.
    pub idle_ms: u32,
    pub stage: Stage,
}

/// The stage that a choreography starts in.
pub open spec fn first_stage(phase_count: nat) -> Stage {
    if phase_count > 0 {
        Stage::Moving { phase: 0, tick: 0 }
    } else {
        Stage::Homing
    }
}

/// The stage that follows a stage.
pub open spec fn stage_after(phases: Seq<MotionPhase>, stage: Stage) -> Stage {
    match stage {
        Stage::Moving { phase, tick } => if tick < phases[phase as int].ticks {
            Stage::Moving { phase, tick: (tick + 1) as u32 }
        } else {
            Stage::Pausing { phase }
        },
        Stage::Pausing { phase } => if phase + 1 < phases.len() {
            Stage::Moving { phase: (phase + 1) as usize, tick: 0 }
        } else {
            Stage::Homing
        },
        Stage::Homing => Stage::Idle,
        Stage::Idle => Stage::Idle,
    }
}

/// The stage names a tick or a pause that the choreography has.
pub open spec fn stage_fits(phases: Seq<MotionPhase>, stage: Stage) -> bool {
    match stage {
        Stage::Moving { phase, tick } => phase < phases.len() && tick <= phases[phase as int].ticks,
        Stage::Pausing { phase } => phase < phases.len(),
        Stage::Homing => true,
        Stage::Idle => true,
    }
}

/// The commands that return every joint to the home angle: one direct command
/// per joint, in the order of the joints.
pub open spec fn home_commands(joint_count: nat, home: u32) -> Seq<Command> {
    Seq::new(joint_count, |i: int| Command { joint: i as usize, target: home, mode: Mode::Direct })
}

/// Number of steps that the phases from `phase` on take, homing included:
/// each phase takes its ticks, from 0 to its last, and one pause.
pub open spec fn steps_from_phase(phases: Seq<MotionPhase>, phase: int) -> nat
    decreases phases.len() - phase,
{
    if phase < 0 || phase >= phases.len() {
        1
    } else {
        (phases[phase].ticks + 2) as nat + steps_from_phase(phases, phase + 1)
    }
}

/// Number of steps from a stage until the sequencer idles.
pub open spec fn steps_left(phases: Seq<MotionPhase>, stage: Stage) -> nat {
    match stage {
        Stage::Moving { phase, tick } => (phases[phase as int].ticks - tick + 2) as nat
            + steps_from_phase(phases, phase + 1),
        Stage::Pausing { phase } => 1 + steps_from_phase(phases, phase + 1),
        Stage::Homing => 1,
        Stage::Idle => 0,
    }
}

/// The stage reached from `stage` after `steps` steps.
pub open spec fn stage_after_steps(phases: Seq<MotionPhase>, stage: Stage, steps: nat) -> Stage
    decreases steps,
{
    if steps == 0 {
        stage
    } else {
        stage_after(phases, stage_after_steps(phases, stage, (steps - 1) as nat))
    }
}

/// Every step before idling stays within the choreography and brings the
/// idle stage one step closer; the idle stage is never left. The phases are
/// those of a vector, so their number fits a `usize`.
pub proof fn lemma_step_counts_down(phases: Seq<MotionPhase>, stage: Stage)
    requires
        phases.len() <= usize::MAX,
        stage_fits(phases, stage),
    ensures
        stage_fits(phases, stage_after(phases, stage)),
        !(stage is Idle) ==> steps_left(phases, stage_after(phases, stage)) + 1 == steps_left(
            phases,
            stage,
        ),
        stage is Idle ==> stage_after(phases, stage) is Idle,
        steps_left(phases, stage) == 0 <==> stage is Idle,
{
    match stage {
        Stage::Moving { phase, tick } => {
            let last = phases[phase as int].ticks;
            let rest = steps_from_phase(phases, phase + 1);
            assert(steps_left(phases, stage) == (last - tick + 2) as nat + rest);
            if tick < last {
                let next = Stage::Moving { phase, tick: (tick + 1) as u32 };
                assert(stage_after(phases, stage) == next);
                assert(steps_left(phases, next) == (last - (tick + 1) + 2) as nat + rest);
            } else {
                assert(stage_after(phases, stage) == Stage::Pausing { phase });
                assert(steps_left(phases, Stage::Pausing { phase }) == 1 + rest);
            }
        },
        Stage::Pausing { phase } => {
            if phase + 1 < phases.len() {
                assert(steps_from_phase(phases, phase + 1) == (phases[phase + 1].ticks + 2) as nat
                    + steps_from_phase(phases, phase + 2));
            } else {
                assert(steps_from_phase(phases, phase + 1) == 1);
            }
        },
        Stage::Homing => {},
        Stage::Idle => {},
    }
}

/// Every choreography ends: from any stage the sequencer idles after exactly
/// `steps_left` steps, and not before.
pub proof fn lemma_choreography_ends(phases: Seq<MotionPhase>, stage: Stage, steps: nat)
    requires
        phases.len() <= usize::MAX,
        stage_fits(phases, stage),
    ensures
        stage_fits(phases, stage_after_steps(phases, stage, steps)),
        steps <= steps_left(phases, stage) ==> steps_left(
            phases,
            stage_after_steps(phases, stage, steps),
        ) == steps_left(phases, stage) - steps,
        steps >= steps_left(phases, stage) <==> stage_after_steps(phases, stage, steps) is Idle,
    decreases steps,
{
    if steps > 0 {
        lemma_choreography_ends(phases, stage, (steps - 1) as nat);
        lemma_step_counts_down(phases, stage_after_steps(phases, stage, (steps - 1) as nat));
    } else {
        lemma_step_counts_down(phases, stage);
    }
}

impl Sequencer {
    /// The arm and every phase are well-formed and the stage lies within the
    /// choreography.
    pub open spec fn wf(&self) -> bool {
        &&& self.arm.wf()
        &&& forall|i: int|
            0 <= i < self.phases@.len() ==> (#[trigger] self.phases@[i]).wf(self.arm.joints@.len())
        &&& stage_fits(self.phases@, self.stage)
    }

    /// The commands of the next step.
    pub open spec fn commands(&self) -> Seq<Command> {
        match self.stage {
            Stage::Moving { phase, tick } => self.phases@[phase as int].commands_at(tick as int),
            Stage::Pausing { phase } => Seq::empty(),
            Stage::Homing => home_commands(self.arm.joints@.len(), self.arm.config.home),
            Stage::Idle => Seq::empty(),
        }
    }

    /// The wait that the next step asks for.
    pub open spec fn delay(&self) -> u32 {
        match self.stage {
            Stage::Moving { phase, tick } => self.phases@[phase as int].delay_ms,
            Stage::Pausing { phase } => self.pause_ms,
            Stage::Homing => self.idle_ms,
            Stage::Idle => self.idle_ms,
        }
    }

    /// Checks a choreography against the arm and sets the sequencer to its
    /// start. The first phase that cannot be run is reported with its fault.
    pub fn new(arm: Arm, phases: Vec<MotionPhase>, pause_ms: u32, idle_ms: u32) -> (result: Result<
        Sequencer,
        SequenceError,
    >)
        requires
            arm.wf(),
        ensures
            result.is_ok() <==> forall|i: int|
                0 <= i < phases@.len() ==> (#[trigger] phases@[i]).wf(arm.joints@.len()),
            result matches Ok(sequencer) ==> {
                &&& sequencer.wf()
                &&& sequencer.arm == arm
                &&& sequencer.phases == phases
                &&& sequencer.pause_ms == pause_ms
                &&& sequencer.idle_ms == idle_ms
                &&& sequencer.stage == first_stage(phases@.len())
            },
            result matches Err(SequenceError::InvalidPhase { index, fault }) ==> {
                &&& index < phases@.len()
                &&& phases@[index as int].fault(arm.joints@.len()) == Some(fault)
                &&& forall|j: int| 0 <= j < index ==> (#[trigger] phases@[j]).wf(arm.joints@.len())
            },
    {
        let joint_count: usize = arm.joint_count();
        let mut at: usize = 0;
        while at < phases.len()
            invariant
                at <= phases@.len(),
                joint_count == arm.joints@.len(),
                forall|j: int| 0 <= j < at ==> (#[trigger] phases@[j]).wf(joint_count as nat),
            decreases phases@.len() - at,
        {
            match phases[at].validate(joint_count) {
                Ok(()) => {},
                Err(fault) => {
                    return Err(SequenceError::InvalidPhase { index: at, fault });
                },
            }
            at = at + 1;
        }
        let stage: Stage = if phases.len() > 0 {
            Stage::Moving { phase: 0, tick: 0 }
        } else {
            Stage::Homing
        };
        Ok(Sequencer { arm, phases, pause_ms, idle_ms, stage })
    }

    /// The stage that the next step will carry out.
    pub fn stage(&self) -> (stage: Stage)
        ensures
            stage == self.stage,
    {
        self.stage
    }

    /// Whether all phases are done and the joints are back home.
    pub fn is_idle(&self) -> (idle: bool)
        ensures
            idle == (self.stage is Idle),
    {
        match self.stage {
            Stage::Idle => true,
            _ => false,
        }
    }

    /// Carries out the current stage: takes the stage's commands through the
    /// arm's pipeline, moves on to the next stage, and reports the writes to
    /// perform and the time to wait.
    pub fn step(&mut self) -> (step: Step)
        requires
            old(self).wf(),
        ensures
            final(self).wf(),
            final(self).phases == old(self).phases,
            final(self).pause_ms == old(self).pause_ms,
            final(self).idle_ms == old(self).idle_ms,
            final(self).arm.config == old(self).arm.config,
            final(self).arm.joints@ == joints_after(
                old(self).arm.config,
                old(self).arm.joints@,
                old(self).commands(),
            ),
            final(self).stage == stage_after(old(self).phases@, old(self).stage),
            step.stage == old(self).stage,
            step.delay_ms == old(self).delay(),
            step.writes@ == writes_issued(
                old(self).arm.config,
                old(self).arm.joints@,
                old(self).commands(),
            ),
    {
        let stage: Stage = self.stage;
        let joint_count: usize = self.arm.joint_count();
        assert(stage_fits(self.phases@, stage));
        match stage {
            Stage::Moving { phase, tick } => {
                assert(self.phases@[phase as int].wf(joint_count as nat));
                let commands: Vec<Command> = self.phases[phase].commands(joint_count, tick);
                let last: u32 = self.phases[phase].ticks;
                let delay_ms: u32 = self.phases[phase].delay_ms;
                let writes: Vec<Write> = self.arm.run(&commands);
                if tick < last {
                    self.stage = Stage::Moving { phase, tick: tick + 1 };
                } else {
                    self.stage = Stage::Pausing { phase };
                }
                Step { stage, writes, delay_ms }
            },
            Stage::Pausing { phase } => {
                let phase_count: usize = self.phases.len();
                if phase + 1 < phase_count {
                    self.stage = Stage::Moving { phase: phase + 1, tick: 0 };
                } else {
                    self.stage = Stage::Homing;
                }
                Step { stage, writes: Vec::new(), delay_ms: self.pause_ms }
            },
            Stage::Homing => {
                let home: u32 = self.arm.config.home;
                let mut commands: Vec<Command> = Vec::new();
                let mut joint: usize = 0;
                while joint < joint_count
                    invariant
                        joint <= joint_count,
                        home <= crate::fixed::ANGLE_MAX,
                        commands@.len() == joint,
                        forall|i: int|
                            0 <= i < joint ==> #[trigger] commands@[i] == (Command {
                                joint: i as usize,
                                target: home,
                                mode: Mode::Direct,
                            }),
                    decreases joint_count - joint,
                {
                    commands.push(Command { joint, target: home, mode: Mode::Direct });
                    joint = joint + 1;
                }
                assert(commands@ =~= home_commands(joint_count as nat, home));
                let writes: Vec<Write> = self.arm.run(&commands);
                self.stage = Stage::Idle;
                Step { stage, writes, delay_ms: self.idle_ms }
            },
            Stage::Idle => Step { stage, writes: Vec::new(), delay_ms: self.idle_ms },
        }
    }

    /// Records that a write to a joint's actuator failed, so that the joint's
    /// next duty code is written whatever it is. Returns whether the arm has
    /// such a joint.
    pub fn write_failed(&mut self, joint: usize) -> (known: bool)
        requires
            old(self).wf(),
        ensures
            final(self).wf(),
            final(self).phases == old(self).phases,
            final(self).pause_ms == old(self).pause_ms,
            final(self).idle_ms == old(self).idle_ms,
            final(self).stage == old(self).stage,
            final(self).arm.config == old(self).arm.config,
            known == (joint < old(self).arm.joints@.len()),
            known ==> final(self).arm.joints@ == old(self).arm.joints@.update(
                joint as int,
                old(self).arm.joints@[joint as int].forgotten(),
            ),
            !known ==> final(self).arm.joints@ == old(self).arm.joints@,
    {
        self.arm.forget_write(joint)
    }
}

} // verus!
