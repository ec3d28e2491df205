//! The arm: the joints of one mechanism and the per-tick pipeline that takes a
//! target angle through the smoother, the quantizer and the change gate.
//!
//! The arm performs no hardware access itself. Each step of the pipeline
//! returns the register write that the actuator driver has to carry out, if
//! there is one.

use vstd::prelude::*;
use crate::config::Config;
use crate::fixed::ANGLE_MAX;
use crate::joint::JointState;
use crate::quantizer::{duty_code, register_value, angle_to_duty, lemma_duty_code_in_range};
use crate::smoother::{smoothed, smooth, lemma_smoothed_between};

verus! {

/// How a target angle reaches a joint.
#[derive(Clone, Copy, Debug, PartialEq, Eq)]
pub enum Mode {
    /// The target goes through the smoothing filter.
    Filtered,
    /// The target replaces the joint's running angle at once.
    Direct,
}

/// One write to an actuator's duty register.
#[derive(Clone, Copy, Debug, PartialEq, Eq)]
pub struct Write {
    /// Index of the joint whose actuator is written.
    pub joint: usize,
    /// The duty code that was quantized.
    pub duty_code: u8,
    /// The value for the duty register.
    pub register_value: u32,
}

/// One target for one joint: a unit of work for the pipeline.
#[derive(Clone, Copy, Debug, PartialEq, Eq)]
pub struct Command {
    /// Index of the joint to drive.
    pub joint: usize,
    /// Target angle in millidegrees.
    pub target: u32,
    /// Whether the target is filtered or applied directly.
    pub mode: Mode,
}

/// Why the arm refused a target.
#[derive(Clone, Copy, Debug, PartialEq, Eq)]
pub enum ArmError {
    /// The arm has no joint of that index.
    UnknownJoint,
    /// The target lies outside the mechanical range.
    AngleOutOfRange,
}

/// The joints of one arm with the parameters of their pipeline.
#[derive(Clone, Debug)]
pub struct Arm {
    pub config: Config,
    pub joints: Vec<JointState>,
}

/// The angle that a joint is commanded to, given its running angle and the
/// target.
pub open spec fn commanded(config: Config, current: int, target: int, mode: Mode) -> int {
    match mode {
        Mode::Filtered => smoothed(current, target, config.smoothing as int),
        Mode::Direct => target,
    }
}

/// The duty code that a target produces for a joint.
pub open spec fn commanded_code(config: Config, state: JointState, target: int, mode: Mode) -> u8 {
    duty_code(config.duty, commanded(config, state.smoothed_angle as int, target, mode)) as u8
}

/// The state of a joint after a target went through the pipeline.
pub open spec fn driven(config: Config, state: JointState, target: int, mode: Mode) -> JointState {
    JointState {
        smoothed_angle: commanded(config, state.smoothed_angle as int, target, mode) as u32,
        last_written_duty: Some(commanded_code(config, state, target, mode)),
    }
}

/// The write that the pipeline issues for a target: one write when the duty
/// code changed, none when it did not.
pub open spec fn write_of(
    config: Config,
    joint: usize,
    state: JointState,
    target: int,
    mode: Mode,
) -> Option<Write> {
    let code = commanded_code(config, state, target, mode);
    if state.passes(code) {
        Some(Write { joint, duty_code: code, register_value: register_value(code as int) as u32 })
    } else {
        None
    }
}

/// The pipeline keeps a joint within the mechanical range, and its duty code
/// within the configured range.
pub proof fn lemma_driven_in_range(config: Config, state: JointState, target: int, mode: Mode)
    requires
        config.wf(),
        state.wf(),
        0 <= target <= ANGLE_MAX,
    ensures
        driven(config, state, target, mode).wf(),
        0 <= commanded(config, state.smoothed_angle as int, target, mode) <= ANGLE_MAX,
        config.duty.min_code() <= commanded_code(config, state, target, mode)
            <= config.duty.max_code(),
{
    let angle = commanded(config, state.smoothed_angle as int, target, mode);
    lemma_smoothed_between(state.smoothed_angle as int, target, config.smoothing as int);
    lemma_duty_code_in_range(config.duty, angle);
}

/// The pipeline keeps a joint within any bounds that hold both its running
/// angle and the target: a joint driven toward targets that never exceed the
/// end of a sweep never overshoots that end.
pub proof fn lemma_driven_bounded(
    config: Config,
    state: JointState,
    target: int,
    mode: Mode,
    low: int,
    high: int,
)
    requires
        config.wf(),
        low <= state.smoothed_angle <= high,
        low <= target <= high,
    ensures
        low <= commanded(config, state.smoothed_angle as int, target, mode) <= high,
{
    lemma_smoothed_between(state.smoothed_angle as int, target, config.smoothing as int);
}

/// A joint that rests on its target, with the target's duty code on record,
/// stays as it is and issues no write, however often the target is repeated.
pub proof fn lemma_on_target_is_quiet(config: Config, joint: usize, state: JointState, mode: Mode)
    requires
        config.wf(),
        state.last_written_duty == Some(
            duty_code(config.duty, state.smoothed_angle as int) as u8,
        ),
    ensures
        driven(config, state, state.smoothed_angle as int, mode) == state,
        write_of(config, joint, state, state.smoothed_angle as int, mode).is_none(),
{
    crate::smoother::lemma_smoothed_gap(
        state.smoothed_angle as int,
        state.smoothed_angle as int,
        config.smoothing as int,
    );
}

/// Driving a joint twice to the same commanded duty code writes only once:
/// whatever target comes next, if it quantizes to the code just written, the
/// write is held back.
pub proof fn lemma_repeated_code_is_held_back(
    config: Config,
    joint: usize,
    state: JointState,
    first: int,
    second: int,
    mode: Mode,
)
    ensures
        ({
            let after = driven(config, state, first, mode);
            commanded_code(config, after, second, mode) == commanded_code(
                config,
                state,
                first,
                mode,
            ) ==> write_of(config, joint, after, second, mode).is_none()
        }),
{
}

/// A command names a joint of the arm and a target within the mechanical
/// range.
pub open spec fn command_fits(command: Command, joint_count: nat) -> bool {
    command.joint < joint_count && command.target <= ANGLE_MAX
}

/// The joints after a list of commands went through the pipeline in order.
pub open spec fn joints_after(
    config: Config,
    joints: Seq<JointState>,
    commands: Seq<Command>,
) -> Seq<JointState>
    decreases commands.len(),
{
    if commands.len() == 0 {
        joints
    } else {
        let before = joints_after(config, joints, commands.drop_last());
        let command = commands.last();
        before.update(
            command.joint as int,
            driven(config, before[command.joint as int], command.target as int, command.mode),
        )
    }
}

/// The writes that a list of commands issues, in the order of the commands.
pub open spec fn writes_issued(
    config: Config,
    joints: Seq<JointState>,
    commands: Seq<Command>,
) -> Seq<Write>
    decreases commands.len(),
{
    if commands.len() == 0 {
        Seq::empty()
    } else {
        let before = joints_after(config, joints, commands.drop_last());
        let earlier = writes_issued(config, joints, commands.drop_last());
        let command = commands.last();
        match write_of(
            config,
            command.joint,
            before[command.joint as int],
            command.target as int,
            command.mode,
        ) {
            Some(write) => earlier.push(write),
            None => earlier,
        }
    }
}

/// Commands that fit the arm keep every joint within the mechanical range,
/// and they issue at most one write each.
pub proof fn lemma_joints_after_wf(config: Config, joints: Seq<JointState>, commands: Seq<Command>)
    requires
        config.wf(),
        forall|i: int| 0 <= i < joints.len() ==> (#[trigger] joints[i]).wf(),
        forall|k: int|
            0 <= k < commands.len() ==> command_fits(#[trigger] commands[k], joints.len()),
    ensures
        joints_after(config, joints, commands).len() == joints.len(),
        forall|i: int|
            0 <= i < joints.len() ==> (#[trigger] joints_after(config, joints, commands)[i]).wf(),
        writes_issued(config, joints, commands).len() <= commands.len(),
    decreases commands.len(),
{
    if commands.len() > 0 {
        let head = commands.drop_last();
        lemma_joints_after_wf(config, joints, head);
        let before = joints_after(config, joints, head);
        let command = commands.last();
        assert(command_fits(commands[commands.len() - 1], joints.len()));
        lemma_driven_in_range(
            config,
            before[command.joint as int],
            command.target as int,
            command.mode,
        );
    }
}

impl Arm {
    /// The parameters and every joint are well-formed.
    pub open spec fn wf(&self) -> bool {
        &&& self.config.wf()
        &&& forall|i: int| 0 <= i < self.joints@.len() ==> (#[trigger] self.joints@[i]).wf()
    }

    /// Creates an arm of `joint_count` joints, all resting at the home angle
    /// and none written to yet.
    pub fn new(config: Config, joint_count: usize) -> (arm: Arm)
        requires
            config.wf(),
        ensures
            arm.wf(),
            arm.config == config,
            arm.joints@ == Seq::new(joint_count as nat, |i: int| JointState::fresh(config.home)),
    {
        let mut joints: Vec<JointState> = Vec::new();
        let mut made: usize = 0;
        while made < joint_count
            invariant
                made <= joint_count,
                joints@ == Seq::new(made as nat, |i: int| JointState::fresh(config.home)),
            decreases joint_count - made,
        {
            joints.push(JointState::new(config.home));
            made = made + 1;
        }
        Arm { config, joints }
    }

    /// Number of joints.
    pub fn joint_count(&self) -> (count: usize)
        ensures
            count == self.joints@.len(),
    {
        self.joints.len()
    }

    /// The state of one joint, or `None` when the arm has no such joint.
    pub fn joint(&self, joint: usize) -> (state: Option<JointState>)
        ensures
            joint < self.joints@.len() ==> state == Some(self.joints@[joint as int]),
            joint >= self.joints@.len() ==> state.is_none(),
    {
        if joint < self.joints.len() {
            Some(self.joints[joint])
        } else {
            None
        }
    }

    /// Takes a target angle, in millidegrees, through the pipeline of one
    /// joint: smoother (in filtered mode), quantizer, change gate. Returns the
    /// register write to carry out, if the duty code changed.
    pub fn drive(&mut self, joint: usize, target: u32, mode: Mode) -> (result: Result<
        Option<Write>,
        ArmError,
    >)
        requires
            old(self).wf(),
        ensures
            final(self).wf(),
            final(self).config == old(self).config,
            joint >= old(self).joints@.len() ==> result == Err::<Option<Write>, ArmError>(
                ArmError::UnknownJoint,
            ) && final(self).joints@ == old(self).joints@,
            joint < old(self).joints@.len() && target > ANGLE_MAX ==> result == Err::<
                Option<Write>,
                ArmError,
            >(ArmError::AngleOutOfRange) && final(self).joints@ == old(self).joints@,
            joint < old(self).joints@.len() && target <= ANGLE_MAX ==> result == Ok::<
                Option<Write>,
                ArmError,
            >(write_of(old(self).config, joint, old(self).joints@[joint as int], target as int, mode))
                && final(self).joints@ == old(self).joints@.update(
                joint as int,
                driven(old(self).config, old(self).joints@[joint as int], target as int, mode),
            ),
    {
        if joint >= self.joints.len() {
            return Err(ArmError::UnknownJoint);
        }
        if target > ANGLE_MAX {
            return Err(ArmError::AngleOutOfRange);
        }
        let state: JointState = self.joints[joint];
        proof {
            lemma_driven_in_range(self.config, state, target as int, mode);
        }
        let angle: u32 = match mode {
            Mode::Filtered => smooth(state.smoothed_angle, target, self.config.smoothing),
            Mode::Direct => target,
        };
        let code: u8 = angle_to_duty(&self.config.duty, angle);
        let mut next: JointState = state;
        next.smoothed_angle = angle;
        let gated: Option<u32> = next.gate(code);
        self.joints.set(joint, next);
        match gated {
            Some(register_value) => Ok(Some(Write { joint, duty_code: code, register_value })),
            None => Ok(None),
        }
    }

    /// Filtered mode: the target goes through the smoothing filter before it
    /// is quantized.
    pub fn drive_filtered(&mut self, joint: usize, target: u32) -> (result: Result<
        Option<Write>,
        ArmError,
    >)
        requires
            old(self).wf(),
        ensures
            final(self).wf(),
            final(self).config == old(self).config,
            joint >= old(self).joints@.len() ==> result == Err::<Option<Write>, ArmError>(
                ArmError::UnknownJoint,
            ) && final(self).joints@ == old(self).joints@,
            joint < old(self).joints@.len() && target > ANGLE_MAX ==> result == Err::<
                Option<Write>,
                ArmError,
            >(ArmError::AngleOutOfRange) && final(self).joints@ == old(self).joints@,
            joint < old(self).joints@.len() && target <= ANGLE_MAX ==> result == Ok::<
                Option<Write>,
                ArmError,
            >(
                write_of(
                    old(self).config,
                    joint,
                    old(self).joints@[joint as int],
                    target as int,
                    Mode::Filtered,
                ),
            ) && final(self).joints@ == old(self).joints@.update(
                joint as int,
                driven(
                    old(self).config,
                    old(self).joints@[joint as int],
                    target as int,
                    Mode::Filtered,
                ),
            ),
    {
        self.drive(joint, target, Mode::Filtered)
    }

    /// Direct mode: the target becomes the joint's running angle at once,
    /// without filtering, and is quantized as it is.
    pub fn drive_direct(&mut self, joint: usize, target: u32) -> (result: Result<
        Option<Write>,
        ArmError,
    >)
        requires
            old(self).wf(),
        ensures
            final(self).wf(),
            final(self).config == old(self).config,
            joint >= old(self).joints@.len() ==> result == Err::<Option<Write>, ArmError>(
                ArmError::UnknownJoint,
            ) && final(self).joints@ == old(self).joints@,
            joint < old(self).joints@.len() && target > ANGLE_MAX ==> result == Err::<
                Option<Write>,
                ArmError,
            >(ArmError::AngleOutOfRange) && final(self).joints@ == old(self).joints@,
            joint < old(self).joints@.len() && target <= ANGLE_MAX ==> result == Ok::<
                Option<Write>,
                ArmError,
            >(
                write_of(
                    old(self).config,
                    joint,
                    old(self).joints@[joint as int],
                    target as int,
                    Mode::Direct,
                ),
            ) && final(self).joints@ == old(self).joints@.update(
                joint as int,
                driven(
                    old(self).config,
                    old(self).joints@[joint as int],
                    target as int,
                    Mode::Direct,
                ),
            ),
    {
        self.drive(joint, target, Mode::Direct)
    }

    /// Takes a list of commands through the pipeline, in order, and returns the
    /// register writes to carry out, in the same order.
    pub fn run(&mut self, commands: &Vec<Command>) -> (writes: Vec<Write>)
        requires
            old(self).wf(),
            forall|k: int|
                0 <= k < commands@.len() ==> command_fits(
                    #[trigger] commands@[k],
                    old(self).joints@.len(),
                ),
        ensures
            final(self).wf(),
            final(self).config == old(self).config,
            final(self).joints@.len() == old(self).joints@.len(),
            final(self).joints@ == joints_after(old(self).config, old(self).joints@, commands@),
            writes@ == writes_issued(old(self).config, old(self).joints@, commands@),
    {
        let mut writes: Vec<Write> = Vec::new();
        let mut done: usize = 0;
        let ghost start = self.joints@;
        let ghost config = self.config;
        while done < commands.len()
            invariant
                done <= commands@.len(),
                self.wf(),
                self.config == config,
                self.joints@.len() == start.len(),
                forall|k: int|
                    0 <= k < commands@.len() ==> command_fits(#[trigger] commands@[k], start.len()),
                self.joints@ == joints_after(config, start, commands@.take(done as int)),
                writes@ == writes_issued(config, start, commands@.take(done as int)),
            decreases commands@.len() - done,
        {
            let command: Command = commands[done];
            proof {
                assert(command_fits(commands@[done as int], start.len()));
                assert(commands@.take(done + 1).drop_last() == commands@.take(done as int));
                assert(commands@.take(done + 1).last() == command);
            }
            let outcome = self.drive(command.joint, command.target, command.mode);
            match outcome {
                Ok(Some(write)) => {
                    writes.push(write);
                },
                _ => {},
            }
            done = done + 1;
        }
        proof {
            assert(commands@.take(done as int) == commands@);
        }
        writes
    }

    /// Records that the last write to a joint's actuator failed: the joint's
    /// next duty code goes out whatever it is. Returns whether the arm has
    /// such a joint.
    pub fn forget_write(&mut self, joint: usize) -> (known: bool)
        requires
            old(self).wf(),
        ensures
            final(self).wf(),
            final(self).config == old(self).config,
            known == (joint < old(self).joints@.len()),
            known ==> final(self).joints@ == old(self).joints@.update(
                joint as int,
                old(self).joints@[joint as int].forgotten(),
            ),
            !known ==> final(self).joints@ == old(self).joints@,
    {
        if joint >= self.joints.len() {
            return false;
        }
        let mut state: JointState = self.joints[joint];
        state.forget();
        self.joints.set(joint, state);
        true
    }
}

} // verus!
