//! Per-joint state and the change gate.
//!
//! It compares each newly quantized duty code with the code last written
//! to the joint's actuator. An unchanged code is held back; a changed one goes
//! out as exactly one register write and becomes the new last written code.

use vstd::prelude::*;
use crate::fixed::ANGLE_MAX;
use crate::quantizer::{register_value, duty_to_register};

verus! {

/// The state of one actuated joint.
#[derive(Clone, Copy, Debug, PartialEq, Eq)]
pub struct JointState {
    /// The filter's running output, in millidegrees.
    pub smoothed_angle: u32,
    /// The duty code most recently sent to the actuator; `None` until the
    /// first write, so that the first write is never held back.
    pub last_written_duty: Option<u8>,
}

impl JointState {
    /// The running angle lies within the mechanical range.
    pub open spec fn wf(self) -> bool {
        self.smoothed_angle <= ANGLE_MAX
    }

    /// A joint resting at `home` that has not been written to yet.
    pub open spec fn fresh(home: u32) -> JointState {
        JointState { smoothed_angle: home, last_written_duty: None }
    }

    /// Whether `code` differs from the code last written, so that it goes out
    /// to the actuator.
    pub open spec fn passes(self, code: u8) -> bool {
        self.last_written_duty != Some(code)
    }

    /// The state after `code` was offered for writing.
    pub open spec fn gated(self, code: u8) -> JointState {
        JointState { smoothed_angle: self.smoothed_angle, last_written_duty: Some(code) }
    }

    /// The state after the record of the last write was dropped.
    pub open spec fn forgotten(self) -> JointState {
        JointState { smoothed_angle: self.smoothed_angle, last_written_duty: None }
    }

    /// Creates a joint resting at `home` millidegrees.
    pub fn new(home: u32) -> (state: JointState)
        ensures
            state == JointState::fresh(home),
    {
        JointState { smoothed_angle: home, last_written_duty: None }
    }

    /// Offers a duty code to the change gate. Returns the register value to
    /// write when the code differs from the one last written, and `None` when
    /// the write is held back.
    pub fn gate(&mut self, code: u8) -> (write: Option<u32>)
        ensures
            *final(self) == old(self).gated(code),
            old(self).passes(code) ==> write == Some(register_value(code as int) as u32),
            !old(self).passes(code) ==> write.is_none() && *final(self) == *old(self),
    {
        let unchanged: bool = match self.last_written_duty {
            Some(last) => last == code,
            None => false,
        };
        if unchanged {
            None
        } else {
            self.last_written_duty = Some(code);
            Some(duty_to_register(code))
        }
    }

    /// Drops the record of the last write, so that the next code offered to
    /// the joint goes out whatever it is. For use after a failed write.
    pub fn forget(&mut self)
        ensures
            *final(self) == old(self).forgotten(),
    {
        self.last_written_duty = None;
    }
}

/// Offering the same code twice in a row writes at most once: the second
/// offer is always held back and leaves the state as the first left it.
pub proof fn lemma_gate_idempotent(state: JointState, code: u8)
    ensures
        !state.gated(code).passes(code),
        state.gated(code).gated(code) == state.gated(code),
{
}

/// After the record was dropped every code goes out.
pub proof fn lemma_gate_after_forget(state: JointState, code: u8)
    ensures
        state.forgotten().passes(code),
{
}

} // verus!
