//! The frame clock: how much simulated time a frame stands for.
//!
//! Every update of a frame takes the same time step: the time the frame
//! lasted, but at most a sixtieth of a second.

use vstd::prelude::*;

verus! {

/// The longest time step the simulation takes in one frame: a sixtieth of a
/// second, in nanoseconds.
pub const MAX_STEP_NANOS: u64 = 16_666_666;

/// The time step taken for a frame that lasted `frame_nanos` nanoseconds.
pub open spec fn step_of(frame_nanos: int) -> int {
    if frame_nanos < MAX_STEP_NANOS {
        frame_nanos
    } else {
        MAX_STEP_NANOS as int
    }
}

/// The time step taken for a frame that lasted `frame_nanos` nanoseconds.
pub fn clamp_step(frame_nanos: u64) -> (step: u64)
    ensures
        step == step_of(frame_nanos as int),
        step <= MAX_STEP_NANOS,
{
    if frame_nanos < MAX_STEP_NANOS {
        frame_nanos
    } else {
        MAX_STEP_NANOS
    }
}

} // verus!
