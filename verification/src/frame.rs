//! One frame of the world: the bodies attract, then move, then the camera
//! follows its input.

use vstd::prelude::*;
use crate::body::{all_wf, Body};
use crate::camera::{camera_controller, controlled, CameraRig, InputSnapshot};
use crate::gravity::{gravity_system, pairs_applied};
use crate::clock::step_of;
use crate::movement::{all_moved, movement_system};

verus! {

/// `bodies` after one frame whose time step is `step` nanoseconds: every pair
/// has attracted, and then every body has moved along the velocity it has
/// after that.
pub open spec fn bodies_after_frame(bodies: Seq<Body>, step: int) -> Seq<Body> {
    all_moved(pairs_applied(bodies, bodies.len() as int, step), step)
}

/// Advances the world by one frame that lasted `frame_nanos` nanoseconds:
/// first the force accumulator, then the integrator, then the camera rig,
/// each over the same time step. The rig's backward axis is left as it was
/// given: the caller renews it from yaw and pitch before the next frame.
pub fn advance_frame(
    bodies: &mut Vec<Body>,
    rig: &mut CameraRig,
    input: &InputSnapshot,
    frame_nanos: u64,
)
    requires
        all_wf(old(bodies)@),
        old(rig).position.wf(),
    ensures
        final(bodies)@ == bodies_after_frame(old(bodies)@, step_of(frame_nanos as int)),
        all_wf(final(bodies)@),
        *final(rig) == controlled(
            *old(rig),
            input.keys,
            input.look_held,
            input.motions@,
            step_of(frame_nanos as int),
        ),
        final(rig).position.wf(),
        final(rig).orientation.back_axis == old(rig).orientation.back_axis,
{
    gravity_system(bodies, frame_nanos);
    movement_system(bodies, frame_nanos);
    camera_controller(rig, input, frame_nanos);
}

} // verus!
