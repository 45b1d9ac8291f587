//! The integrator: each body moves along its velocity for one time step.

use vstd::prelude::*;
use crate::body::{all_wf, Body};
use crate::clock::{clamp_step, step_of};

verus! {

/// `body` after it has moved along its velocity for `step` nanoseconds.
pub open spec fn moved(body: Body, step: int) -> Body {
    Body { position: body.position.plus(body.velocity.during(step)), ..body }
}

/// `bodies` after each has moved along its velocity for `step` nanoseconds.
pub open spec fn all_moved(bodies: Seq<Body>, step: int) -> Seq<Body> {
    Seq::new(bodies.len(), |i: int| moved(bodies[i], step))
}

/// Moves every body along its velocity for the time step of a frame that
/// lasted `frame_nanos` nanoseconds.
pub fn movement_system(bodies: &mut Vec<Body>, frame_nanos: u64)
    requires
        all_wf(old(bodies)@),
    ensures
        final(bodies)@ == all_moved(old(bodies)@, step_of(frame_nanos as int)),
        final(bodies)@.len() == old(bodies)@.len(),
        all_wf(final(bodies)@),
{
    let step: u64 = clamp_step(frame_nanos);
    let ghost before = bodies@;
    let mut i: usize = 0;
    while i < bodies.len()
        invariant
            i <= bodies@.len(),
            bodies@.len() == before.len(),
            step == step_of(frame_nanos as int),
            forall|k: int| 0 <= k < i ==> #[trigger] bodies@[k] == moved(before[k], step as int),
            forall|k: int| i <= k < before.len() ==> #[trigger] bodies@[k] == before[k],
        decreases bodies@.len() - i,
    {
        let travelled = bodies[i].velocity.over(step);
        let arrived = bodies[i].position.saturating_add(travelled);
        bodies[i].position = arrived;
        i += 1;
    }
    assert(bodies@ =~= all_moved(before, step as int));
    assert forall|k: int| 0 <= k < bodies@.len() implies (#[trigger] bodies@[k]).wf() by {
        assert(before[k].wf());
    }
}

/// A frame that took no time moves nothing.
pub proof fn lemma_zero_step_moves_nothing(bodies: Seq<Body>)
    requires
        all_wf(bodies),
    ensures
        step_of(0) == 0,
        all_moved(bodies, step_of(0)) == bodies,
{
    assert forall|i: int| 0 <= i < bodies.len() implies moved(#[trigger] bodies[i], 0)
        == bodies[i] by {
        let b = bodies[i];
        assert(b.wf());
        assert(b.velocity.during(0) == crate::vec3::Vec3::origin());
        assert(b.position.plus(crate::vec3::Vec3::origin()) == b.position);
    }
    assert(all_moved(bodies, 0) =~= bodies);
}

/// Moving changes positions only, and each body's by its own velocity alone.
pub proof fn lemma_moving_keeps_velocity(bodies: Seq<Body>, step: int)
    ensures
        all_moved(bodies, step).len() == bodies.len(),
        forall|i: int|
            0 <= i < bodies.len() ==> {
                let after = #[trigger] all_moved(bodies, step)[i];
                after.name == bodies[i].name && after.mass == bodies[i].mass && after.velocity
                    == bodies[i].velocity && after.position == bodies[i].position.plus(
                    bodies[i].velocity.during(step),
                )
            },
{
}

} // verus!
