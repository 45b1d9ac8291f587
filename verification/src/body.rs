//! Point masses.

use vstd::prelude::*;
use crate::scalar::LIMIT;
use crate::vec3::Vec3;

verus! {

/// A simulated point mass.
#[derive(Debug)]
pub struct Body {
    pub name: String,
    pub mass: i64,
    pub position: Vec3,
    pub velocity: Vec3,
}

impl Body {
    /// Whether the body is one the simulation can advance: its mass is
    /// strictly positive and, like its position and velocity, within the band
    /// of stored scalars.
    pub open spec fn wf(&self) -> bool {
        0 < self.mass <= LIMIT && self.position.wf() && self.velocity.wf()
    }

    /// Whether `mass`, `position` and `velocity` make a body the simulation
    /// can advance.
    pub open spec fn admissible(mass: i64, position: Vec3, velocity: Vec3) -> bool {
        0 < mass <= LIMIT && position.wf() && velocity.wf()
    }

    /// Builds a body, or nothing where the mass is not strictly positive or a
    /// value lies outside the band of stored scalars.
    pub fn new(name: String, mass: i64, position: Vec3, velocity: Vec3) -> (made: Option<Body>)
        ensures
            made.is_some() == Body::admissible(mass, position, velocity),
            made matches Some(b) ==> b.wf() && b.name == name && b.mass == mass && b.position
                == position && b.velocity == velocity,
    {
        if mass <= 0 || mass > LIMIT || !position.in_band() || !velocity.in_band() {
            None
        } else {
            Some(Body { name, mass, position, velocity })
        }
    }

    /// Whether the body is one the simulation can advance.
    pub fn is_valid(&self) -> (ok: bool)
        ensures
            ok == self.wf(),
    {
        0 < self.mass && self.mass <= LIMIT && self.position.in_band() && self.velocity.in_band()
    }
}

/// Whether every body of `bodies` is one the simulation can advance.
pub open spec fn all_wf(bodies: Seq<Body>) -> bool {
    forall|i: int| 0 <= i < bodies.len() ==> (#[trigger] bodies[i]).wf()
}

} // verus!
