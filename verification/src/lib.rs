//! A small gravitational toy world: a sun, three planets and a free-flying
//! camera, advanced frame by frame in exact fixed-point arithmetic.
//!
//! Every scalar is an integer count of billionths (see [`scalar::UNIT`]) and
//! every frame time an integer count of nanoseconds, so that a run is
//! reproducible bit for bit and each update has a contract that says exactly
//! which value it leaves behind.

pub mod scalar;
pub mod vec3;
pub mod body;
pub mod clock;
pub mod gravity;
pub mod momentum;
pub mod movement;
pub mod camera;
pub mod scene;
pub mod frame;
