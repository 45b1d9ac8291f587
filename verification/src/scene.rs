//! The opening scene: a camera, a sun at rest, three planets on slow
//! tangential courses, a lamp and the ambient light.

use vstd::prelude::*;
use crate::body::{all_wf, Body};
use crate::vec3::Vec3;

verus! {

/// A colour, each channel a fixed-point scalar.
#[derive(Clone, Copy, Debug, PartialEq, Eq, Structural)]
pub struct Rgb {
    pub red: i64,
    pub green: i64,
    pub blue: i64,
}

/// How a body is drawn: a sphere of a radius and a colour, which may glow.
#[derive(Clone, Copy, Debug, PartialEq, Eq, Structural)]
pub struct Surface {
    pub radius: i64,
    pub color: Rgb,
    pub glow: Rgb,
}

/// A point light.
#[derive(Clone, Copy, Debug, PartialEq, Eq, Structural)]
pub struct Lamp {
    pub position: Vec3,
    pub intensity: i64,
    pub range: i64,
    pub shadows: bool,
}

/// The light that reaches every surface.
#[derive(Clone, Copy, Debug, PartialEq, Eq, Structural)]
pub struct Ambient {
    pub color: Rgb,
    pub brightness: i64,
}

/// Everything the world holds before the first frame. `surfaces` has one
/// entry for each of `bodies`, in the same order.
#[derive(Debug)]
pub struct Scene {
    pub eye: Vec3,
    pub target: Vec3,
    pub sensitivity: i64,
    pub speed: i64,
    pub bodies: Vec<Body>,
    pub surfaces: Vec<Surface>,
    pub lamp: Lamp,
    pub ambient: Ambient,
}

/// Whether `body` has this name, mass, position and velocity.
pub open spec fn body_is(body: Body, name: Seq<char>, mass: int, position: Vec3, velocity: Vec3)
    -> bool {
    body.name@ == name && body.mass == mass && body.position == position && body.velocity
        == velocity
}

/// Whether `s` is the opening scene.
pub open spec fn is_opening_scene(s: &Scene) -> bool {
    &&& s.eye == Vec3 { x: (-50_000_000_000) as i64, y: 30_000_000_000, z: 50_000_000_000 }
    &&& s.target == Vec3::origin()
    &&& s.sensitivity == 2_000_000_000
    &&& s.speed == 25_000_000_000
    &&& s.bodies@.len() == 4
    &&& body_is(s.bodies@[0], "Sun"@, 1_000_000_000_000, Vec3::origin(), Vec3::origin())
    &&& body_is(
        s.bodies@[1],
        "Inner Planet"@,
        5_000_000_000,
        Vec3 { x: 12_000_000_000, y: 0, z: 0 },
        Vec3 { x: 0, y: 0, z: 800_000_000 },
    )
    &&& body_is(
        s.bodies@[2],
        "Middle Planet"@,
        8_000_000_000,
        Vec3 { x: 20_000_000_000, y: 0, z: 0 },
        Vec3 { x: 0, y: 0, z: 600_000_000 },
    )
    &&& body_is(
        s.bodies@[3],
        "Outer Planet"@,
        6_000_000_000,
        Vec3 { x: 30_000_000_000, y: 0, z: 0 },
        Vec3 { x: 0, y: 0, z: 400_000_000 },
    )
    &&& s.surfaces@ == seq![
        Surface {
            radius: 3_000_000_000,
            color: Rgb { red: 1_000_000_000, green: 1_000_000_000, blue: 0 },
            glow: Rgb { red: 2_000_000_000, green: 2_000_000_000, blue: 0 },
        },
        Surface {
            radius: 800_000_000,
            color: Rgb { red: 800_000_000, green: 400_000_000, blue: 200_000_000 },
            glow: Rgb { red: 0, green: 0, blue: 0 },
        },
        Surface {
            radius: 1_000_000_000,
            color: Rgb { red: 200_000_000, green: 400_000_000, blue: 800_000_000 },
            glow: Rgb { red: 0, green: 0, blue: 0 },
        },
        Surface {
            radius: 900_000_000,
            color: Rgb { red: 800_000_000, green: 300_000_000, blue: 100_000_000 },
            glow: Rgb { red: 0, green: 0, blue: 0 },
        },
    ]
    &&& s.lamp == Lamp {
        position: Vec3 { x: 0, y: 5_000_000_000, z: 0 },
        intensity: 10_000_000_000_000,
        range: 200_000_000_000,
        shadows: true,
    }
    &&& s.ambient == Ambient {
        color: Rgb { red: 1_000_000_000, green: 1_000_000_000, blue: 1_000_000_000 },
        brightness: 400_000_000,
    }
}

/// Builds the opening scene.
pub fn setup_scene() -> (s: Scene)
    ensures
        is_opening_scene(&s),
        all_wf(s.bodies@),
{
    let dark = Rgb { red: 0, green: 0, blue: 0 };
    let mut bodies: Vec<Body> = Vec::new();
    let mut surfaces: Vec<Surface> = Vec::new();
    bodies.push(
        Body {
            name: "Sun".to_owned(),
            mass: 1_000_000_000_000,
            position: Vec3 { x: 0, y: 0, z: 0 },
            velocity: Vec3 { x: 0, y: 0, z: 0 },
        },
    );
    surfaces.push(
        Surface {
            radius: 3_000_000_000,
            color: Rgb { red: 1_000_000_000, green: 1_000_000_000, blue: 0 },
            glow: Rgb { red: 2_000_000_000, green: 2_000_000_000, blue: 0 },
        },
    );
    bodies.push(
        Body {
            name: "Inner Planet".to_owned(),
            mass: 5_000_000_000,
            position: Vec3 { x: 12_000_000_000, y: 0, z: 0 },
            velocity: Vec3 { x: 0, y: 0, z: 800_000_000 },
        },
    );
    surfaces.push(
        Surface {
            radius: 800_000_000,
            color: Rgb { red: 800_000_000, green: 400_000_000, blue: 200_000_000 },
            glow: dark,
        },
    );
    bodies.push(
        Body {
            name: "Middle Planet".to_owned(),
            mass: 8_000_000_000,
            position: Vec3 { x: 20_000_000_000, y: 0, z: 0 },
            velocity: Vec3 { x: 0, y: 0, z: 600_000_000 },
        },
    );
    surfaces.push(
        Surface {
            radius: 1_000_000_000,
            color: Rgb { red: 200_000_000, green: 400_000_000, blue: 800_000_000 },
            glow: dark,
        },
    );
    bodies.push(
        Body {
            name: "Outer Planet".to_owned(),
            mass: 6_000_000_000,
            position: Vec3 { x: 30_000_000_000, y: 0, z: 0 },
            velocity: Vec3 { x: 0, y: 0, z: 400_000_000 },
        },
    );
    surfaces.push(
        Surface {
            radius: 900_000_000,
            color: Rgb { red: 800_000_000, green: 300_000_000, blue: 100_000_000 },
            glow: dark,
        },
    );
    assert(surfaces@ =~= seq![surfaces@[0], surfaces@[1], surfaces@[2], surfaces@[3]]);
    Scene {
        eye: Vec3 { x: -50_000_000_000, y: 30_000_000_000, z: 50_000_000_000 },
        target: Vec3 { x: 0, y: 0, z: 0 },
        sensitivity: 2_000_000_000,
        speed: 25_000_000_000,
        bodies,
        surfaces,
        lamp: Lamp {
            position: Vec3 { x: 0, y: 5_000_000_000, z: 0 },
            intensity: 10_000_000_000_000,
            range: 200_000_000_000,
            shadows: true,
        },
        ambient: Ambient {
            color: Rgb { red: 1_000_000_000, green: 1_000_000_000, blue: 1_000_000_000 },
            brightness: 400_000_000,
        },
    }
}

/// The opening scene has the shape that makes slow orbits: the first body
/// rests at the origin; behind it each body lies farther from the origin than
/// the one before, moves at a right angle to its radius, and moves slower
/// than the one before; every mass is strictly positive.
pub proof fn lemma_opening_scene_shape(s: &Scene)
    requires
        is_opening_scene(s),
    ensures
        all_wf(s.bodies@),
        s.surfaces@.len() == s.bodies@.len(),
        s.bodies@[0].position == Vec3::origin(),
        s.bodies@[0].velocity == Vec3::origin(),
        forall|k: int|
            1 <= k < 4 ==> (#[trigger] s.bodies@[k]).position.dot(s.bodies@[k].velocity) == 0,
        forall|k: int|
            0 <= k < 3 ==> (#[trigger] s.bodies@[k]).position.norm_sq() < s.bodies@[k
                + 1].position.norm_sq(),
        forall|k: int|
            1 <= k < 3 ==> (#[trigger] s.bodies@[k]).velocity.norm_sq() > s.bodies@[k
                + 1].velocity.norm_sq(),
{
    let b = s.bodies@;
    assert(b[0].wf() && b[1].wf() && b[2].wf() && b[3].wf());
    assert(b[0].position.norm_sq() == 0) by (nonlinear_arith)
        requires
            b[0].position == (Vec3 { x: 0, y: 0, z: 0 }),
    ;
    assert forall|k: int| 1 <= k < 4 implies (#[trigger] b[k]).position.dot(b[k].velocity)
        == 0 by {
        let p = b[k].position;
        let v = b[k].velocity;
        assert(p.x * v.x + p.y * v.y + p.z * v.z == 0) by (nonlinear_arith)
            requires
                p.y == 0,
                p.z == 0,
                v.x == 0,
        ;
    }
    assert(b[1].position.norm_sq() == 144_000_000_000_000_000_000) by (nonlinear_arith)
        requires
            b[1].position == (Vec3 { x: 12_000_000_000, y: 0, z: 0 }),
    ;
    assert(b[2].position.norm_sq() == 400_000_000_000_000_000_000) by (nonlinear_arith)
        requires
            b[2].position == (Vec3 { x: 20_000_000_000, y: 0, z: 0 }),
    ;
    assert(b[3].position.norm_sq() == 900_000_000_000_000_000_000) by (nonlinear_arith)
        requires
            b[3].position == (Vec3 { x: 30_000_000_000, y: 0, z: 0 }),
    ;
    assert(b[1].velocity.norm_sq() == 640_000_000_000_000_000) by (nonlinear_arith)
        requires
            b[1].velocity == (Vec3 { x: 0, y: 0, z: 800_000_000 }),
    ;
    assert(b[2].velocity.norm_sq() == 360_000_000_000_000_000) by (nonlinear_arith)
        requires
            b[2].velocity == (Vec3 { x: 0, y: 0, z: 600_000_000 }),
    ;
    assert(b[3].velocity.norm_sq() == 160_000_000_000_000_000) by (nonlinear_arith)
        requires
            b[3].velocity == (Vec3 { x: 0, y: 0, z: 400_000_000 }),
    ;
}

} // verus!
