use orrery::scalar::UNIT;
use orrery::scene::{setup_scene, Ambient, Lamp, Rgb, Surface};
use orrery::vec3::Vec3;

#[test]
fn the_camera_looks_at_the_origin_from_afar() {
    let scene = setup_scene();
    assert_eq!(scene.eye, Vec3::new(-50 * UNIT, 30 * UNIT, 50 * UNIT));
    assert_eq!(scene.target, Vec3::zero());
    assert_eq!(scene.sensitivity, 2 * UNIT);
    assert_eq!(scene.speed, 25 * UNIT);
}

#[test]
fn the_sun_rests_at_the_origin() {
    let scene = setup_scene();
    let sun = &scene.bodies[0];
    assert_eq!(sun.name, "Sun");
    assert_eq!(sun.mass, 1000 * UNIT);
    assert_eq!(sun.position, Vec3::zero());
    assert_eq!(sun.velocity, Vec3::zero());
}

#[test]
fn three_planets_circle_slower_the_farther_out() {
    let scene = setup_scene();
    assert_eq!(scene.bodies.len(), 4);
    let names = ["Inner Planet", "Middle Planet", "Outer Planet"];
    let masses = [5 * UNIT, 8 * UNIT, 6 * UNIT];
    let radii = [12 * UNIT, 20 * UNIT, 30 * UNIT];
    let speeds = [800_000_000, 600_000_000, 400_000_000];
    for k in 0..3 {
        let planet = &scene.bodies[k + 1];
        assert_eq!(planet.name, names[k]);
        assert_eq!(planet.mass, masses[k]);
        assert_eq!(planet.position, Vec3::new(radii[k], 0, 0));
        assert_eq!(planet.velocity, Vec3::new(0, 0, speeds[k]));
        assert!(planet.is_valid());
    }
}

#[test]
fn every_body_has_a_surface() {
    let scene = setup_scene();
    let dark = Rgb { red: 0, green: 0, blue: 0 };
    assert_eq!(
        scene.surfaces,
        vec![
            Surface {
                radius: 3 * UNIT,
                color: Rgb { red: UNIT, green: UNIT, blue: 0 },
                glow: Rgb { red: 2 * UNIT, green: 2 * UNIT, blue: 0 },
            },
            Surface {
                radius: 800_000_000,
                color: Rgb { red: 800_000_000, green: 400_000_000, blue: 200_000_000 },
                glow: dark,
            },
            Surface {
                radius: UNIT,
                color: Rgb { red: 200_000_000, green: 400_000_000, blue: 800_000_000 },
                glow: dark,
            },
            Surface {
                radius: 900_000_000,
                color: Rgb { red: 800_000_000, green: 300_000_000, blue: 100_000_000 },
                glow: dark,
            },
        ]
    );
}

#[test]
fn a_lamp_and_ambient_light_shine() {
    let scene = setup_scene();
    assert_eq!(
        scene.lamp,
        Lamp {
            position: Vec3::new(0, 5 * UNIT, 0),
            intensity: 10_000 * UNIT,
            range: 200 * UNIT,
            shadows: true,
        }
    );
    assert_eq!(
        scene.ambient,
        Ambient { color: Rgb { red: UNIT, green: UNIT, blue: UNIT }, brightness: 400_000_000 }
    );
}

#[test]
fn raw_values_stand_for_the_decimal_ones() {
    let scene = setup_scene();
    assert_eq!((scene.bodies[1].velocity.z as f64 / 1e9) as f32, 0.8f32);
    assert_eq!((scene.surfaces[3].radius as f64 / 1e9) as f32, 0.9f32);
    assert_eq!((scene.ambient.brightness as f64 / 1e9) as f32, 0.4f32);
    assert_eq!((scene.bodies[3].position.x as f64 / 1e9) as f32, 30.0f32);
    assert_eq!((scene.lamp.intensity as f64 / 1e9) as f32, 10000.0f32);
}
