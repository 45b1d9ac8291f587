use orrery::body::Body;
use orrery::gravity::{gravity_system, pull};
use orrery::scalar::{LIMIT, UNIT};
use orrery::vec3::Vec3;

fn body(name: &str, mass: i64, position: Vec3, velocity: Vec3) -> Body {
    Body::new(name.to_string(), mass, position, velocity).unwrap()
}

fn momentum(bodies: &Vec<Body>) -> (i128, i128, i128) {
    let mut total = (0i128, 0i128, 0i128);
    for b in bodies.iter() {
        total.0 += b.mass as i128 * b.velocity.x as i128;
        total.1 += b.mass as i128 * b.velocity.y as i128;
        total.2 += b.mass as i128 * b.velocity.z as i128;
    }
    total
}

#[test]
fn heavy_and_light_body_twelve_units_apart() {
    let mut bodies = vec![
        body("heavy", 1000 * UNIT, Vec3::new(0, 0, 0), Vec3::zero()),
        body("light", 5 * UNIT, Vec3::new(12 * UNIT, 0, 0), Vec3::zero()),
    ];
    gravity_system(&mut bodies, 16_666_667);
    assert_eq!(bodies[1].velocity, Vec3::new(-11_574_073, 0, 0));
    assert_eq!(bodies[0].velocity, Vec3::new(57_870, 0, 0));
    let light = 10.0 * 1000.0 * 5.0 / (12.0 * 12.0) / 5.0 * (1.0 / 60.0) * 0.01;
    let heavy = 10.0 * 1000.0 * 5.0 / (12.0 * 12.0) / 1000.0 * (1.0 / 60.0) * 0.01;
    // one raw unit of rounding, and a step of 16_666_666 ns for a sixtieth of a second
    assert!((-(bodies[1].velocity.x as f64) / 1e9 - light).abs() < 2e-9);
    assert!((bodies[0].velocity.x as f64 / 1e9 - heavy).abs() < 2e-9);
    assert_eq!(bodies[0].position, Vec3::zero());
    assert_eq!(bodies[1].position, Vec3::new(12 * UNIT, 0, 0));
    assert_eq!(bodies[0].mass, 1000 * UNIT);
    assert_eq!(bodies[1].name, "light");
}

#[test]
fn pull_points_at_the_other_body() {
    let from = Vec3::new(0, 0, 0);
    let to = Vec3::new(0, 3 * UNIT, 4 * UNIT);
    // 10 * 2 / 25 * 0.01 s * 0.01 along (0, 3/5, 4/5)
    assert_eq!(pull(from, to, 2 * UNIT, 10_000_000), Vec3::new(0, 48_000, 64_000));
    assert_eq!(pull(to, from, 2 * UNIT, 10_000_000), Vec3::new(0, -48_000, -64_000));
}

#[test]
fn pull_of_equal_masses_is_equal_and_opposite() {
    let a = Vec3::new(7 * UNIT, 3 * UNIT, -2 * UNIT);
    let b = Vec3::new(-5 * UNIT, 11 * UNIT, 4 * UNIT);
    let on_a = pull(a, b, 3 * UNIT, 16_666_666);
    let on_b = pull(b, a, 3 * UNIT, 16_666_666);
    assert_eq!(on_a, Vec3::new(-15_742, 10_494, 7_871));
    assert_eq!(on_b, Vec3::new(-on_a.x, -on_a.y, -on_a.z));
}

#[test]
fn pull_of_unequal_masses_balances_up_to_rounding() {
    let a = Vec3::new(0, 0, 0);
    let b = Vec3::new(12 * UNIT, 5 * UNIT, -9 * UNIT);
    let (mass_a, mass_b) = (1000 * UNIT, 7 * UNIT);
    let on_a = pull(a, b, mass_b, 16_666_666);
    let on_b = pull(b, a, mass_a, 16_666_666);
    for (p, q) in [(on_a.x, on_b.x), (on_a.y, on_b.y), (on_a.z, on_b.z)] {
        assert!(p as i128 * q as i128 <= 0);
        let drift = mass_a as i128 * p as i128 + mass_b as i128 * q as i128;
        assert!(drift.abs() < mass_a as i128);
    }
}

#[test]
fn bodies_closer_than_two_units_do_not_attract() {
    let step = 16_666_666;
    assert_eq!(pull(Vec3::zero(), Vec3::new(2 * UNIT - 1, 0, 0), LIMIT, step), Vec3::zero());
    assert_eq!(pull(Vec3::zero(), Vec3::new(1_900_000_000, 0, 0), LIMIT, step), Vec3::zero());
    assert_eq!(pull(Vec3::zero(), Vec3::zero(), LIMIT, step), Vec3::zero());
    assert_eq!(
        pull(Vec3::zero(), Vec3::new(2 * UNIT, 0, 0), LIMIT, step),
        Vec3::new(416_666_650_000, 0, 0)
    );
    assert_eq!(
        pull(Vec3::zero(), Vec3::new(0, 2 * UNIT, 0), UNIT, step),
        Vec3::new(0, 416_666, 0)
    );
    let mut bodies = vec![
        body("a", 1000 * UNIT, Vec3::new(0, 0, 0), Vec3::new(1, 2, 3)),
        body("b", 1000 * UNIT, Vec3::new(UNIT, UNIT, UNIT), Vec3::new(-4, 5, -6)),
    ];
    gravity_system(&mut bodies, step);
    assert_eq!(bodies[0].velocity, Vec3::new(1, 2, 3));
    assert_eq!(bodies[1].velocity, Vec3::new(-4, 5, -6));
}

#[test]
fn a_pair_just_over_two_units_apart_attracts() {
    let step = 16_666_666;
    let (heavy, light) = (1000 * UNIT, 5 * UNIT);
    // squared distance 4.0000000009, off the axes
    let edge = Vec3::new(1_999_999_999, 70_000, 0);
    assert_eq!(pull(edge, Vec3::zero(), heavy, step), Vec3::new(-416_666_857, -14_583, 0));
    assert_eq!(pull(Vec3::zero(), edge, light, step), Vec3::new(2_083_334, 72, 0));
    let distance = 4.0000000009f64.sqrt();
    let size = 10.0 * 1000.0 / (distance * distance) * (step as f64 / 1e9) * 0.01;
    assert!((416_666_857.0 / 1e9 - size * 1.999999999 / distance).abs() < 1e-6);
    // squared distance 3.9999999996: just under
    assert_eq!(pull(Vec3::new(1_999_999_999, 60_000, 0), Vec3::zero(), heavy, step), Vec3::zero());
    // a place that a single-precision float can hold, squared distance 4.0000005
    let near = Vec3::new(1_999_999_880, 1_000_000, 0);
    assert_eq!(pull(near, Vec3::zero(), heavy, step), Vec3::new(-416_666_754, -208_333, 0));
    // along the diagonal, either side of two units
    let over = Vec3::new(1_154_700_539, 1_154_700_539, 1_154_700_539);
    let under = Vec3::new(1_154_700_538, 1_154_700_538, 1_154_700_538);
    assert_eq!(
        pull(Vec3::zero(), over, heavy, step),
        Vec3::new(240_562_714, 240_562_714, 240_562_714)
    );
    assert_eq!(pull(Vec3::zero(), under, heavy, step), Vec3::zero());
    let mut bodies = vec![
        body("heavy", heavy, Vec3::zero(), Vec3::zero()),
        body("light", light, edge, Vec3::zero()),
    ];
    gravity_system(&mut bodies, 16_666_667);
    assert_eq!(bodies[0].velocity, Vec3::new(2_083_334, 72, 0));
    assert_eq!(bodies[1].velocity, Vec3::new(-416_666_857, -14_583, 0));
}

#[test]
fn every_pair_attracts_once() {
    let (a, b, c) = (Vec3::zero(), Vec3::new(12 * UNIT, 0, 0), Vec3::new(0, 20 * UNIT, 0));
    let (mass_a, mass_b, mass_c) = (1000 * UNIT, 5 * UNIT, 8 * UNIT);
    let mut bodies = vec![
        body("a", mass_a, a, Vec3::zero()),
        body("b", mass_b, b, Vec3::zero()),
        body("c", mass_c, c, Vec3::zero()),
    ];
    gravity_system(&mut bodies, 1_000_000_000);
    assert_eq!(bodies[0].velocity, Vec3::new(57_870, 33_333, 0));
    assert_eq!(bodies[1].velocity, Vec3::new(-11_586_683, 21_016, 0));
    assert_eq!(bodies[2].velocity, Vec3::new(7_881, -4_179_801, 0));
    let step = 16_666_666;
    assert_eq!(
        bodies[1].velocity,
        pull(b, a, mass_a, step).saturating_add(pull(b, c, mass_c, step))
    );
}

#[test]
fn a_lone_body_and_an_empty_world_stay_as_they_are() {
    let mut none: Vec<Body> = Vec::new();
    gravity_system(&mut none, 16_666_667);
    assert!(none.is_empty());
    let mut one = vec![body("one", UNIT, Vec3::new(1, 2, 3), Vec3::new(4, 5, 6))];
    gravity_system(&mut one, 16_666_667);
    assert_eq!(one[0].velocity, Vec3::new(4, 5, 6));
    assert_eq!(one[0].position, Vec3::new(1, 2, 3));
}

#[test]
fn equal_masses_keep_the_total_momentum() {
    let mass = 3 * UNIT;
    let mut bodies = vec![
        body("a", mass, Vec3::new(0, 0, 0), Vec3::new(10, 0, 0)),
        body("b", mass, Vec3::new(7 * UNIT, 3 * UNIT, -2 * UNIT), Vec3::new(0, -20, 0)),
        body("c", mass, Vec3::new(-5 * UNIT, 11 * UNIT, 4 * UNIT), Vec3::new(0, 0, 30)),
        body("d", mass, Vec3::new(9 * UNIT, -8 * UNIT, 6 * UNIT), Vec3::new(1, 1, 1)),
    ];
    let before = momentum(&bodies);
    gravity_system(&mut bodies, 16_666_666);
    assert_eq!(bodies[0].velocity, Vec3::new(78_058, 40_973, 1_535));
    assert_eq!(bodies[1].velocity, Vec3::new(-83_587, -41_418, 43_748));
    assert_eq!(bodies[2].velocity, Vec3::new(33_134, -44_317, -16_788));
    assert_eq!(bodies[3].velocity, Vec3::new(-27_594, 44_743, -28_464));
    assert_eq!(momentum(&bodies), before);
}

#[test]
fn a_faint_pull_in_a_short_frame_still_counts() {
    let mut bodies = vec![
        body("sun", 1000 * UNIT, Vec3::zero(), Vec3::zero()),
        body("outer", 6 * UNIT, Vec3::new(30 * UNIT, 0, 0), Vec3::zero()),
    ];
    gravity_system(&mut bodies, 1_000_000);
    assert_eq!(bodies[0].velocity, Vec3::new(666, 0, 0));
    assert!(bodies[1].velocity.x < 0);
}

#[test]
fn a_close_partner_adds_nothing_among_others() {
    let far = Vec3::new(12 * UNIT, 5 * UNIT, -9 * UNIT);
    let near = Vec3::new(UNIT, UNIT, 0);
    let mut with = vec![
        body("a", 1000 * UNIT, Vec3::zero(), Vec3::new(1, 2, 3)),
        body("near", 700 * UNIT, near, Vec3::zero()),
        body("far", 7 * UNIT, far, Vec3::zero()),
    ];
    let mut without = vec![
        body("a", 1000 * UNIT, Vec3::zero(), Vec3::new(1, 2, 3)),
        body("far", 7 * UNIT, far, Vec3::zero()),
    ];
    gravity_system(&mut with, 16_666_666);
    gravity_system(&mut without, 16_666_666);
    assert_eq!(with[0].velocity, without[0].velocity);
    assert_ne!(with[0].velocity, Vec3::new(1, 2, 3));
    // also where the velocity has no room left inside the band
    let mut full = vec![
        body("a", 1000 * UNIT, Vec3::zero(), Vec3::new(LIMIT, -LIMIT, 3)),
        body("near", 700 * UNIT, near, Vec3::zero()),
        body("far", 7 * UNIT, far, Vec3::zero()),
    ];
    let mut fewer = vec![
        body("a", 1000 * UNIT, Vec3::zero(), Vec3::new(LIMIT, -LIMIT, 3)),
        body("far", 7 * UNIT, far, Vec3::zero()),
    ];
    gravity_system(&mut full, 16_666_666);
    gravity_system(&mut fewer, 16_666_666);
    assert_eq!(full[0].velocity, fewer[0].velocity);
    assert_eq!(full[0].velocity.x, LIMIT);
    // the far body is not close to the one left out, and does feel it
    assert_ne!(full[2].velocity, fewer[1].velocity);
}

#[test]
fn no_time_no_pull() {
    let mut bodies = vec![
        body("heavy", 1000 * UNIT, Vec3::new(0, 0, 0), Vec3::new(1, 1, 1)),
        body("light", 5 * UNIT, Vec3::new(12 * UNIT, 0, 0), Vec3::new(2, 2, 2)),
    ];
    gravity_system(&mut bodies, 0);
    assert_eq!(bodies[0].velocity, Vec3::new(1, 1, 1));
    assert_eq!(bodies[1].velocity, Vec3::new(2, 2, 2));
}

#[test]
fn a_velocity_stops_at_the_edge_of_the_band() {
    let mut bodies = vec![
        body("heavy", LIMIT, Vec3::new(0, 0, 0), Vec3::zero()),
        body("fast", UNIT, Vec3::new(-2 * UNIT, 0, 0), Vec3::new(LIMIT, 0, 0)),
    ];
    gravity_system(&mut bodies, 16_666_666);
    assert_eq!(bodies[1].velocity, Vec3::new(LIMIT, 0, 0));
    assert_eq!(bodies[0].velocity, Vec3::new(-416_666, 0, 0));
}
