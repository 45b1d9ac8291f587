use orrery::scalar::{LIMIT, UNIT};
use orrery::vec3::Vec3;

#[test]
fn new_stops_each_component_at_the_limit() {
    assert_eq!(Vec3::new(1, -2, 3), Vec3 { x: 1, y: -2, z: 3 });
    assert_eq!(
        Vec3::new(i64::MAX, i64::MIN, LIMIT + 1),
        Vec3 { x: LIMIT, y: -LIMIT, z: LIMIT }
    );
    assert_eq!(Vec3::zero(), Vec3 { x: 0, y: 0, z: 0 });
}

#[test]
fn add_and_sub_are_componentwise() {
    let a = Vec3::new(1, 2, 3);
    let b = Vec3::new(10, -20, 30);
    assert_eq!(a.saturating_add(b), Vec3::new(11, -18, 33));
    assert_eq!(a.saturating_sub(b), Vec3::new(-9, 22, -27));
    let edge = Vec3::new(LIMIT, -LIMIT, 0);
    assert_eq!(edge.saturating_add(Vec3::new(1, -1, 1)), Vec3::new(LIMIT, -LIMIT, 1));
    assert_eq!(edge.saturating_sub(Vec3::new(-1, 1, 1)), Vec3::new(LIMIT, -LIMIT, -1));
}

#[test]
fn length_squared_sums_the_squares() {
    assert_eq!(Vec3::new(3, 4, 12).length_squared(), 169);
    assert_eq!(Vec3::zero().length_squared(), 0);
    let far = Vec3 { x: i64::MIN, y: i64::MIN, z: i64::MIN };
    assert_eq!(far.length_squared(), 3 << 126);
}

#[test]
fn normalize_or_zero_keeps_the_origin() {
    assert_eq!(Vec3::zero().normalize_or_zero(), Vec3::zero());
}

#[test]
fn normalize_or_zero_of_an_axis_is_one_unit() {
    assert_eq!(Vec3::new(0, 7, 0).normalize_or_zero(), Vec3::new(0, UNIT, 0));
    assert_eq!(Vec3::new(0, -UNIT, 0).normalize_or_zero(), Vec3::new(0, -UNIT, 0));
    assert_eq!(Vec3::new(-3, 0, 0).normalize_or_zero(), Vec3::new(-UNIT, 0, 0));
    assert_eq!(Vec3::new(0, 0, LIMIT).normalize_or_zero(), Vec3::new(0, 0, UNIT));
}

#[test]
fn normalize_or_zero_of_a_diagonal_is_not_longer_than_one_unit() {
    let flat = Vec3::new(UNIT, 0, -UNIT).normalize_or_zero();
    assert_eq!(flat, Vec3::new(707_106_780, 0, -707_106_780));
    let solid = Vec3::new(UNIT, UNIT, -UNIT).normalize_or_zero();
    assert_eq!(solid, Vec3::new(577_350_269, 577_350_269, -577_350_269));
    let tilted = Vec3::new(-300_000, 0, -800_000).normalize_or_zero();
    assert_eq!(tilted, Vec3::new(-351_123_184, 0, -936_328_492));
    let tiny = Vec3::new(1, 1, 0).normalize_or_zero();
    assert_eq!(tiny, Vec3::new(500_000_000, 500_000_000, 0));
    let one = (UNIT as u128) * (UNIT as u128);
    assert!(flat.length_squared() <= one);
    assert!(solid.length_squared() <= one);
    assert!(tilted.length_squared() <= one);
    assert!(tiny.length_squared() <= one);
}

#[test]
fn scaled_and_over_round_toward_zero() {
    let v = Vec3::new(707_106_780, 0, -707_106_780);
    assert_eq!(v.scaled(25 * UNIT), Vec3::new(17_677_669_500, 0, -17_677_669_500));
    assert_eq!(
        v.scaled(25 * UNIT).over(16_666_667),
        Vec3::new(294_627_830, 0, -294_627_830)
    );
    assert_eq!(v.over(0), Vec3::zero());
    assert_eq!(v.scaled(0), Vec3::zero());
}
