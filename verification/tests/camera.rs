use orrery::camera::{
    axis, camera_controller, forward, heading, look, travel, CameraRig, InputSnapshot, KeyState,
    MouseDelta, Orientation, PITCH_LIMIT,
};
use orrery::scalar::{LIMIT, UNIT};
use orrery::vec3::Vec3;

const STEP: u64 = 16_666_666;

fn keys(held: &str) -> KeyState {
    KeyState {
        forward: held.contains('w'),
        backward: held.contains('s'),
        left: held.contains('a'),
        right: held.contains('d'),
        up: held.contains('^'),
        down: held.contains('v'),
    }
}

fn level() -> Vec3 {
    Vec3::new(0, 0, UNIT)
}

fn rig() -> CameraRig {
    CameraRig {
        position: Vec3::new(-50 * UNIT, 30 * UNIT, 50 * UNIT),
        orientation: Orientation { back_axis: level(), yaw: 0, pitch: 0 },
        sensitivity: 2 * UNIT,
        speed: 25 * UNIT,
    }
}

fn input(held: &str, look_held: bool, motions: Vec<MouseDelta>) -> InputSnapshot {
    InputSnapshot { keys: keys(held), look_held, motions }
}

#[test]
fn axis_is_the_net_of_two_keys() {
    assert_eq!(axis(false, false), 0);
    assert_eq!(axis(true, false), 1);
    assert_eq!(axis(false, true), -1);
    assert_eq!(axis(true, true), 0);
}

#[test]
fn no_keys_no_travel() {
    assert_eq!(heading(level(), keys("")), Vec3::zero());
    assert_eq!(travel(level(), keys(""), 25 * UNIT, STEP), Vec3::zero());
    let mut camera = rig();
    camera_controller(&mut camera, &input("", false, vec![]), STEP);
    assert_eq!(camera, rig());
}

#[test]
fn opposite_keys_cancel() {
    let tilted = Vec3::new(300_000_000, -400_000_000, 800_000_000);
    for held in ["ws", "ad", "^v", "wsad", "wsad^v"] {
        assert_eq!(heading(tilted, keys(held)), Vec3::zero());
        assert_eq!(travel(tilted, keys(held), 25 * UNIT, STEP), Vec3::zero());
    }
    assert_eq!(heading(tilted, keys("wsd")), heading(tilted, keys("d")));
    assert_eq!(heading(tilted, keys("wad^")), heading(tilted, keys("w^")));
    assert_eq!(heading(tilted, keys("a^v")), heading(tilted, keys("a")));
    let mut camera = rig();
    camera_controller(&mut camera, &input("wsad", false, vec![]), STEP);
    assert_eq!(camera.position, rig().position);
}

#[test]
fn each_key_moves_along_its_direction() {
    let run = 416_666_650;
    assert_eq!(travel(level(), keys("w"), 25 * UNIT, STEP), Vec3::new(0, 0, -run));
    assert_eq!(travel(level(), keys("s"), 25 * UNIT, STEP), Vec3::new(0, 0, run));
    assert_eq!(travel(level(), keys("d"), 25 * UNIT, STEP), Vec3::new(run, 0, 0));
    assert_eq!(travel(level(), keys("a"), 25 * UNIT, STEP), Vec3::new(-run, 0, 0));
    assert_eq!(travel(level(), keys("^"), 25 * UNIT, STEP), Vec3::new(0, run, 0));
    assert_eq!(travel(level(), keys("v"), 25 * UNIT, STEP), Vec3::new(0, -run, 0));
}

#[test]
fn forward_and_right_are_unit_vectors_on_the_horizontal_plane() {
    let back = Vec3::new(300_000_000, -400_000_000, 800_000_000);
    assert_eq!(forward(back), Vec3::new(-351_123_441, 0, -936_329_177));
    assert_eq!(forward(level()), Vec3::new(0, 0, -UNIT));
    assert_eq!(forward(Vec3::new(0, 866_025_404, 500_000_000)), Vec3::new(0, 0, -UNIT));
    assert_eq!(heading(back, keys("w")), Vec3::new(-351_123_441, 0, -936_329_177));
    assert_eq!(heading(back, keys("s")), Vec3::new(351_123_441, 0, 936_329_177));
    assert_eq!(heading(back, keys("d")), Vec3::new(936_329_177, 0, -351_123_441));
    assert_eq!(heading(back, keys("a")), Vec3::new(-936_329_177, 0, 351_123_441));
    assert_eq!(heading(back, keys("wd^")), Vec3::new(585_205_736, UNIT, -1_287_452_618));
    let one = (UNIT as u128) * (UNIT as u128);
    let length_sq = forward(back).length_squared();
    assert!(length_sq <= one && one - length_sq < 4 * UNIT as u128);
    assert_eq!(
        travel(back, keys("w"), 25 * UNIT, 10_000_000),
        Vec3::new(-87_780_860, 0, -234_082_294)
    );
}

#[test]
fn a_steep_camera_moves_ahead_as_fast_as_a_level_one() {
    let steep = Vec3::new(0, 866_025_404, 500_000_000);
    assert_eq!(heading(steep, keys("w^")), Vec3::new(0, UNIT, -UNIT));
    let way = travel(steep, keys("w^"), 25 * UNIT, 10_000_000);
    assert_eq!(way, Vec3::new(0, 176_776_695, -176_776_695));
    let sideways = 25.0 * 0.01 / 2.0f64.sqrt();
    assert!((way.y as f64 / 1e9 - sideways).abs() < 1e-9);
    assert!((way.z as f64 / 1e9 + sideways).abs() < 1e-9);
}

#[test]
fn a_camera_that_looks_straight_down_has_no_forward() {
    let down = Vec3::new(0, UNIT, 0);
    assert_eq!(forward(down), Vec3::zero());
    assert_eq!(heading(down, keys("wd")), Vec3::zero());
    assert_eq!(heading(down, keys("wd^")), Vec3::new(0, UNIT, 0));
}

#[test]
fn diagonal_travel_is_not_faster() {
    let flat = travel(level(), keys("wd"), 25 * UNIT, STEP);
    assert_eq!(flat, Vec3::new(294_627_813, 0, -294_627_813));
    let solid = travel(level(), keys("wd^"), 25 * UNIT, STEP);
    assert_eq!(solid, Vec3::new(240_562_602, 240_562_602, -240_562_602));
    let straight = travel(level(), keys("w"), 25 * UNIT, STEP).length_squared();
    assert!(flat.length_squared() <= straight);
    assert!(solid.length_squared() <= straight);
}

#[test]
fn travel_grows_with_speed_and_step() {
    assert_eq!(travel(level(), keys("d"), 25 * UNIT, 1_000_000_000), Vec3::new(25 * UNIT, 0, 0));
    assert_eq!(travel(level(), keys("d"), 25 * UNIT, 0), Vec3::zero());
    assert_eq!(travel(level(), keys("d"), 0, STEP), Vec3::zero());
}

#[test]
fn a_long_frame_counts_as_a_sixtieth_of_a_second() {
    let motions = vec![MouseDelta { dx: -10 * UNIT, dy: 0 }];
    let mut long = rig();
    camera_controller(&mut long, &input("d", true, motions.clone()), 100_000_000);
    let mut capped = rig();
    camera_controller(&mut capped, &input("d", true, motions), STEP);
    assert_eq!(long, capped);
    assert_eq!(long.orientation.yaw, 333_333_320);
    assert!((long.orientation.yaw as f64 / 1e9 - 10.0 * 2.0 / 60.0).abs() < 1e-7);
    assert_eq!(long.orientation.pitch, 0);
    assert_eq!(long.position, Vec3::new(-50 * UNIT + 416_666_650, 30 * UNIT, 50 * UNIT));
    let mut short = rig();
    camera_controller(&mut short, &input("d", false, vec![]), 10_000_000);
    assert_eq!(short.position, Vec3::new(-50 * UNIT + 250_000_000, 30 * UNIT, 50 * UNIT));
}

#[test]
fn look_turns_against_the_motion() {
    let start = Orientation { back_axis: level(), yaw: 10, pitch: -20 };
    let turned = look(start, MouseDelta { dx: 3 * UNIT, dy: -1_500_000_000 }, 2 * UNIT, STEP);
    assert_eq!(
        turned,
        Orientation { back_axis: level(), yaw: 10 - 99_999_996, pitch: -20 + 49_999_998 }
    );
}

#[test]
fn pitch_stops_at_its_limit() {
    assert_eq!(PITCH_LIMIT, 1_540_000_000);
    let start = Orientation { back_axis: level(), yaw: 0, pitch: 0 };
    let up = look(start, MouseDelta { dx: 0, dy: -LIMIT }, 2 * UNIT, STEP);
    assert_eq!(up.pitch, PITCH_LIMIT);
    let down = look(start, MouseDelta { dx: 0, dy: LIMIT }, 2 * UNIT, STEP);
    assert_eq!(down.pitch, -PITCH_LIMIT);
    let wild = Orientation { back_axis: level(), yaw: 0, pitch: i64::MAX };
    assert_eq!(look(wild, MouseDelta { dx: 0, dy: 0 }, 2 * UNIT, STEP).pitch, PITCH_LIMIT);
    let nearly = Orientation { back_axis: level(), yaw: 0, pitch: PITCH_LIMIT - 10 };
    let nudged = look(nearly, MouseDelta { dx: 0, dy: -3 * UNIT }, 2 * UNIT, STEP);
    assert_eq!(nudged.pitch, PITCH_LIMIT);
    let mut camera = rig();
    let storm: Vec<MouseDelta> =
        (0..500).map(|k| MouseDelta { dx: k * UNIT, dy: -LIMIT + k }).collect();
    camera_controller(&mut camera, &input("", true, storm), u64::MAX);
    assert_eq!(camera.orientation.pitch, PITCH_LIMIT);
    assert!(camera.orientation.yaw >= -LIMIT);
}

#[test]
fn motions_turn_the_camera_in_order() {
    let motions = vec![
        MouseDelta { dx: 3 * UNIT, dy: 600 * UNIT },
        MouseDelta { dx: -UNIT, dy: -3 * UNIT },
    ];
    let mut camera = rig();
    camera_controller(&mut camera, &input("", true, motions), STEP);
    assert_eq!(camera.orientation.yaw, -99_999_996 + 33_333_332);
    assert_eq!(camera.orientation.pitch, -PITCH_LIMIT + 99_999_996);
    assert_eq!(camera.orientation.back_axis, level());
    assert_eq!(camera.sensitivity, 2 * UNIT);
    assert_eq!(camera.speed, 25 * UNIT);
}

#[test]
fn motions_are_left_aside_without_the_look_button() {
    let motions = vec![MouseDelta { dx: 3 * UNIT, dy: 3 * UNIT }];
    let mut camera = rig();
    camera_controller(&mut camera, &input("w", false, motions), STEP);
    assert_eq!(camera.orientation, rig().orientation);
    assert_eq!(camera.position, Vec3::new(-50 * UNIT, 30 * UNIT, 50 * UNIT - 416_666_650));
}

#[test]
fn the_camera_moves_and_turns_in_one_frame() {
    let motions = vec![MouseDelta { dx: 3 * UNIT, dy: -1_500_000_000 }];
    let mut camera = rig();
    camera_controller(&mut camera, &input("d^", true, motions), STEP);
    assert_eq!(
        camera.position,
        Vec3::new(-50 * UNIT + 294_627_813, 30 * UNIT + 294_627_813, 50 * UNIT)
    );
    assert_eq!(camera.orientation.yaw, -99_999_996);
    assert_eq!(camera.orientation.pitch, 49_999_998);
}
