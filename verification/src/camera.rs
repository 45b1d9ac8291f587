//! The camera rig: keys move the camera, the mouse turns it.
//!
//! The rig holds the camera as plain values. `back_axis` is the camera's
//! backward axis as the renderer knows it at the start of a frame; yaw and
//! pitch are the angles, in billionths of a radian, from which the renderer
//! rebuilds the orientation afterwards (yaw about the world's up axis, then
//! pitch about the right axis).

use vstd::prelude::*;
use crate::clock::{clamp_step, step_of};
use crate::scalar::{
    clamp_to_limit, in_range, lemma_length_covers, length_of, over_time, over_time_of, product,
    product_of, saturate, UNIT,
};
use crate::vec3::{lemma_unit_is_short, Vec3};

verus! {

/// The steepest pitch the camera takes, up or down: 1.54 radians, just short
/// of a right angle.
pub const PITCH_LIMIT: i64 = 1_540_000_000;

/// Which movement keys are held.
#[derive(Clone, Copy, Debug, PartialEq, Eq, Structural)]
pub struct KeyState {
    pub forward: bool,
    pub backward: bool,
    pub left: bool,
    pub right: bool,
    pub up: bool,
    pub down: bool,
}

/// One buffered mouse motion, in billionths of a pixel.
#[derive(Clone, Copy, Debug, PartialEq, Eq, Structural)]
pub struct MouseDelta {
    pub dx: i64,
    pub dy: i64,
}

/// What the input devices reported for one frame.
#[derive(Debug)]
pub struct InputSnapshot {
    pub keys: KeyState,
    pub look_held: bool,
    pub motions: Vec<MouseDelta>,
}

/// The camera's orientation as plain values.
#[derive(Clone, Copy, Debug, PartialEq, Eq, Structural)]
pub struct Orientation {
    pub back_axis: Vec3,
    pub yaw: i64,
    pub pitch: i64,
}

/// The camera with its controller settings.
#[derive(Clone, Copy, Debug, PartialEq, Eq, Structural)]
pub struct CameraRig {
    pub position: Vec3,
    pub orientation: Orientation,
    pub sensitivity: i64,
    pub speed: i64,
}

/// The net movement along one axis: 1 where only the key for its positive
/// direction is held, -1 where only the opposite key is, 0 otherwise.
pub open spec fn axis_of(toward: bool, away: bool) -> int {
    (if toward { 1int } else { 0int }) - (if away { 1int } else { 0int })
}

/// The unit vector that points ahead of the camera on the horizontal plane:
/// the backward axis reversed, laid flat and brought to unit length. A camera
/// that looks straight up or down has none, and this is the origin.
pub open spec fn forward_of(back_axis: Vec3) -> Vec3 {
    Vec3::saturated(-back_axis.x, 0, -back_axis.z).unit()
}

/// The unit vector to the right of the camera on the horizontal plane:
/// forward turned a quarter to the right.
pub open spec fn right_of(back_axis: Vec3) -> Vec3 {
    let ahead = forward_of(back_axis);
    Vec3 { x: (-ahead.z) as i64, y: 0, z: ahead.x }
}

/// The sum of the directions of the held keys, before it is brought to unit
/// length: forward and back along the forward vector, right and left along
/// the right vector, up and down along the world's up axis.
pub open spec fn heading_of(back_axis: Vec3, keys: KeyState) -> Vec3 {
    let ahead = axis_of(keys.forward, keys.backward);
    let aside = axis_of(keys.right, keys.left);
    let above = axis_of(keys.up, keys.down);
    let f = forward_of(back_axis);
    let r = right_of(back_axis);
    Vec3::saturated(ahead * f.x + aside * r.x, above * UNIT, ahead * f.z + aside * r.z)
}

/// The way the camera travels in a time step of `nanos` nanoseconds: the
/// heading at unit length, times the speed, over the step.
pub open spec fn travel_of(back_axis: Vec3, keys: KeyState, speed: int, nanos: int) -> Vec3 {
    heading_of(back_axis, keys).unit().times(speed).during(nanos)
}

/// `pitch`, stopped at the steepest pitch the camera takes.
pub open spec fn clamp_pitch(pitch: int) -> int {
    if pitch < -PITCH_LIMIT {
        -(PITCH_LIMIT as int)
    } else if pitch > PITCH_LIMIT {
        PITCH_LIMIT as int
    } else {
        pitch
    }
}

/// The angle by which a mouse motion of `motion` turns the camera in a time
/// step of `nanos` nanoseconds.
pub open spec fn turn_of(motion: int, sensitivity: int, nanos: int) -> int {
    over_time_of(product_of(motion, sensitivity), nanos)
}

/// The orientation after one mouse motion: yaw and pitch each fall by the
/// turn of their component, and the pitch stops at its limit.
pub open spec fn look_step(o: Orientation, motion: MouseDelta, sensitivity: int, nanos: int)
    -> Orientation {
    Orientation {
        back_axis: o.back_axis,
        yaw: saturate(o.yaw - turn_of(motion.dx as int, sensitivity, nanos)) as i64,
        pitch: clamp_pitch(o.pitch - turn_of(motion.dy as int, sensitivity, nanos)) as i64,
    }
}

/// The orientation after the first `count` of `motions`, taken in order.
pub open spec fn looked(
    o: Orientation,
    motions: Seq<MouseDelta>,
    count: int,
    sensitivity: int,
    nanos: int,
) -> Orientation
    decreases count,
{
    if count <= 0 {
        o
    } else {
        look_step(
            looked(o, motions, count - 1, sensitivity, nanos),
            motions[count - 1],
            sensitivity,
            nanos,
        )
    }
}

/// The rig after one time step of `nanos` nanoseconds in which `keys` were
/// held and `motions` arrived: it has travelled, and, where the look button
/// was held, turned by each motion in order.
pub open spec fn controlled(
    rig: CameraRig,
    keys: KeyState,
    look_held: bool,
    motions: Seq<MouseDelta>,
    nanos: int,
) -> CameraRig {
    CameraRig {
        position: rig.position.plus(
            travel_of(rig.orientation.back_axis, keys, rig.speed as int, nanos),
        ),
        orientation: if look_held {
            looked(rig.orientation, motions, motions.len() as int, rig.sensitivity as int, nanos)
        } else {
            rig.orientation
        },
        sensitivity: rig.sensitivity,
        speed: rig.speed,
    }
}

/// The net movement along one axis.
pub fn axis(toward: bool, away: bool) -> (net: i8)
    ensures
        net == axis_of(toward, away),
        -1 <= net <= 1,
{
    if toward == away {
        0
    } else if toward {
        1
    } else {
        -1
    }
}

/// `value` taken `net` times, for a net movement of -1, 0 or 1.
fn along(net: i8, value: i64) -> (r: i128)
    requires
        -1 <= net <= 1,
    ensures
        r == net * value,
{
    assert(net == 1 ==> net * value == value) by (nonlinear_arith);
    assert(net == -1 ==> net * value == -value) by (nonlinear_arith);
    assert(net == 0 ==> net * value == 0) by (nonlinear_arith);
    if net == 1 {
        value as i128
    } else if net == -1 {
        -(value as i128)
    } else {
        0
    }
}

/// The unit vector that points ahead of the camera on the horizontal plane.
pub fn forward(back_axis: Vec3) -> (v: Vec3)
    ensures
        v == forward_of(back_axis),
        v.wf(),
{
    let flat = Vec3 {
        x: clamp_to_limit(-(back_axis.x as i128)),
        y: 0,
        z: clamp_to_limit(-(back_axis.z as i128)),
    };
    flat.normalize_or_zero()
}

/// The sum of the directions of the held keys.
pub fn heading(back_axis: Vec3, keys: KeyState) -> (v: Vec3)
    ensures
        v == heading_of(back_axis, keys),
        v.wf(),
{
    let ahead: i8 = axis(keys.forward, keys.backward);
    let aside: i8 = axis(keys.right, keys.left);
    let above: i8 = axis(keys.up, keys.down);
    let f = forward(back_axis);
    let right = Vec3 { x: -f.z, y: 0, z: f.x };
    let x: i128 = along(ahead, f.x) + along(aside, right.x);
    let y: i128 = along(above, UNIT);
    let z: i128 = along(ahead, f.z) + along(aside, right.z);
    Vec3 { x: clamp_to_limit(x), y: clamp_to_limit(y), z: clamp_to_limit(z) }
}

/// The way the camera travels in a time step of `step_nanos` nanoseconds.
pub fn travel(back_axis: Vec3, keys: KeyState, speed: i64, step_nanos: u64) -> (v: Vec3)
    ensures
        v == travel_of(back_axis, keys, speed as int, step_nanos as int),
        v.wf(),
{
    heading(back_axis, keys).normalize_or_zero().scaled(speed).over(step_nanos)
}

/// The orientation after one mouse motion in a time step of `step_nanos`
/// nanoseconds.
pub fn look(o: Orientation, motion: MouseDelta, sensitivity: i64, step_nanos: u64) -> (turned:
    Orientation)
    ensures
        turned == look_step(o, motion, sensitivity as int, step_nanos as int),
        -PITCH_LIMIT <= turned.pitch <= PITCH_LIMIT,
        in_range(turned.yaw as int),
{
    let yaw_turn: i64 = over_time(product(motion.dx, sensitivity), step_nanos);
    let pitch_turn: i64 = over_time(product(motion.dy, sensitivity), step_nanos);
    let yaw: i64 = clamp_to_limit(o.yaw as i128 - yaw_turn as i128);
    let raw_pitch: i128 = o.pitch as i128 - pitch_turn as i128;
    let pitch: i64 = if raw_pitch < -(PITCH_LIMIT as i128) {
        -PITCH_LIMIT
    } else if raw_pitch > PITCH_LIMIT as i128 {
        PITCH_LIMIT
    } else {
        raw_pitch as i64
    };
    Orientation { back_axis: o.back_axis, yaw, pitch }
}

/// Advances the camera by one frame that lasted `frame_nanos` nanoseconds,
/// over the time step of that frame. The held keys move it along the heading
/// they add up to, at the rig's speed. While the look button is held, each
/// buffered mouse motion turns it, in order; otherwise the motions are left
/// aside and the orientation stays. A turn changes yaw and pitch only: the
/// backward axis is left as it was given, and the caller renews it from yaw
/// and pitch before the next frame.
pub fn camera_controller(rig: &mut CameraRig, input: &InputSnapshot, frame_nanos: u64)
    requires
        old(rig).position.wf(),
    ensures
        *final(rig) == controlled(
            *old(rig),
            input.keys,
            input.look_held,
            input.motions@,
            step_of(frame_nanos as int),
        ),
        final(rig).position.wf(),
        final(rig).orientation.back_axis == old(rig).orientation.back_axis,
{
    let step: u64 = clamp_step(frame_nanos);
    let way = travel(rig.orientation.back_axis, input.keys, rig.speed, step);
    rig.position = rig.position.saturating_add(way);
    if input.look_held {
        let ghost start = rig.orientation;
        let mut k: usize = 0;
        while k < input.motions.len()
            invariant
                k <= input.motions@.len(),
                step == step_of(frame_nanos as int),
                rig.position == old(rig).position.plus(
                    travel_of(
                        old(rig).orientation.back_axis,
                        input.keys,
                        old(rig).speed as int,
                        step as int,
                    ),
                ),
                rig.position.wf(),
                rig.sensitivity == old(rig).sensitivity,
                rig.speed == old(rig).speed,
                start == old(rig).orientation,
                rig.orientation == looked(
                    start,
                    input.motions@,
                    k as int,
                    rig.sensitivity as int,
                    step as int,
                ),
            decreases input.motions@.len() - k,
        {
            rig.orientation = look(rig.orientation, input.motions[k], rig.sensitivity, step);
            k += 1;
        }
        proof {
            lemma_pitch_stays_within(
                start,
                input.motions@,
                input.motions@.len() as int,
                rig.sensitivity as int,
                step as int,
            );
        }
    }
}

/// Forward and right lie on the horizontal plane, at a right angle to each
/// other, equally long and never longer than one unit.
pub proof fn lemma_forward_and_right(back_axis: Vec3)
    ensures
        forward_of(back_axis).y == 0,
        right_of(back_axis).y == 0,
        forward_of(back_axis).dot(right_of(back_axis)) == 0,
        right_of(back_axis).norm_sq() == forward_of(back_axis).norm_sq(),
        forward_of(back_axis).norm_sq() <= UNIT * UNIT,
        forward_of(back_axis).wf(),
        right_of(back_axis).wf(),
{
    let flat = Vec3::saturated(-back_axis.x, 0, -back_axis.z);
    let f = forward_of(back_axis);
    let r = right_of(back_axis);
    lemma_unit_is_short(flat);
    if flat.norm_sq() != 0 {
        assert(flat.x * flat.x >= 0 && flat.z * flat.z >= 0) by (nonlinear_arith);
        lemma_length_covers(flat.norm_sq());
        let len = length_of(flat.norm_sq());
        assert(flat.y * UNIT == 0 && 0int / len == 0) by (nonlinear_arith)
            requires
                flat.y == 0,
                len > 0,
        ;
    }
    assert(f.y == 0);
    assert(r.x == -f.z && r.z == f.x);
    assert(f.x * r.x + f.y * r.y + f.z * r.z == 0 && r.x * r.x + r.y * r.y + r.z * r.z == f.x
        * f.x + f.y * f.y + f.z * f.z) by (nonlinear_arith)
        requires
            r.x == -f.z,
            r.z == f.x,
            r.y == 0,
            f.y == 0,
    ;
}

/// With no key held, or with each held key's opposite held too, the camera
/// does not travel.
pub proof fn lemma_balanced_keys_rest(back_axis: Vec3, keys: KeyState, speed: int, nanos: int)
    requires
        keys.forward == keys.backward,
        keys.left == keys.right,
        keys.up == keys.down,
    ensures
        heading_of(back_axis, keys) == Vec3::origin(),
        travel_of(back_axis, keys, speed, nanos) == Vec3::origin(),
{
    let h = heading_of(back_axis, keys);
    let ahead = axis_of(keys.forward, keys.backward);
    let aside = axis_of(keys.right, keys.left);
    let above = axis_of(keys.up, keys.down);
    let f = forward_of(back_axis);
    let r = right_of(back_axis);
    assert(ahead * f.x + aside * r.x == 0 && above * UNIT == 0 && ahead * f.z + aside * r.z == 0)
        by (nonlinear_arith)
        requires
            ahead == 0,
            aside == 0,
            above == 0,
    ;
    assert(h == Vec3::origin());
    assert(h.norm_sq() == 0) by (nonlinear_arith)
        requires
            h.x == 0,
            h.y == 0,
            h.z == 0,
    ;
    assert(h.unit() == Vec3::origin());
    assert(0 * speed == 0) by (nonlinear_arith);
    assert(Vec3::origin().times(speed) == Vec3::origin());
    assert(0 * nanos == 0) by (nonlinear_arith);
    assert(Vec3::origin().during(nanos) == Vec3::origin());
}

/// A key held together with its opposite counts as neither being held.
pub proof fn lemma_opposite_keys_cancel(back_axis: Vec3, keys: KeyState)
    ensures
        keys.forward && keys.backward ==> heading_of(back_axis, keys) == heading_of(
            back_axis,
            KeyState { forward: false, backward: false, ..keys },
        ),
        keys.left && keys.right ==> heading_of(back_axis, keys) == heading_of(
            back_axis,
            KeyState { left: false, right: false, ..keys },
        ),
        keys.up && keys.down ==> heading_of(back_axis, keys) == heading_of(
            back_axis,
            KeyState { up: false, down: false, ..keys },
        ),
{
}

/// A rig whose keys are balanced stays where it is.
pub proof fn lemma_balanced_keys_keep_position(
    rig: CameraRig,
    keys: KeyState,
    look_held: bool,
    motions: Seq<MouseDelta>,
    nanos: int,
)
    requires
        rig.position.wf(),
        keys.forward == keys.backward,
        keys.left == keys.right,
        keys.up == keys.down,
    ensures
        controlled(rig, keys, look_held, motions, nanos).position == rig.position,
{
    lemma_balanced_keys_rest(rig.orientation.back_axis, keys, rig.speed as int, nanos);
}

/// Whether `pitch` is one the camera takes.
pub open spec fn pitch_within(pitch: int) -> bool {
    -PITCH_LIMIT <= pitch <= PITCH_LIMIT
}

/// However far the mouse moves, the pitch stays within its limit: after any
/// motion it lies within, and without one it stays where it was.
pub proof fn lemma_pitch_stays_within(
    o: Orientation,
    motions: Seq<MouseDelta>,
    count: int,
    sensitivity: int,
    nanos: int,
)
    requires
        count <= motions.len(),
    ensures
        count >= 1 ==> pitch_within(looked(o, motions, count, sensitivity, nanos).pitch as int),
        pitch_within(o.pitch as int) ==> pitch_within(
            looked(o, motions, count, sensitivity, nanos).pitch as int,
        ),
        looked(o, motions, count, sensitivity, nanos).back_axis == o.back_axis,
    decreases count,
{
    if count >= 1 {
        lemma_pitch_stays_within(o, motions, count - 1, sensitivity, nanos);
    }
}

/// A rig whose pitch lies within its limit keeps it there through any frame.
pub proof fn lemma_frame_keeps_pitch_within(
    rig: CameraRig,
    keys: KeyState,
    look_held: bool,
    motions: Seq<MouseDelta>,
    nanos: int,
)
    requires
        pitch_within(rig.orientation.pitch as int),
    ensures
        pitch_within(controlled(rig, keys, look_held, motions, nanos).orientation.pitch as int),
{
    lemma_pitch_stays_within(
        rig.orientation,
        motions,
        motions.len() as int,
        rig.sensitivity as int,
        nanos,
    );
}

} // verus!
