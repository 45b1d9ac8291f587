//! The force accumulator: every unordered pair of bodies attracts, and each
//! body's velocity takes up the pull of every other.
//!
//! The pull follows an inverse-square law with the gravitational constant
//! 10 and a damping of 0.01. Two bodies closer than two units do not attract
//! at all: that is decided on the exact distance. The size of a pull is
//! taken from the offsets cut to a millionth of a unit, and is itself cut to
//! a billionth.

use vstd::prelude::*;
use crate::body::{all_wf, Body};
use crate::clock::{clamp_step, step_of, MAX_STEP_NANOS};
use crate::scalar::{ceil_sqrt, length_of, quotient, saturate, trunc_div, LIMIT};
use crate::vec3::Vec3;

verus! {

/// The raw units in a millionth, the grain to which the offsets that size a
/// pull are cut.
pub const GRAIN: i64 = 1_000;

/// The square of the least distance at which two bodies attract: two units,
/// squared, in squared raw units.
pub const MIN_DISTANCE_SQ: u128 = 4_000_000_000_000_000_000;

/// A bound, in squared millionths, under which the squared separation of two
/// bodies that attract never falls: the offsets of a pair two units apart,
/// each cut to a millionth.
pub const NEAREST_SQ: u128 = 3_999_987_000_000;

/// The gravitational constant 10 times the damping 0.01, brought to raw
/// units: with offsets in millionths, masses and pulls in billionths and the
/// step in nanoseconds, `10 * 0.01 * 1_000_000^2 / 1_000_000_000`.
pub const PULL_FACTOR: i128 = 100;

/// The way from the coordinate `from` to the coordinate `to`, in millionths,
/// rounded toward zero.
pub open spec fn offset_of(from: int, to: int) -> int {
    trunc_div(to - from, GRAIN as int)
}

/// The squared distance between two points, exactly, in squared raw units.
pub open spec fn distance_sq(a: Vec3, b: Vec3) -> int {
    (b.x - a.x) * (b.x - a.x) + (b.y - a.y) * (b.y - a.y) + (b.z - a.z) * (b.z - a.z)
}

/// The squared length of the offsets between two points, each cut to a
/// millionth, in squared millionths.
pub open spec fn separation_sq(a: Vec3, b: Vec3) -> int {
    offset_of(a.x as int, b.x as int) * offset_of(a.x as int, b.x as int) + offset_of(
        a.y as int,
        b.y as int,
    ) * offset_of(a.y as int, b.y as int) + offset_of(a.z as int, b.z as int) * offset_of(
        a.z as int,
        b.z as int,
    )
}

/// Whether two points are closer than the least distance at which bodies
/// attract: whether their exact distance is less than two units.
pub open spec fn too_close(a: Vec3, b: Vec3) -> bool {
    distance_sq(a, b) < MIN_DISTANCE_SQ
}

/// One component of the change of velocity that a mass at distance
/// `sqrt(dist_sq)` causes over `step` nanoseconds, where `offset` is that
/// component of the way to the mass: `offset / distance` times
/// `10 * mass / distance^2` times the step times 0.01, rounded toward zero.
/// Offset and distance are in millionths, the distance rounded up to a whole
/// one.
pub open spec fn pull_component(offset: int, mass: int, step: int, dist_sq: int) -> int {
    saturate(trunc_div(offset * mass * step * PULL_FACTOR, length_of(dist_sq) * dist_sq))
}

/// The change of velocity of a body at `from` that a body of mass `mass` at
/// `to` causes over `step` nanoseconds; none where the two are too close.
pub open spec fn pull_of(from: Vec3, to: Vec3, mass: int, step: int) -> Vec3 {
    if too_close(from, to) {
        Vec3::origin()
    } else {
        let d = separation_sq(from, to);
        Vec3 {
            x: pull_component(offset_of(from.x as int, to.x as int), mass, step, d) as i64,
            y: pull_component(offset_of(from.y as int, to.y as int), mass, step, d) as i64,
            z: pull_component(offset_of(from.z as int, to.z as int), mass, step, d) as i64,
        }
    }
}

/// `bodies` after the bodies at `i` and `j` have attracted each other for
/// `step` nanoseconds: only the velocities of those two change.
pub open spec fn pair_applied(bodies: Seq<Body>, i: int, j: int, step: int) -> Seq<Body> {
    let a = bodies[i];
    let b = bodies[j];
    let on_a = pull_of(a.position, b.position, b.mass as int, step);
    let on_b = pull_of(b.position, a.position, a.mass as int, step);
    bodies.update(i, Body { velocity: a.velocity.plus(on_a), ..a }).update(
        j,
        Body { velocity: b.velocity.plus(on_b), ..b },
    )
}

/// `bodies` after body `i` has been paired, in order, with each of the
/// bodies `i + 1`, ..., `upto - 1`.
pub open spec fn row_applied(bodies: Seq<Body>, i: int, upto: int, step: int) -> Seq<Body>
    decreases upto - i,
{
    if upto <= i + 1 {
        bodies
    } else {
        pair_applied(row_applied(bodies, i, upto - 1, step), i, upto - 1, step)
    }
}

/// `bodies` after each of the bodies `0`, ..., `rows - 1` has been paired, in
/// order, with every body behind it: each unordered pair once.
pub open spec fn pairs_applied(bodies: Seq<Body>, rows: int, step: int) -> Seq<Body>
    decreases rows,
{
    if rows <= 0 {
        bodies
    } else {
        let before = pairs_applied(bodies, rows - 1, step);
        row_applied(before, rows - 1, before.len() as int, step)
    }
}

/// The velocity that body `k` has gathered once each of the first `upto`
/// bodies but itself has pulled at it, in order, for `step` nanoseconds: each
/// pull is added to what the body had, and the sum stops at the edge of the
/// band.
pub open spec fn gathered(bodies: Seq<Body>, k: int, upto: int, step: int) -> Vec3
    decreases upto,
{
    if upto <= 0 {
        bodies[k].velocity
    } else {
        let other = upto - 1;
        let so_far = gathered(bodies, k, other, step);
        if other == k {
            so_far
        } else {
            so_far.plus(
                pull_of(bodies[k].position, bodies[other].position, bodies[other].mass as int, step),
            )
        }
    }
}

/// The place that body `k` has once the body at `gone` has left the list.
pub open spec fn place_without(k: int, gone: int) -> int {
    if k < gone {
        k
    } else {
        k - 1
    }
}

/// The change of velocity of a body at `from` that a body of mass `mass` at
/// `to` causes over `step` nanoseconds.
pub fn pull(from: Vec3, to: Vec3, mass: i64, step: u64) -> (dv: Vec3)
    requires
        from.wf(),
        to.wf(),
        0 < mass <= LIMIT,
        step <= MAX_STEP_NANOS,
    ensures
        dv == pull_of(from, to, mass as int, step as int),
        dv.wf(),
{
    let wx: i128 = to.x as i128 - from.x as i128;
    let wy: i128 = to.y as i128 - from.y as i128;
    let wz: i128 = to.z as i128 - from.z as i128;
    proof {
        lemma_way_square(wx as int);
        lemma_way_square(wy as int);
        lemma_way_square(wz as int);
    }
    let exact_sq: i128 = wx * wx + wy * wy + wz * wz;
    if exact_sq < MIN_DISTANCE_SQ as i128 {
        Vec3 { x: 0, y: 0, z: 0 }
    } else {
        let dx: i128 = wx / (GRAIN as i128);
        let dy: i128 = wy / (GRAIN as i128);
        let dz: i128 = wz / (GRAIN as i128);
        proof {
            lemma_offset_square(dx as int);
            lemma_offset_square(dy as int);
            lemma_offset_square(dz as int);
            lemma_attracting_pair_is_apart(from, to);
        }
        let dist_sq: i128 = dx * dx + dy * dy + dz * dz;
        let len: i128 = ceil_sqrt(dist_sq as u128) as i128;
        proof {
            lemma_length_bound(dist_sq as int, len as int);
            lemma_pull_fits(dx as int, mass as int, step as int, len as int, dist_sq as int);
            lemma_pull_fits(dy as int, mass as int, step as int, len as int, dist_sq as int);
            lemma_pull_fits(dz as int, mass as int, step as int, len as int, dist_sq as int);
        }
        let weight: i128 = mass as i128 * (step as i128 * PULL_FACTOR);
        let den: i128 = len * dist_sq;
        Vec3 {
            x: quotient(dx * weight, den),
            y: quotient(dy * weight, den),
            z: quotient(dz * weight, den),
        }
    }
}

/// Lets every unordered pair of bodies attract for the time step of a frame
/// that lasted `frame_nanos` nanoseconds: the pairs are taken once each, the
/// first body in order and for each first body the second in order, and only
/// velocities change.
pub fn gravity_system(bodies: &mut Vec<Body>, frame_nanos: u64)
    requires
        all_wf(old(bodies)@),
    ensures
        final(bodies)@ == pairs_applied(
            old(bodies)@,
            old(bodies)@.len() as int,
            step_of(frame_nanos as int),
        ),
        final(bodies)@.len() == old(bodies)@.len(),
        all_wf(final(bodies)@),
{
    let step: u64 = clamp_step(frame_nanos);
    let ghost before = bodies@;
    let n: usize = bodies.len();
    let mut i: usize = 0;
    while i < n
        invariant
            i <= n,
            n == before.len(),
            bodies@.len() == n,
            step <= MAX_STEP_NANOS,
            all_wf(bodies@),
            bodies@ == pairs_applied(before, i as int, step as int),
        decreases n - i,
    {
        let ghost row_start = bodies@;
        let mut j: usize = i + 1;
        while j < n
            invariant
                i < j <= n,
                n == row_start.len(),
                bodies@.len() == n,
                step <= MAX_STEP_NANOS,
                all_wf(bodies@),
                bodies@ == row_applied(row_start, i as int, j as int, step as int),
            decreases n - j,
        {
            let ghost pair_start = bodies@;
            let first_at = bodies[i].position;
            let second_at = bodies[j].position;
            let first_pull = pull(first_at, second_at, bodies[j].mass, step);
            let second_pull = pull(second_at, first_at, bodies[i].mass, step);
            let first_velocity = bodies[i].velocity.saturating_add(first_pull);
            let second_velocity = bodies[j].velocity.saturating_add(second_pull);
            bodies[i].velocity = first_velocity;
            bodies[j].velocity = second_velocity;
            proof {
                assert(bodies@ =~= pair_applied(pair_start, i as int, j as int, step as int));
                assert forall|k: int| 0 <= k < bodies@.len() implies (
                #[trigger] bodies@[k]).wf() by {
                    assert(pair_start[k].wf());
                }
            }
            j += 1;
        }
        i += 1;
    }
}

/// The distance between two points is the same from either end.
pub proof fn lemma_separation_symmetric(a: Vec3, b: Vec3)
    ensures
        distance_sq(a, b) == distance_sq(b, a),
        offset_of(b.x as int, a.x as int) == -offset_of(a.x as int, b.x as int),
        offset_of(b.y as int, a.y as int) == -offset_of(a.y as int, b.y as int),
        offset_of(b.z as int, a.z as int) == -offset_of(a.z as int, b.z as int),
        separation_sq(a, b) == separation_sq(b, a),
        too_close(a, b) == too_close(b, a),
{
    let ox = offset_of(a.x as int, b.x as int);
    let oy = offset_of(a.y as int, b.y as int);
    let oz = offset_of(a.z as int, b.z as int);
    assert(offset_of(b.x as int, a.x as int) == -ox);
    assert(offset_of(b.y as int, a.y as int) == -oy);
    assert(offset_of(b.z as int, a.z as int) == -oz);
    assert((-ox) * (-ox) == ox * ox && (-oy) * (-oy) == oy * oy && (-oz) * (-oz) == oz * oz)
        by (nonlinear_arith);
    assert((b.x - a.x) * (b.x - a.x) == (a.x - b.x) * (a.x - b.x)) by (nonlinear_arith);
    assert((b.y - a.y) * (b.y - a.y) == (a.y - b.y) * (a.y - b.y)) by (nonlinear_arith);
    assert((b.z - a.z) * (b.z - a.z) == (a.z - b.z) * (a.z - b.z)) by (nonlinear_arith);
}

/// Two bodies closer than two units leave each other's velocity alone: the
/// pair changes nothing.
pub proof fn lemma_close_pair_unchanged(bodies: Seq<Body>, i: int, j: int, step: int)
    requires
        0 <= i < bodies.len(),
        0 <= j < bodies.len(),
        bodies[i].wf(),
        bodies[j].wf(),
        too_close(bodies[i].position, bodies[j].position),
    ensures
        pair_applied(bodies, i, j, step) == bodies,
{
    lemma_separation_symmetric(bodies[i].position, bodies[j].position);
    assert(bodies[i].velocity.plus(Vec3::origin()) == bodies[i].velocity);
    assert(bodies[j].velocity.plus(Vec3::origin()) == bodies[j].velocity);
    assert(pair_applied(bodies, i, j, step) =~= bodies);
}

/// A pair changes no name, mass or position, and no body's count.
pub proof fn lemma_pair_keeps_places(bodies: Seq<Body>, i: int, j: int, step: int)
    requires
        0 <= i < bodies.len(),
        0 <= j < bodies.len(),
    ensures
        pair_applied(bodies, i, j, step).len() == bodies.len(),
        forall|k: int|
            0 <= k < bodies.len() ==> {
                let after = #[trigger] pair_applied(bodies, i, j, step)[k];
                after.name == bodies[k].name && after.mass == bodies[k].mass && after.position
                    == bodies[k].position
            },
        forall|k: int|
            0 <= k < bodies.len() && k != i && k != j ==> #[trigger] pair_applied(
                bodies,
                i,
                j,
                step,
            )[k] == bodies[k],
{
}

/// A row of pairs changes no name, mass or position.
pub proof fn lemma_row_keeps_places(bodies: Seq<Body>, i: int, upto: int, step: int)
    requires
        0 <= i < bodies.len(),
        upto <= bodies.len(),
    ensures
        row_applied(bodies, i, upto, step).len() == bodies.len(),
        forall|k: int|
            0 <= k < bodies.len() ==> {
                let after = #[trigger] row_applied(bodies, i, upto, step)[k];
                after.name == bodies[k].name && after.mass == bodies[k].mass && after.position
                    == bodies[k].position
            },
    decreases upto - i,
{
    if upto > i + 1 {
        lemma_row_keeps_places(bodies, i, upto - 1, step);
        lemma_pair_keeps_places(row_applied(bodies, i, upto - 1, step), i, upto - 1, step);
    }
}

/// The pass over all pairs changes velocities only: every body keeps its
/// name, its mass and its position.
pub proof fn lemma_pass_keeps_places(bodies: Seq<Body>, rows: int, step: int)
    requires
        rows <= bodies.len(),
    ensures
        pairs_applied(bodies, rows, step).len() == bodies.len(),
        forall|k: int|
            0 <= k < bodies.len() ==> {
                let after = #[trigger] pairs_applied(bodies, rows, step)[k];
                after.name == bodies[k].name && after.mass == bodies[k].mass && after.position
                    == bodies[k].position
            },
    decreases rows,
{
    if rows > 0 {
        lemma_pass_keeps_places(bodies, rows - 1, step);
        let before = pairs_applied(bodies, rows - 1, step);
        lemma_row_keeps_places(before, rows - 1, before.len() as int, step);
    }
}

/// How many of the bodies, counted from the first, have pulled at body `k`
/// once the rows before `i` are done and row `i` has paired its body with
/// those before `upto`.
spec fn reached(k: int, i: int, upto: int, n: int) -> int {
    if k < i {
        n
    } else if k == i {
        upto
    } else if k < upto {
        i + 1
    } else {
        i
    }
}

/// Whether `now` has the bodies of `first` at their places, with their
/// masses, and each with the velocity it has gathered from the bodies that
/// have reached it.
spec fn gathered_so_far(first: Seq<Body>, now: Seq<Body>, i: int, upto: int, step: int) -> bool {
    &&& now.len() == first.len()
    &&& forall|k: int|
        0 <= k < first.len() ==> {
            &&& (#[trigger] now[k]).position == first[k].position
            &&& now[k].mass == first[k].mass
            &&& now[k].velocity == gathered(
                first,
                k,
                reached(k, i, upto, first.len() as int),
                step,
            )
        }
}

/// One row of pairs lets each body gather the pulls that reach it in that
/// row.
proof fn lemma_row_gathers(first: Seq<Body>, start: Seq<Body>, i: int, upto: int, step: int)
    requires
        0 <= i < first.len(),
        i + 1 <= upto <= first.len(),
        gathered_so_far(first, start, i, i + 1, step),
    ensures
        gathered_so_far(first, row_applied(start, i, upto, step), i, upto, step),
    decreases upto - i,
{
    let n = first.len() as int;
    if upto > i + 1 {
        let j = upto - 1;
        lemma_row_gathers(first, start, i, j, step);
        let prev = row_applied(start, i, j, step);
        let after = pair_applied(prev, i, j, step);
        assert(after == row_applied(start, i, upto, step));
        assert(prev[i].position == first[i].position && prev[i].mass == first[i].mass);
        assert(prev[j].position == first[j].position && prev[j].mass == first[j].mass);
        assert forall|k: int| 0 <= k < first.len() implies {
            &&& (#[trigger] after[k]).position == first[k].position
            &&& after[k].mass == first[k].mass
            &&& after[k].velocity == gathered(first, k, reached(k, i, upto, n), step)
        } by {
            assert(prev[k].velocity == gathered(first, k, reached(k, i, j, n), step));
            if k == i {
                assert(reached(k, i, upto, n) == j + 1 && reached(k, i, j, n) == j);
            } else if k == j {
                assert(reached(k, i, upto, n) == i + 1 && reached(k, i, j, n) == i);
            } else {
                assert(after[k] == prev[k]);
                assert(reached(k, i, upto, n) == reached(k, i, j, n));
            }
        }
    }
}

/// The first `rows` rows of a pass let each body gather the pulls that reach
/// it in them.
proof fn lemma_rows_gather(bodies: Seq<Body>, rows: int, step: int)
    requires
        0 <= rows <= bodies.len(),
    ensures
        gathered_so_far(bodies, pairs_applied(bodies, rows, step), rows, rows + 1, step),
    decreases rows,
{
    let n = bodies.len() as int;
    if rows <= 0 {
        assert forall|k: int| 0 <= k < n implies (#[trigger] bodies[k]).velocity == gathered(
            bodies,
            k,
            reached(k, 0, 1, n),
            step,
        ) by {
            assert(gathered(bodies, k, 0, step) == bodies[k].velocity);
            if k == 0 {
                assert(gathered(bodies, k, 1, step) == bodies[k].velocity);
            }
        }
    } else {
        let i = rows - 1;
        lemma_rows_gather(bodies, i, step);
        let prev = pairs_applied(bodies, i, step);
        lemma_row_gathers(bodies, prev, i, n, step);
        let after = row_applied(prev, i, n, step);
        assert(after == pairs_applied(bodies, rows, step));
        assert forall|k: int| 0 <= k < n implies (#[trigger] after[k]).velocity == gathered(
            bodies,
            k,
            reached(k, rows, rows + 1, n),
            step,
        ) by {
            assert(after[k].velocity == gathered(bodies, k, reached(k, i, n, n), step));
            if k == rows {
                assert(gathered(bodies, k, rows + 1, step) == gathered(bodies, k, rows, step));
            }
        }
    }
}

/// What the force accumulator leaves behind, body by body: after the pass
/// each body has the velocity it had with the pull of every other body
/// added, each once, in the order of the list. The pulls depend on places and
/// masses only, not on velocities.
pub proof fn lemma_pass_gathers_every_pull(bodies: Seq<Body>, step: int, k: int)
    requires
        0 <= k < bodies.len(),
    ensures
        pairs_applied(bodies, bodies.len() as int, step)[k].velocity == gathered(
            bodies,
            k,
            bodies.len() as int,
            step,
        ),
{
    let n = bodies.len() as int;
    lemma_rows_gather(bodies, n, step);
    assert(reached(k, n, n + 1, n) == n);
}

/// What a body within the band has gathered lies within the band.
proof fn lemma_gathered_within(bodies: Seq<Body>, k: int, upto: int, step: int)
    requires
        0 <= k < bodies.len(),
        bodies[k].velocity.wf(),
    ensures
        gathered(bodies, k, upto, step).wf(),
    decreases upto,
{
    if upto > 0 {
        lemma_gathered_within(bodies, k, upto - 1, step);
    }
}

/// A body too close to body `k` adds nothing to what `k` gathers: it is what
/// `k` would gather without that body.
proof fn lemma_gathered_without(bodies: Seq<Body>, k: int, gone: int, upto: int, step: int)
    requires
        0 <= k < bodies.len(),
        0 <= gone < bodies.len(),
        k != gone,
        0 <= upto <= bodies.len(),
        bodies[k].velocity.wf(),
        too_close(bodies[k].position, bodies[gone].position),
    ensures
        gathered(bodies, k, upto, step) == gathered(
            bodies.remove(gone),
            place_without(k, gone),
            if upto <= gone {
                upto
            } else {
                upto - 1
            },
            step,
        ),
    decreases upto,
{
    if upto > 0 {
        lemma_gathered_without(bodies, k, gone, upto - 1, step);
        let rest = bodies.remove(gone);
        let other = upto - 1;
        assert(rest[place_without(k, gone)] == bodies[k]);
        if other == gone {
            lemma_gathered_within(bodies, k, other, step);
            let so_far = gathered(bodies, k, other, step);
            assert(so_far.plus(Vec3::origin()) == so_far);
        } else {
            assert(rest[place_without(other, gone)] == bodies[other]);
        }
    }
}

/// Two bodies closer than two units add nothing to each other's velocity,
/// whatever else is in the world: after a pass body `k` has the velocity that
/// the pass would give it without the close body.
pub proof fn lemma_close_partner_adds_nothing(bodies: Seq<Body>, k: int, gone: int, step: int)
    requires
        all_wf(bodies),
        0 <= k < bodies.len(),
        0 <= gone < bodies.len(),
        k != gone,
        too_close(bodies[k].position, bodies[gone].position),
    ensures
        pairs_applied(bodies, bodies.len() as int, step)[k].velocity == pairs_applied(
            bodies.remove(gone),
            bodies.len() - 1,
            step,
        )[place_without(k, gone)].velocity,
{
    let n = bodies.len() as int;
    let rest = bodies.remove(gone);
    assert(bodies[k].wf());
    lemma_pass_gathers_every_pull(bodies, step, k);
    lemma_pass_gathers_every_pull(rest, step, place_without(k, gone));
    lemma_gathered_without(bodies, k, gone, n, step);
}

/// Two bodies that attract are at least two units apart, so the offsets
/// between them, each cut to a millionth, span nearly as much.
pub proof fn lemma_attracting_pair_is_apart(a: Vec3, b: Vec3)
    requires
        !too_close(a, b),
    ensures
        NEAREST_SQ <= separation_sq(a, b),
{
    let ox = offset_of(a.x as int, b.x as int);
    let oy = offset_of(a.y as int, b.y as int);
    let oz = offset_of(a.z as int, b.z as int);
    let spread = ox * ox + oy * oy + oz * oz;
    assert(ox * ox >= 0 && oy * oy >= 0 && oz * oz >= 0) by (nonlinear_arith);
    if spread < NEAREST_SQ {
        lemma_cut_square(b.x - a.x, ox, spread);
        lemma_cut_square(b.y - a.y, oy, spread);
        lemma_cut_square(b.z - a.z, oz, spread);
    }
}

/// The square of a way whose cut to a millionth is `cut`, where the square of
/// the cut is under four units squared: it exceeds a million times the
/// square of the cut by less than eight units, in millionths.
proof fn lemma_cut_square(way: int, cut: int, spread: int)
    requires
        cut == trunc_div(way, GRAIN as int),
        0 <= cut * cut <= spread < 4_000_000_000_000,
    ensures
        way * way < 1_000_000 * (cut * cut) + 4_000_001_000_000,
{
    assert(-2_000_000 < cut < 2_000_000) by (nonlinear_arith)
        requires
            cut * cut < 4_000_000_000_000,
    ;
    let reach = if cut >= 0 {
        cut + 1
    } else {
        1 - cut
    };
    assert(-1000 * reach < way < 1000 * reach);
    assert(way * way < 1_000_000 * (reach * reach)) by (nonlinear_arith)
        requires
            -1000 * reach < way < 1000 * reach,
            reach >= 1,
    ;
    assert(reach * reach <= cut * cut + 4_000_001) by (nonlinear_arith)
        requires
            reach == cut + 1 || reach == 1 - cut,
            -2_000_000 < cut < 2_000_000,
    ;
}

/// The square of the way between two stored scalars.
proof fn lemma_way_square(d: int)
    requires
        -2 * LIMIT <= d <= 2 * LIMIT,
    ensures
        0 <= d * d <= 4 * LIMIT * LIMIT,
{
    assert(0 <= d * d <= 4_000_000_000_000_000_000_000_000_000_000) by (nonlinear_arith)
        requires
            -2_000_000_000_000_000 <= d <= 2_000_000_000_000_000,
    ;
}

/// The square of an offset between two stored scalars.
proof fn lemma_offset_square(d: int)
    requires
        -2_000_000_000_000 <= d <= 2_000_000_000_000,
    ensures
        0 <= d * d <= 4_000_000_000_000_000_000_000_000,
{
    assert(0 <= d * d <= 4_000_000_000_000_000_000_000_000) by (nonlinear_arith)
        requires
            -2_000_000_000_000 <= d <= 2_000_000_000_000,
    ;
}

/// The length of an offset between two points of the world.
proof fn lemma_length_bound(dist_sq: int, len: int)
    requires
        0 < dist_sq <= 12_000_000_000_000_000_000_000_000,
        len > 0,
        (len - 1) * (len - 1) < dist_sq,
    ensures
        len <= 4_000_000_000_000,
{
    assert(len <= 4_000_000_000_000) by (nonlinear_arith)
        requires
            len > 0,
            (len - 1) * (len - 1) < dist_sq,
            dist_sq <= 12_000_000_000_000_000_000_000_000,
    ;
}

/// Neither the dividend nor the divisor of a pull leaves 127 bits.
proof fn lemma_pull_fits(offset: int, mass: int, step: int, len: int, dist_sq: int)
    requires
        -2_000_000_000_000 <= offset <= 2_000_000_000_000,
        0 < mass <= LIMIT,
        0 <= step <= MAX_STEP_NANOS,
        0 < len <= 4_000_000_000_000,
        NEAREST_SQ <= dist_sq <= 12_000_000_000_000_000_000_000_000,
    ensures
        0 <= step * PULL_FACTOR <= 1_666_666_600,
        0 <= mass * (step * PULL_FACTOR) <= 1_666_666_600_000_000_000_000_000,
        -3_333_333_200_000_000_000_000_000_000_000_000_000 <= offset * (mass * (step
            * PULL_FACTOR)) <= 3_333_333_200_000_000_000_000_000_000_000_000_000,
        0 < len * dist_sq <= 48_000_000_000_000_000_000_000_000_000_000_000_000,
        offset * (mass * (step * PULL_FACTOR)) == offset * mass * step * PULL_FACTOR,
{
    let rate = step * PULL_FACTOR;
    assert(0 <= rate <= 1_666_666_600);
    let weight = mass * rate;
    assert(0 <= weight <= 1_666_666_600_000_000_000_000_000) by (nonlinear_arith)
        requires
            weight == mass * rate,
            0 < mass <= 1_000_000_000_000_000,
            0 <= rate <= 1_666_666_600,
    ;
    assert(-3_333_333_200_000_000_000_000_000_000_000_000_000 <= offset * weight
        <= 3_333_333_200_000_000_000_000_000_000_000_000_000) by (nonlinear_arith)
        requires
            -2_000_000_000_000 <= offset <= 2_000_000_000_000,
            0 <= weight <= 1_666_666_600_000_000_000_000_000,
    ;
    assert(0 < len * dist_sq <= 48_000_000_000_000_000_000_000_000_000_000_000_000)
        by (nonlinear_arith)
        requires
            0 < len <= 4_000_000_000_000,
            0 < dist_sq <= 12_000_000_000_000_000_000_000_000,
    ;
    assert(offset * (mass * (step * 100)) == offset * mass * step * 100) by (nonlinear_arith);
}

} // verus!
