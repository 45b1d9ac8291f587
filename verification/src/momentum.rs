//! What the force accumulator does to velocities and to momentum.
//!
//! Each velocity takes up the pull of every other body, each once. The pulls
//! of a pair are opposite. With equal masses they cancel exactly; with
//! unequal ones each is rounded toward zero on its own, so that the momentum
//! of the pair may drift by less than the larger mass, in raw units.

use vstd::prelude::*;
use crate::body::{all_wf, Body};
use crate::gravity::{
    gathered, lemma_attracting_pair_is_apart, lemma_pass_gathers_every_pull,
    lemma_separation_symmetric, offset_of, pair_applied, pairs_applied, pull_component, pull_of,
    row_applied, separation_sq, too_close, NEAREST_SQ, PULL_FACTOR,
};
use crate::clock::MAX_STEP_NANOS;
use crate::scalar::{lemma_length_covers, lemma_trunc_div_bounds, length_of, trunc_div, LIMIT};
use crate::vec3::Vec3;

verus! {

/// A bound on the magnitude of a component of a pull: somewhat above the
/// pull of the heaviest mass, two units away, over the longest step.
pub const MAX_PULL: i64 = 416_670_000_000;

/// The rounded quotient of a pull, before it is held to the band.
pub open spec fn pull_quotient(offset: int, mass: int, step: int, dist_sq: int) -> int {
    trunc_div(offset * mass * step * PULL_FACTOR, length_of(dist_sq) * dist_sq)
}

/// A pull between bodies of the world stays far inside the band of stored
/// scalars, so that nothing is cut off it.
pub proof fn lemma_pull_small(offset: int, mass: int, step: int, dist_sq: int)
    requires
        offset * offset <= dist_sq,
        NEAREST_SQ <= dist_sq,
        0 < mass <= LIMIT,
        0 <= step <= MAX_STEP_NANOS,
    ensures
        -MAX_PULL <= pull_quotient(offset, mass, step, dist_sq) <= MAX_PULL,
        pull_component(offset, mass, step, dist_sq) == pull_quotient(offset, mass, step, dist_sq),
        0 < length_of(dist_sq) * dist_sq,
{
    lemma_length_covers(dist_sq);
    let len = length_of(dist_sq);
    let den = len * dist_sq;
    assert(den > 0) by (nonlinear_arith)
        requires
            den == len * dist_sq,
            len > 0,
            dist_sq > 0,
    ;
    let weight = mass * step * PULL_FACTOR;
    assert(0 <= weight <= 1_666_666_600_000_000_000_000_000) by (nonlinear_arith)
        requires
            weight == mass * step * 100,
            0 < mass <= 1_000_000_000_000_000,
            0 <= step <= 16_666_666,
    ;
    let num = offset * mass * step * PULL_FACTOR;
    assert(num == offset * weight) by (nonlinear_arith)
        requires
            num == offset * mass * step * 100,
            weight == mass * step * 100,
    ;
    assert(-len <= offset <= len) by (nonlinear_arith)
        requires
            offset * offset <= dist_sq,
            dist_sq <= len * len,
            len > 0,
    ;
    let q = trunc_div(num, den);
    lemma_trunc_div_bounds(num, den);
    if offset >= 0 {
        assert(num >= 0) by (nonlinear_arith)
            requires
                num == offset * weight,
                offset >= 0,
                weight >= 0,
        ;
        lemma_quotient_small(q, num, den, offset, weight, len, dist_sq);
    } else {
        assert(num <= 0) by (nonlinear_arith)
            requires
                num == offset * weight,
                offset < 0,
                weight >= 0,
        ;
        assert(-num == (-offset) * weight) by (nonlinear_arith)
            requires
                num == offset * weight,
        ;
        assert((-q) * den == -(q * den)) by (nonlinear_arith);
        assert(q <= 0) by (nonlinear_arith)
            requires
                num <= 0,
                -den < num - q * den <= 0,
                den > 0,
        ;
        lemma_quotient_small(-q, -num, den, -offset, weight, len, dist_sq);
    }
}

/// The quotient of a dividend `offset * weight` by `len * dist_sq`, where the
/// offset is no longer than `len`, is at most `weight / dist_sq`.
proof fn lemma_quotient_small(
    q: int,
    num: int,
    den: int,
    offset: int,
    weight: int,
    len: int,
    dist_sq: int,
)
    requires
        num == offset * weight,
        den == len * dist_sq,
        0 <= offset <= len,
        0 <= weight <= 1_666_666_600_000_000_000_000_000,
        NEAREST_SQ <= dist_sq,
        len > 0,
        num >= 0,
        0 <= num - q * den < den,
    ensures
        0 <= q <= MAX_PULL,
{
    assert(q >= 0) by (nonlinear_arith)
        requires
            num >= 0,
            num - q * den < den,
            den > 0,
    ;
    assert(num <= len * weight) by (nonlinear_arith)
        requires
            num == offset * weight,
            0 <= offset <= len,
            0 <= weight,
    ;
    assert(q * dist_sq <= weight) by (nonlinear_arith)
        requires
            q * (len * dist_sq) <= len * weight,
            len > 0,
    ;
    assert(q * 3_999_987_000_000 <= q * dist_sq) by (nonlinear_arith)
        requires
            q >= 0,
            3_999_987_000_000 <= dist_sq,
    ;
}

/// Newton's third law for one component of the pulls of a pair. The pull on
/// the first body, along `offset`, and the pull on the second, along the
/// reversed offset, point in opposite directions. Weighted by the masses of
/// the bodies they act on they cancel, up to the rounding of each: by less
/// than the larger mass. With equal masses they cancel exactly.
pub proof fn lemma_component_balance(
    offset: int,
    mass_a: int,
    mass_b: int,
    step: int,
    dist_sq: int,
)
    requires
        offset * offset <= dist_sq,
        NEAREST_SQ <= dist_sq,
        0 < mass_a <= LIMIT,
        0 < mass_b <= LIMIT,
        0 <= step <= MAX_STEP_NANOS,
    ensures
        ({
            let on_a = pull_component(offset, mass_b, step, dist_sq);
            let on_b = pull_component(-offset, mass_a, step, dist_sq);
            &&& offset >= 0 ==> on_a >= 0 && on_b <= 0
            &&& offset <= 0 ==> on_a <= 0 && on_b >= 0
            &&& -mass_a < mass_a * on_a + mass_b * on_b < mass_a || -mass_b < mass_a * on_a
                + mass_b * on_b < mass_b
            &&& mass_a == mass_b ==> on_b == -on_a
        }),
{
    assert((-offset) * (-offset) == offset * offset) by (nonlinear_arith);
    lemma_pull_small(offset, mass_b, step, dist_sq);
    lemma_pull_small(-offset, mass_a, step, dist_sq);
    let den = length_of(dist_sq) * dist_sq;
    let x = offset * step * PULL_FACTOR;
    let num_a = offset * mass_b * step * PULL_FACTOR;
    let num_b = (-offset) * mass_a * step * PULL_FACTOR;
    assert(num_a == x * mass_b && num_b == -(x * mass_a)) by (nonlinear_arith)
        requires
            x == offset * step * 100,
            num_a == offset * mass_b * step * 100,
            num_b == (-offset) * mass_a * step * 100,
    ;
    let pa = trunc_div(x * mass_b, den);
    let pb = trunc_div(x * mass_a, den);
    assert(trunc_div(num_b, den) == -pb);
    lemma_trunc_div_bounds(x * mass_b, den);
    lemma_trunc_div_bounds(x * mass_a, den);
    let ra = x * mass_b - pa * den;
    let rb = x * mass_a - pb * den;
    assert(offset >= 0 ==> x >= 0) by (nonlinear_arith)
        requires
            x == offset * step * 100,
            step >= 0,
    ;
    assert(offset <= 0 ==> x <= 0) by (nonlinear_arith)
        requires
            x == offset * step * 100,
            step >= 0,
    ;
    assert(x >= 0 ==> x * mass_a >= 0 && x * mass_b >= 0) by (nonlinear_arith)
        requires
            mass_a > 0,
            mass_b > 0,
    ;
    assert(x <= 0 ==> x * mass_a <= 0 && x * mass_b <= 0) by (nonlinear_arith)
        requires
            mass_a > 0,
            mass_b > 0,
    ;
    assert((mass_a * pa - mass_b * pb) * den == mass_b * rb - mass_a * ra) by (nonlinear_arith)
        requires
            ra == x * mass_b - pa * den,
            rb == x * mass_a - pb * den,
    ;
    let drift = mass_a * pa - mass_b * pb;
    if x >= 0 {
        assert(pa >= 0 && pb >= 0) by (nonlinear_arith)
            requires
                0 <= ra < den,
                0 <= rb < den,
                ra == x * mass_b - pa * den,
                rb == x * mass_a - pb * den,
                x * mass_b >= 0,
                x * mass_a >= 0,
                den > 0,
        ;
        assert(-mass_a < drift < mass_b) by (nonlinear_arith)
            requires
                drift * den == mass_b * rb - mass_a * ra,
                0 <= ra < den,
                0 <= rb < den,
                mass_a > 0,
                mass_b > 0,
                den > 0,
        ;
    } else {
        assert(pa <= 0 && pb <= 0) by (nonlinear_arith)
            requires
                -den < ra <= 0,
                -den < rb <= 0,
                ra == x * mass_b - pa * den,
                rb == x * mass_a - pb * den,
                x * mass_b <= 0,
                x * mass_a <= 0,
                den > 0,
        ;
        assert(-mass_b < drift < mass_a) by (nonlinear_arith)
            requires
                drift * den == mass_b * rb - mass_a * ra,
                -den < ra <= 0,
                -den < rb <= 0,
                mass_a > 0,
                mass_b > 0,
                den > 0,
        ;
    }
    assert(mass_a * pa + mass_b * (-pb) == drift) by (nonlinear_arith)
        requires
            drift == mass_a * pa - mass_b * pb,
    ;
}

/// The component of `v` along an axis: 0 for x, 1 for y, 2 for z.
pub open spec fn component(v: Vec3, axis: int) -> int {
    if axis == 0 {
        v.x as int
    } else if axis == 1 {
        v.y as int
    } else {
        v.z as int
    }
}

/// Whether two opposite pulls, on bodies of masses `mass_a` and `mass_b`,
/// obey Newton's third law: they point in opposite directions; weighted by
/// the masses they cancel up to rounding, by less than the larger mass; with
/// equal masses they cancel exactly.
pub open spec fn balanced(on_a: int, on_b: int, mass_a: int, mass_b: int) -> bool {
    let drift = mass_a * on_a + mass_b * on_b;
    &&& (on_a >= 0 && on_b <= 0) || (on_a <= 0 && on_b >= 0)
    &&& -mass_a < drift < mass_a || -mass_b < drift < mass_b
    &&& mass_a == mass_b ==> on_b == -on_a
}

/// Newton's third law for a pair: along every axis the pull on the body at
/// `a` and the pull on the body at `b` are balanced, and neither exceeds the
/// largest pull.
pub proof fn lemma_pulls_balance(
    a: Vec3,
    b: Vec3,
    mass_a: int,
    mass_b: int,
    step: int,
    axis: int,
)
    requires
        a.wf(),
        b.wf(),
        0 < mass_a <= LIMIT,
        0 < mass_b <= LIMIT,
        0 <= step <= MAX_STEP_NANOS,
        0 <= axis < 3,
    ensures
        balanced(
            component(pull_of(a, b, mass_b, step), axis),
            component(pull_of(b, a, mass_a, step), axis),
            mass_a,
            mass_b,
        ),
        -MAX_PULL <= component(pull_of(a, b, mass_b, step), axis) <= MAX_PULL,
        -MAX_PULL <= component(pull_of(b, a, mass_a, step), axis) <= MAX_PULL,
{
    lemma_separation_symmetric(a, b);
    if too_close(a, b) {
        assert(mass_a * 0 + mass_b * 0 == 0) by (nonlinear_arith);
    } else {
        let d = separation_sq(a, b);
        lemma_attracting_pair_is_apart(a, b);
        let ox = offset_of(a.x as int, b.x as int);
        let oy = offset_of(a.y as int, b.y as int);
        let oz = offset_of(a.z as int, b.z as int);
        assert(ox * ox <= d && oy * oy <= d && oz * oz <= d) by (nonlinear_arith)
            requires
                d == ox * ox + oy * oy + oz * oz,
        ;
        if axis == 0 {
            lemma_component_balance(ox, mass_a, mass_b, step, d);
            lemma_pull_small(ox, mass_b, step, d);
            assert((-ox) * (-ox) == ox * ox) by (nonlinear_arith);
            lemma_pull_small(-ox, mass_a, step, d);
            assert(offset_of(b.x as int, a.x as int) == -ox);
        } else if axis == 1 {
            lemma_component_balance(oy, mass_a, mass_b, step, d);
            lemma_pull_small(oy, mass_b, step, d);
            assert((-oy) * (-oy) == oy * oy) by (nonlinear_arith);
            lemma_pull_small(-oy, mass_a, step, d);
            assert(offset_of(b.y as int, a.y as int) == -oy);
        } else {
            lemma_component_balance(oz, mass_a, mass_b, step, d);
            lemma_pull_small(oz, mass_b, step, d);
            assert((-oz) * (-oz) == oz * oz) by (nonlinear_arith);
            lemma_pull_small(-oz, mass_a, step, d);
            assert(offset_of(b.z as int, a.z as int) == -oz);
        }
    }
}

/// The momentum of the first `upto` bodies along an axis: the sum of their
/// masses times their velocities, in squared raw units.
pub open spec fn momentum(bodies: Seq<Body>, axis: int, upto: int) -> int
    decreases upto,
{
    if upto <= 0 {
        0
    } else {
        momentum(bodies, axis, upto - 1) + bodies[upto - 1].mass * component(
            bodies[upto - 1].velocity,
            axis,
        )
    }
}

/// The momentum of all bodies along an axis.
pub open spec fn total_momentum(bodies: Seq<Body>, axis: int) -> int {
    momentum(bodies, axis, bodies.len() as int)
}

/// Whether all bodies have the same mass.
pub open spec fn equal_masses(bodies: Seq<Body>) -> bool {
    forall|i: int, j: int|
        0 <= i < bodies.len() && 0 <= j < bodies.len() ==> (#[trigger] bodies[i]).mass == (
        #[trigger] bodies[j]).mass
}

/// The most by which one pair can shift the momentum along an axis, where no
/// mass exceeds `heaviest`: nothing between equal masses, else less than the
/// heaviest mass.
pub open spec fn pair_drift(bodies: Seq<Body>, heaviest: int) -> int {
    if equal_masses(bodies) {
        0
    } else {
        heaviest - 1
    }
}

/// The number of pairs in the first `rows` rows of a pass over `n` bodies.
pub open spec fn pair_count(n: int, rows: int) -> int
    decreases rows,
{
    if rows <= 0 {
        0
    } else {
        pair_count(n, rows - 1) + (n - rows)
    }
}

/// The number of pairs with body `k` that a pass over `n` bodies has still to
/// take, once the rows before `i` are done and row `i` has paired its body
/// with those before `upto`.
spec fn pending(k: int, i: int, upto: int, n: int) -> int {
    if k < i {
        0
    } else if k == i {
        n - upto
    } else if k < upto {
        n - 2 - i
    } else {
        n - 1 - i
    }
}

/// Whether every velocity has room for the pulls that its body has still to
/// take: no component can reach the edge of the band.
spec fn has_room(bodies: Seq<Body>, i: int, upto: int) -> bool {
    forall|k: int, axis: int|
        0 <= k < bodies.len() && 0 <= axis < 3 ==> {
            let c = #[trigger] component(bodies[k].velocity, axis);
            let spare = pending(k, i, upto, bodies.len() as int) * MAX_PULL;
            -LIMIT + spare <= c <= LIMIT - spare
        }
}

/// Whether every velocity has room for the pulls of a whole pass: no
/// component lies within as many largest pulls of the edge of the band as
/// the body has partners.
pub open spec fn has_room_for_pass(bodies: Seq<Body>) -> bool {
    forall|k: int, axis: int|
        0 <= k < bodies.len() && 0 <= axis < 3 ==> {
            let c = #[trigger] component(bodies[k].velocity, axis);
            let spare = (bodies.len() - 1) * MAX_PULL;
            -LIMIT + spare <= c <= LIMIT - spare
        }
}

/// Bodies that differ from others in the velocities of two of them differ in
/// momentum by the masses of the two times the changes.
proof fn lemma_momentum_change(
    before: Seq<Body>,
    after: Seq<Body>,
    axis: int,
    upto: int,
    i: int,
    j: int,
    di: int,
    dj: int,
)
    requires
        after.len() == before.len(),
        0 <= upto <= before.len(),
        0 <= i < before.len(),
        0 <= j < before.len(),
        i != j,
        forall|k: int| 0 <= k < before.len() ==> (#[trigger] after[k]).mass == before[k].mass,
        forall|k: int|
            0 <= k < before.len() && k != i && k != j ==> (#[trigger] after[k]).velocity
                == before[k].velocity,
        component(after[i].velocity, axis) == component(before[i].velocity, axis) + di,
        component(after[j].velocity, axis) == component(before[j].velocity, axis) + dj,
    ensures
        momentum(after, axis, upto) == momentum(before, axis, upto) + (if i < upto {
            before[i].mass * di
        } else {
            0
        }) + (if j < upto {
            before[j].mass * dj
        } else {
            0
        }),
    decreases upto,
{
    if upto > 0 {
        lemma_momentum_change(before, after, axis, upto - 1, i, j, di, dj);
        let k = upto - 1;
        let m = before[k].mass as int;
        let v = component(before[k].velocity, axis);
        assert(after[k].mass == before[k].mass);
        if k == i {
            assert(m * (v + di) == m * v + m * di) by (nonlinear_arith);
        } else if k == j {
            assert(m * (v + dj) == m * v + m * dj) by (nonlinear_arith);
        } else {
            assert(after[k].velocity == before[k].velocity);
        }
    }
}

/// One pair, between bodies whose velocities have room for a pull: both
/// velocities change by exactly their pulls, and the momentum along every
/// axis by no more than the drift of a pair.
proof fn lemma_pair_momentum(bodies: Seq<Body>, i: int, j: int, step: int, heaviest: int)
    requires
        all_wf(bodies),
        0 <= i < j < bodies.len(),
        0 <= step <= MAX_STEP_NANOS,
        forall|k: int| 0 <= k < bodies.len() ==> (#[trigger] bodies[k]).mass <= heaviest,
        forall|axis: int|
            0 <= axis < 3 ==> -LIMIT + MAX_PULL <= #[trigger] component(bodies[i].velocity, axis)
                <= LIMIT - MAX_PULL,
        forall|axis: int|
            0 <= axis < 3 ==> -LIMIT + MAX_PULL <= #[trigger] component(bodies[j].velocity, axis)
                <= LIMIT - MAX_PULL,
    ensures
        ({
            let after = pair_applied(bodies, i, j, step);
            &&& after.len() == bodies.len()
            &&& all_wf(after)
            &&& equal_masses(bodies) == equal_masses(after)
            &&& forall|k: int| 0 <= k < bodies.len() ==> (#[trigger] after[k]).mass <= heaviest
            &&& forall|k: int|
                0 <= k < bodies.len() && k != i && k != j ==> #[trigger] after[k] == bodies[k]
            &&& forall|axis: int|
                0 <= axis < 3 ==> component(bodies[i].velocity, axis) - MAX_PULL
                    <= #[trigger] component(after[i].velocity, axis) <= component(
                    bodies[i].velocity,
                    axis,
                ) + MAX_PULL
            &&& forall|axis: int|
                0 <= axis < 3 ==> component(bodies[j].velocity, axis) - MAX_PULL
                    <= #[trigger] component(after[j].velocity, axis) <= component(
                    bodies[j].velocity,
                    axis,
                ) + MAX_PULL
            &&& forall|axis: int|
                0 <= axis < 3 ==> -pair_drift(bodies, heaviest) <= #[trigger] total_momentum(
                    after,
                    axis,
                ) - total_momentum(bodies, axis) <= pair_drift(bodies, heaviest)
        }),
{
    let after = pair_applied(bodies, i, j, step);
    let a = bodies[i];
    let b = bodies[j];
    assert(a.wf() && b.wf());
    let on_a = pull_of(a.position, b.position, b.mass as int, step);
    let on_b = pull_of(b.position, a.position, a.mass as int, step);
    assert forall|k: int| 0 <= k < bodies.len() implies (#[trigger] after[k]).mass
        == bodies[k].mass by {}
    assert(equal_masses(bodies) == equal_masses(after)) by {
        if equal_masses(bodies) {
            assert forall|p: int, q: int|
                0 <= p < after.len() && 0 <= q < after.len() implies (#[trigger] after[p]).mass == (
            #[trigger] after[q]).mass by {
                assert(bodies[p].mass == bodies[q].mass);
            }
        }
        if equal_masses(after) {
            assert forall|p: int, q: int|
                0 <= p < bodies.len() && 0 <= q < bodies.len() implies (
            #[trigger] bodies[p]).mass == (#[trigger] bodies[q]).mass by {
                assert(after[p].mass == after[q].mass);
            }
        }
    }
    assert forall|axis: int| 0 <= axis < 3 implies component(a.velocity, axis) - MAX_PULL
        <= #[trigger] component(after[i].velocity, axis) <= component(a.velocity, axis)
        + MAX_PULL by {
        lemma_pulls_balance(a.position, b.position, a.mass as int, b.mass as int, step, axis);
        assert(-LIMIT + MAX_PULL <= component(a.velocity, axis) <= LIMIT - MAX_PULL);
        assert(component(after[i].velocity, axis) == component(a.velocity, axis) + component(
            on_a,
            axis,
        ));
    }
    assert forall|axis: int| 0 <= axis < 3 implies component(b.velocity, axis) - MAX_PULL
        <= #[trigger] component(after[j].velocity, axis) <= component(b.velocity, axis)
        + MAX_PULL by {
        lemma_pulls_balance(a.position, b.position, a.mass as int, b.mass as int, step, axis);
        assert(-LIMIT + MAX_PULL <= component(b.velocity, axis) <= LIMIT - MAX_PULL);
        assert(component(after[j].velocity, axis) == component(b.velocity, axis) + component(
            on_b,
            axis,
        ));
    }
    assert forall|axis: int| 0 <= axis < 3 implies -pair_drift(bodies, heaviest)
        <= #[trigger] total_momentum(after, axis) - total_momentum(bodies, axis) <= pair_drift(
        bodies,
        heaviest,
    ) by {
        lemma_pulls_balance(a.position, b.position, a.mass as int, b.mass as int, step, axis);
        let da = component(on_a, axis);
        let db = component(on_b, axis);
        assert(-LIMIT + MAX_PULL <= component(a.velocity, axis) <= LIMIT - MAX_PULL);
        assert(-LIMIT + MAX_PULL <= component(b.velocity, axis) <= LIMIT - MAX_PULL);
        assert(component(after[i].velocity, axis) == component(a.velocity, axis) + da);
        assert(component(after[j].velocity, axis) == component(b.velocity, axis) + db);
        lemma_momentum_change(bodies, after, axis, bodies.len() as int, i, j, da, db);
        if equal_masses(bodies) {
            assert(a.mass == b.mass);
            assert(a.mass * da + b.mass * db == 0) by (nonlinear_arith)
                requires
                    a.mass == b.mass,
                    db == -da,
            ;
        } else {
            assert(a.mass <= heaviest && b.mass <= heaviest);
        }
    }
    assert forall|k: int| 0 <= k < after.len() implies (#[trigger] after[k]).wf() by {
        assert(bodies[k].wf());
        assert(component(after[i].velocity, 0) == after[i].velocity.x);
        assert(component(after[i].velocity, 1) == after[i].velocity.y);
        assert(component(after[i].velocity, 2) == after[i].velocity.z);
        assert(component(after[j].velocity, 0) == after[j].velocity.x);
        assert(component(after[j].velocity, 1) == after[j].velocity.y);
        assert(component(after[j].velocity, 2) == after[j].velocity.z);
    }
}

/// One row of pairs, from bodies whose velocities have room for all pulls
/// still to come.
proof fn lemma_row_momentum(start: Seq<Body>, i: int, upto: int, step: int, heaviest: int)
    requires
        all_wf(start),
        0 <= i < start.len(),
        i + 1 <= upto <= start.len(),
        0 <= step <= MAX_STEP_NANOS,
        forall|k: int| 0 <= k < start.len() ==> (#[trigger] start[k]).mass <= heaviest,
        has_room(start, i, i + 1),
    ensures
        ({
            let after = row_applied(start, i, upto, step);
            &&& after.len() == start.len()
            &&& all_wf(after)
            &&& equal_masses(after) == equal_masses(start)
            &&& forall|k: int| 0 <= k < start.len() ==> (#[trigger] after[k]).mass <= heaviest
            &&& has_room(after, i, upto)
            &&& forall|axis: int|
                0 <= axis < 3 ==> -((upto - i - 1) * pair_drift(start, heaviest))
                    <= #[trigger] total_momentum(after, axis) - total_momentum(start, axis) <= (upto
                    - i - 1) * pair_drift(start, heaviest)
        }),
    decreases upto - i,
{
    let n = start.len() as int;
    let d = pair_drift(start, heaviest);
    if upto <= i + 1 {
        assert((upto - i - 1) * d == 0) by (nonlinear_arith)
            requires
                upto - i - 1 == 0,
        ;
    } else {
        let j = upto - 1;
        lemma_row_momentum(start, i, j, step, heaviest);
        let prev = row_applied(start, i, j, step);
        assert forall|axis: int| 0 <= axis < 3 implies -LIMIT + MAX_PULL <= #[trigger] component(
            prev[i].velocity,
            axis,
        ) <= LIMIT - MAX_PULL by {
            assert(pending(i, i, j, n) >= 1);
        }
        assert forall|axis: int| 0 <= axis < 3 implies -LIMIT + MAX_PULL <= #[trigger] component(
            prev[j].velocity,
            axis,
        ) <= LIMIT - MAX_PULL by {
            assert(pending(j, i, j, n) >= 1);
        }
        lemma_pair_momentum(prev, i, j, step, heaviest);
        let after = pair_applied(prev, i, j, step);
        assert(after == row_applied(start, i, upto, step));
        assert forall|k: int, axis: int| 0 <= k < after.len() && 0 <= axis < 3 implies {
            let c = #[trigger] component(after[k].velocity, axis);
            let spare = pending(k, i, upto, after.len() as int) * MAX_PULL;
            -LIMIT + spare <= c <= LIMIT - spare
        } by {
            let before = component(prev[k].velocity, axis);
            assert(-LIMIT + pending(k, i, j, n) * MAX_PULL <= before <= LIMIT - pending(k, i, j, n)
                * MAX_PULL);
            if k == i {
                assert(pending(k, i, upto, n) == pending(k, i, j, n) - 1);
            } else if k == j {
                assert(pending(k, i, upto, n) == pending(k, i, j, n) - 1);
            } else {
                assert(after[k] == prev[k]);
                assert(pending(k, i, upto, n) == pending(k, i, j, n));
            }
        }
        assert(pair_drift(prev, heaviest) == d);
        assert((upto - i - 1) * d == (j - i - 1) * d + d) by (nonlinear_arith)
            requires
                j == upto - 1,
        ;
        assert forall|axis: int| 0 <= axis < 3 implies -((upto - i - 1) * d)
            <= #[trigger] total_momentum(after, axis) - total_momentum(start, axis) <= (upto - i
            - 1) * d by {
            assert(-((j - i - 1) * d) <= total_momentum(prev, axis) - total_momentum(start, axis)
                <= (j - i - 1) * d);
            assert(-d <= total_momentum(after, axis) - total_momentum(prev, axis) <= d);
        }
    }
}

/// The first `rows` rows of a pass, from bodies whose velocities have room
/// for all pulls of the pass.
proof fn lemma_rows_momentum(bodies: Seq<Body>, rows: int, step: int, heaviest: int)
    requires
        all_wf(bodies),
        0 <= rows <= bodies.len(),
        0 <= step <= MAX_STEP_NANOS,
        forall|k: int| 0 <= k < bodies.len() ==> (#[trigger] bodies[k]).mass <= heaviest,
        has_room(bodies, 0, 1),
    ensures
        ({
            let after = pairs_applied(bodies, rows, step);
            &&& after.len() == bodies.len()
            &&& all_wf(after)
            &&& equal_masses(after) == equal_masses(bodies)
            &&& forall|k: int| 0 <= k < bodies.len() ==> (#[trigger] after[k]).mass <= heaviest
            &&& has_room(after, rows, rows + 1)
            &&& forall|axis: int|
                0 <= axis < 3 ==> -(pair_count(bodies.len() as int, rows) * pair_drift(
                    bodies,
                    heaviest,
                )) <= #[trigger] total_momentum(after, axis) - total_momentum(bodies, axis)
                    <= pair_count(bodies.len() as int, rows) * pair_drift(bodies, heaviest)
        }),
    decreases rows,
{
    let n = bodies.len() as int;
    let d = pair_drift(bodies, heaviest);
    if rows <= 0 {
        assert(pair_count(n, rows) * d == 0) by (nonlinear_arith)
            requires
                pair_count(n, rows) == 0,
        ;
    } else {
        let i = rows - 1;
        lemma_rows_momentum(bodies, i, step, heaviest);
        let prev = pairs_applied(bodies, i, step);
        lemma_row_momentum(prev, i, n, step, heaviest);
        let after = row_applied(prev, i, n, step);
        assert(after == pairs_applied(bodies, rows, step));
        assert forall|k: int, axis: int| 0 <= k < after.len() && 0 <= axis < 3 implies {
            let c = #[trigger] component(after[k].velocity, axis);
            let spare = pending(k, rows, rows + 1, after.len() as int) * MAX_PULL;
            -LIMIT + spare <= c <= LIMIT - spare
        } by {
            assert(-LIMIT + pending(k, i, n, n) * MAX_PULL <= component(after[k].velocity, axis)
                <= LIMIT - pending(k, i, n, n) * MAX_PULL);
            assert(pending(k, rows, rows + 1, n) == pending(k, i, n, n));
        }
        assert(pair_drift(prev, heaviest) == d);
        assert(pair_count(n, rows) * d == pair_count(n, i) * d + (n - i - 1) * d)
            by (nonlinear_arith)
            requires
                pair_count(n, rows) == pair_count(n, i) + (n - rows),
                i == rows - 1,
        ;
        assert forall|axis: int| 0 <= axis < 3 implies -(pair_count(n, rows) * d)
            <= #[trigger] total_momentum(after, axis) - total_momentum(bodies, axis) <= pair_count(
            n,
            rows,
        ) * d by {
            assert(-(pair_count(n, i) * d) <= total_momentum(prev, axis) - total_momentum(
                bodies,
                axis,
            ) <= pair_count(n, i) * d);
            assert(-((n - i - 1) * d) <= total_momentum(after, axis) - total_momentum(prev, axis)
                <= (n - i - 1) * d);
        }
    }
}

/// The first `rows` rows of a pass over `n` bodies hold
/// `rows * (2 * n - rows - 1) / 2` pairs.
pub proof fn lemma_pair_count_rows(n: int, rows: int)
    requires
        0 <= rows <= n,
    ensures
        2 * pair_count(n, rows) == rows * (2 * n - rows - 1),
    decreases rows,
{
    if rows > 0 {
        lemma_pair_count_rows(n, rows - 1);
        assert(rows * (2 * n - rows - 1) == (rows - 1) * (2 * n - (rows - 1) - 1) + 2 * (n - rows))
            by (nonlinear_arith);
    } else {
        assert(rows * (2 * n - rows - 1) == 0) by (nonlinear_arith)
            requires
                rows == 0,
        ;
    }
}

/// A pass over `n` bodies takes each unordered pair once: `n * (n - 1) / 2`
/// pairs in all.
pub proof fn lemma_pair_count(n: int)
    requires
        0 <= n,
    ensures
        2 * pair_count(n, n) == n * (n - 1),
{
    lemma_pair_count_rows(n, n);
    assert(n * (2 * n - n - 1) == n * (n - 1)) by (nonlinear_arith);
}

/// The force accumulator conserves momentum. Over a complete pass, from
/// bodies whose velocities have room for its pulls, the total momentum along
/// every axis stays exactly what it was where all masses are equal. Where
/// they are not, each pull is rounded on its own, and the total shifts by no
/// more than the drift of a pair for each pair taken.
pub proof fn lemma_pass_conserves_momentum(
    bodies: Seq<Body>,
    step: int,
    heaviest: int,
    axis: int,
)
    requires
        all_wf(bodies),
        has_room_for_pass(bodies),
        0 <= step <= MAX_STEP_NANOS,
        forall|k: int| 0 <= k < bodies.len() ==> (#[trigger] bodies[k]).mass <= heaviest,
        0 <= axis < 3,
    ensures
        ({
            let after = pairs_applied(bodies, bodies.len() as int, step);
            let pairs = pair_count(bodies.len() as int, bodies.len() as int);
            &&& equal_masses(bodies) ==> total_momentum(after, axis) == total_momentum(
                bodies,
                axis,
            )
            &&& -(pairs * pair_drift(bodies, heaviest)) <= total_momentum(after, axis)
                - total_momentum(bodies, axis) <= pairs * pair_drift(bodies, heaviest)
        }),
{
    let n = bodies.len() as int;
    lemma_room_for_pass(bodies);
    lemma_rows_momentum(bodies, n, step, heaviest);
    let after = pairs_applied(bodies, n, step);
    assert(-(pair_count(n, n) * pair_drift(bodies, heaviest)) <= total_momentum(after, axis)
        - total_momentum(bodies, axis) <= pair_count(n, n) * pair_drift(bodies, heaviest));
    if equal_masses(bodies) {
        assert(pair_count(n, n) * 0 == 0) by (nonlinear_arith);
    }
}

/// The sum, along an axis, of the pulls on body `k` from each of the first
/// `upto` bodies but itself, over `step` nanoseconds.
pub open spec fn pulls_on(bodies: Seq<Body>, k: int, axis: int, upto: int, step: int) -> int
    decreases upto,
{
    if upto <= 0 {
        0
    } else {
        let other = upto - 1;
        pulls_on(bodies, k, axis, other, step) + (if other == k {
            0
        } else {
            component(
                pull_of(bodies[k].position, bodies[other].position, bodies[other].mass as int, step),
                axis,
            )
        })
    }
}

/// How many of the first `upto` bodies pull at body `k`: all but itself.
spec fn partners(k: int, upto: int) -> int {
    if k < upto {
        upto - 1
    } else {
        upto
    }
}

/// With room for a pass no pull is cut off at the edge of the band: what a
/// body has gathered from the first `upto` bodies is its velocity plus the
/// sum of their pulls.
proof fn lemma_gathered_is_sum(bodies: Seq<Body>, k: int, axis: int, upto: int, step: int)
    requires
        all_wf(bodies),
        has_room_for_pass(bodies),
        0 <= step <= MAX_STEP_NANOS,
        0 <= k < bodies.len(),
        0 <= axis < 3,
        0 <= upto <= bodies.len(),
    ensures
        component(gathered(bodies, k, upto, step), axis) == component(bodies[k].velocity, axis)
            + pulls_on(bodies, k, axis, upto, step),
        -(partners(k, upto) * MAX_PULL) <= pulls_on(bodies, k, axis, upto, step) <= partners(
            k,
            upto,
        ) * MAX_PULL,
    decreases upto,
{
    if upto > 0 {
        let other = upto - 1;
        lemma_gathered_is_sum(bodies, k, axis, other, step);
        if other != k {
            let n = bodies.len() as int;
            let start = component(bodies[k].velocity, axis);
            assert(-LIMIT + (n - 1) * MAX_PULL <= start <= LIMIT - (n - 1) * MAX_PULL);
            assert(bodies[k].wf() && bodies[other].wf());
            lemma_pulls_balance(
                bodies[k].position,
                bodies[other].position,
                bodies[k].mass as int,
                bodies[other].mass as int,
                step,
                axis,
            );
            assert(partners(k, other) <= n - 2);
        }
    }
}

/// The force accumulator adds to each velocity the pull of every other body,
/// each once. From bodies whose velocities have room for the pulls of a
/// pass, the velocity of body `k` after the pass is, along every axis, what
/// it was plus the sum of the pulls from all the others.
pub proof fn lemma_pass_adds_every_pull(bodies: Seq<Body>, step: int, k: int, axis: int)
    requires
        all_wf(bodies),
        has_room_for_pass(bodies),
        0 <= step <= MAX_STEP_NANOS,
        0 <= k < bodies.len(),
        0 <= axis < 3,
    ensures
        component(pairs_applied(bodies, bodies.len() as int, step)[k].velocity, axis) == component(
            bodies[k].velocity,
            axis,
        ) + pulls_on(bodies, k, axis, bodies.len() as int, step),
{
    lemma_pass_gathers_every_pull(bodies, step, k);
    lemma_gathered_is_sum(bodies, k, axis, bodies.len() as int, step);
}

/// Room for a pass is room for the pulls that every body has still to take
/// at its start.
proof fn lemma_room_for_pass(bodies: Seq<Body>)
    requires
        has_room_for_pass(bodies),
    ensures
        has_room(bodies, 0, 1),
{
    let n = bodies.len() as int;
    assert forall|k: int, a: int| 0 <= k < bodies.len() && 0 <= a < 3 implies {
        let c = #[trigger] component(bodies[k].velocity, a);
        let spare = pending(k, 0, 1, n) * MAX_PULL;
        -LIMIT + spare <= c <= LIMIT - spare
    } by {
        assert(pending(k, 0, 1, n) == n - 1);
    }
}

/// A pull points to the other body and lies along the way to it, up to
/// rounding: each component is the offset times one factor, the same for all
/// three, cut to a whole raw unit on the side of zero. So it is nothing only
/// where its exact value comes to less than one raw unit.
pub proof fn lemma_pull_attracts(offset: int, mass: int, step: int, dist_sq: int)
    requires
        offset * offset <= dist_sq,
        NEAREST_SQ <= dist_sq,
        0 < mass <= LIMIT,
        0 <= step <= MAX_STEP_NANOS,
    ensures
        ({
            let pull = pull_component(offset, mass, step, dist_sq);
            let exact = offset * mass * step * PULL_FACTOR;
            let divisor = length_of(dist_sq) * dist_sq;
            &&& offset >= 0 ==> pull >= 0
            &&& offset <= 0 ==> pull <= 0
            &&& exact >= divisor ==> pull >= 1
            &&& exact <= -divisor ==> pull <= -1
            &&& divisor > 0
            &&& exact >= 0 ==> 0 <= exact - pull * divisor < divisor
            &&& exact <= 0 ==> -divisor < exact - pull * divisor <= 0
        }),
{
    lemma_pull_small(offset, mass, step, dist_sq);
    lemma_component_balance(offset, mass, mass, step, dist_sq);
    let exact = offset * mass * step * PULL_FACTOR;
    let divisor = length_of(dist_sq) * dist_sq;
    let pull = trunc_div(exact, divisor);
    lemma_trunc_div_bounds(exact, divisor);
    assert(exact >= divisor ==> pull >= 1) by (nonlinear_arith)
        requires
            divisor > 0,
            exact >= 0 ==> 0 <= exact - pull * divisor < divisor,
    ;
    assert(exact <= -divisor ==> pull <= -1) by (nonlinear_arith)
        requires
            divisor > 0,
            exact <= 0 ==> -divisor < exact - pull * divisor <= 0,
    ;
}

/// Attraction, for a pair that is not too close: along every axis the pull
/// on the body at `a` has the sign of the way to `b`, and is at least one raw
/// unit wherever its exact value is.
pub proof fn lemma_pull_points_at_partner(a: Vec3, b: Vec3, mass: int, step: int, axis: int)
    requires
        a.wf(),
        b.wf(),
        !too_close(a, b),
        0 < mass <= LIMIT,
        0 <= step <= MAX_STEP_NANOS,
        0 <= axis < 3,
    ensures
        ({
            let way = offset_of(component(a, axis), component(b, axis));
            let pull = component(pull_of(a, b, mass, step), axis);
            let exact = way * mass * step * PULL_FACTOR;
            let divisor = length_of(separation_sq(a, b)) * separation_sq(a, b);
            &&& way >= 0 ==> pull >= 0
            &&& way <= 0 ==> pull <= 0
            &&& exact >= divisor ==> pull >= 1
            &&& exact <= -divisor ==> pull <= -1
        }),
{
    let d = separation_sq(a, b);
    lemma_attracting_pair_is_apart(a, b);
    let ox = offset_of(a.x as int, b.x as int);
    let oy = offset_of(a.y as int, b.y as int);
    let oz = offset_of(a.z as int, b.z as int);
    assert(ox * ox <= d && oy * oy <= d && oz * oz <= d) by (nonlinear_arith)
        requires
            d == ox * ox + oy * oy + oz * oz,
    ;
    if axis == 0 {
        lemma_pull_attracts(ox, mass, step, d);
    } else if axis == 1 {
        lemma_pull_attracts(oy, mass, step, d);
    } else {
        lemma_pull_attracts(oz, mass, step, d);
    }
}

/// Before rounding, the pulls of a pair cancel exactly: over their common
/// divisor, the dividend of the pull on the first body times its mass is the
/// opposite of the dividend of the pull on the second times its mass. What
/// the momentum of a pair drifts by is the rounding of the two quotients and
/// nothing else.
pub proof fn lemma_exact_pulls_cancel(offset: int, mass_a: int, mass_b: int, step: int)
    ensures
        mass_a * (offset * mass_b * step * PULL_FACTOR) + mass_b * ((-offset) * mass_a * step
            * PULL_FACTOR) == 0,
{
    assert(mass_a * (offset * mass_b * step * 100) + mass_b * ((-offset) * mass_a * step * 100)
        == 0) by (nonlinear_arith);
}

} // verus!
