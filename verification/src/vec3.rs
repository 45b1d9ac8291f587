//! Three-component vectors of fixed-point scalars.

use vstd::prelude::*;
use crate::scalar::{
    ceil_sqrt, clamp_to_limit, in_range, is_root, lemma_length_covers, lemma_root_is_root,
    lemma_root_unique, lemma_trunc_div_bounds, length_of, over_time, over_time_of, product,
    product_of, quotient, root, saturate, sum, trunc_div, LIMIT, UNIT,
};

verus! {

/// A point or a direction in the world, each component a fixed-point scalar.
#[derive(Clone, Copy, Debug, PartialEq, Eq, Structural)]
pub struct Vec3 {
    pub x: i64,
    pub y: i64,
    pub z: i64,
}

impl Vec3 {
    /// Whether every component lies within the band of stored scalars.
    pub open spec fn wf(self) -> bool {
        in_range(self.x as int) && in_range(self.y as int) && in_range(self.z as int)
    }

    /// The vector whose components are `x`, `y` and `z`, each stopped at the
    /// edge of the band.
    pub open spec fn saturated(x: int, y: int, z: int) -> Vec3 {
        Vec3 { x: saturate(x) as i64, y: saturate(y) as i64, z: saturate(z) as i64 }
    }

    /// The origin.
    pub open spec fn origin() -> Vec3 {
        Vec3 { x: 0, y: 0, z: 0 }
    }

    /// The componentwise sum, each component stopped at the edge of the band.
    pub open spec fn plus(self, other: Vec3) -> Vec3 {
        Vec3::saturated(self.x + other.x, self.y + other.y, self.z + other.z)
    }

    /// The componentwise difference, each component stopped at the edge of the
    /// band.
    pub open spec fn minus(self, other: Vec3) -> Vec3 {
        Vec3::saturated(self.x - other.x, self.y - other.y, self.z - other.z)
    }

    /// The squared length, in squared raw units.
    pub open spec fn norm_sq(self) -> int {
        self.x * self.x + self.y * self.y + self.z * self.z
    }

    /// The scalar product with `other`, in squared raw units.
    pub open spec fn dot(self, other: Vec3) -> int {
        self.x * other.x + self.y * other.y + self.z * other.z
    }

    /// Each component multiplied by the scalar `k`.
    pub open spec fn times(self, k: int) -> Vec3 {
        Vec3 {
            x: product_of(self.x as int, k) as i64,
            y: product_of(self.y as int, k) as i64,
            z: product_of(self.z as int, k) as i64,
        }
    }

    /// Each component taken as a rate per second over `nanos` nanoseconds.
    pub open spec fn during(self, nanos: int) -> Vec3 {
        Vec3 {
            x: over_time_of(self.x as int, nanos) as i64,
            y: over_time_of(self.y as int, nanos) as i64,
            z: over_time_of(self.z as int, nanos) as i64,
        }
    }

    /// The vector scaled to unit length, each component rounded toward zero;
    /// the origin stays the origin.
    pub open spec fn unit(self) -> Vec3 {
        if self.norm_sq() == 0 {
            Vec3::origin()
        } else {
            let len = length_of(self.norm_sq());
            Vec3 {
                x: saturate(trunc_div(self.x * UNIT, len)) as i64,
                y: saturate(trunc_div(self.y * UNIT, len)) as i64,
                z: saturate(trunc_div(self.z * UNIT, len)) as i64,
            }
        }
    }

    /// Builds a vector, stopping each component at the edge of the band.
    pub fn new(x: i64, y: i64, z: i64) -> (v: Vec3)
        ensures
            v == Vec3::saturated(x as int, y as int, z as int),
            v.wf(),
    {
        Vec3 {
            x: clamp_to_limit(x as i128),
            y: clamp_to_limit(y as i128),
            z: clamp_to_limit(z as i128),
        }
    }

    /// The origin.
    pub fn zero() -> (v: Vec3)
        ensures
            v == Vec3::origin(),
            v.wf(),
    {
        Vec3 { x: 0, y: 0, z: 0 }
    }

    /// Whether every component lies within the band of stored scalars.
    pub fn in_band(self) -> (ok: bool)
        ensures
            ok == self.wf(),
    {
        -LIMIT <= self.x && self.x <= LIMIT && -LIMIT <= self.y && self.y <= LIMIT && -LIMIT
            <= self.z && self.z <= LIMIT
    }

    /// The componentwise sum.
    pub fn saturating_add(self, other: Vec3) -> (v: Vec3)
        ensures
            v == self.plus(other),
            v.wf(),
    {
        Vec3 { x: sum(self.x, other.x), y: sum(self.y, other.y), z: sum(self.z, other.z) }
    }

    /// The componentwise difference.
    pub fn saturating_sub(self, other: Vec3) -> (v: Vec3)
        ensures
            v == self.minus(other),
            v.wf(),
    {
        Vec3 {
            x: clamp_to_limit(self.x as i128 - other.x as i128),
            y: clamp_to_limit(self.y as i128 - other.y as i128),
            z: clamp_to_limit(self.z as i128 - other.z as i128),
        }
    }

    /// The squared length.
    pub fn length_squared(self) -> (n: u128)
        ensures
            n == self.norm_sq(),
    {
        let x: i128 = self.x as i128;
        let y: i128 = self.y as i128;
        let z: i128 = self.z as i128;
        proof {
            lemma_square_bound(x as int);
            lemma_square_bound(y as int);
            lemma_square_bound(z as int);
        }
        let xx: u128 = (x * x) as u128;
        let yy: u128 = (y * y) as u128;
        let zz: u128 = (z * z) as u128;
        xx + yy + zz
    }

    /// Each component multiplied by the scalar `k`.
    pub fn scaled(self, k: i64) -> (v: Vec3)
        ensures
            v == self.times(k as int),
            v.wf(),
    {
        Vec3 { x: product(self.x, k), y: product(self.y, k), z: product(self.z, k) }
    }

    /// Each component taken as a rate per second over `nanos` nanoseconds.
    pub fn over(self, nanos: u64) -> (v: Vec3)
        ensures
            v == self.during(nanos as int),
            v.wf(),
    {
        Vec3 {
            x: over_time(self.x, nanos),
            y: over_time(self.y, nanos),
            z: over_time(self.z, nanos),
        }
    }

    /// The vector scaled to unit length, or the origin for the origin.
    pub fn normalize_or_zero(self) -> (v: Vec3)
        ensures
            v == self.unit(),
            v.wf(),
    {
        let n: u128 = self.length_squared();
        if n == 0 {
            Vec3 { x: 0, y: 0, z: 0 }
        } else {
            let len: i128 = ceil_sqrt(n) as i128;
            let one: i128 = UNIT as i128;
            assert(one == 1_000_000_000);
            Vec3 {
                x: quotient(self.x as i128 * one, len),
                y: quotient(self.y as i128 * one, len),
                z: quotient(self.z as i128 * one, len),
            }
        }
    }
}

/// The square of a 64-bit value fits in 126 bits.
pub proof fn lemma_square_bound(a: int)
    requires
        -0x8000_0000_0000_0000 <= a <= 0x8000_0000_0000_0000,
    ensures
        0 <= a * a <= 0x4000_0000_0000_0000_0000_0000_0000_0000,
{
    assert(0 <= a * a <= 0x4000_0000_0000_0000_0000_0000_0000_0000) by (nonlinear_arith)
        requires
            -0x8000_0000_0000_0000 <= a <= 0x8000_0000_0000_0000,
    ;
}

/// One component of a unit vector: it is at most one unit long, and its
/// square takes no larger a share of the unit than the component's square
/// takes of the squared length.
proof fn lemma_unit_component(c: int, len: int)
    requires
        len > 0,
        c * c <= len * len,
    ensures
        -UNIT <= trunc_div(c * UNIT, len) <= UNIT,
        trunc_div(c * UNIT, len) * trunc_div(c * UNIT, len) * (len * len) <= c * c * (UNIT * UNIT),
{
    let q = trunc_div(c * UNIT, len);
    lemma_trunc_div_bounds(c * UNIT, len);
    assert(-len <= c <= len) by (nonlinear_arith)
        requires
            c * c <= len * len,
            len > 0,
    ;
    if c >= 0 {
        assert(c * UNIT >= 0) by (nonlinear_arith)
            requires
                c >= 0,
        ;
        assert(0 <= q && q * len <= c * UNIT) by (nonlinear_arith)
            requires
                c * UNIT >= 0,
                0 <= c * UNIT - q * len < len,
                len > 0,
        ;
        assert(q <= UNIT) by (nonlinear_arith)
            requires
                q * len <= c * UNIT,
                c <= len,
                len > 0,
                q >= 0,
        ;
        assert(q * q * (len * len) <= c * c * (UNIT * UNIT)) by (nonlinear_arith)
            requires
                0 <= q * len <= c * UNIT,
        ;
    } else {
        assert(c * UNIT <= 0) by (nonlinear_arith)
            requires
                c < 0,
        ;
        assert(q <= 0 && c * UNIT <= q * len && q * len <= 0) by (nonlinear_arith)
            requires
                c * UNIT <= 0,
                -len < c * UNIT - q * len <= 0,
                len > 0,
        ;
        assert(q >= -UNIT) by (nonlinear_arith)
            requires
                c * UNIT <= q * len,
                -len <= c,
                len > 0,
                q <= 0,
        ;
        assert(q * q * (len * len) <= c * c * (UNIT * UNIT)) by (nonlinear_arith)
            requires
                c * UNIT <= q * len <= 0,
        ;
    }
}

/// A vector brought to unit length is never longer than one unit: moving
/// along a diagonal is not faster than moving along an axis.
pub proof fn lemma_unit_is_short(v: Vec3)
    ensures
        v.unit().norm_sq() <= UNIT * UNIT,
        v.unit().wf(),
{
    let n = v.norm_sq();
    assert(v.x * v.x >= 0 && v.y * v.y >= 0 && v.z * v.z >= 0) by (nonlinear_arith);
    if n == 0 {
        assert(Vec3::origin().norm_sq() == 0) by (nonlinear_arith);
    } else {
        lemma_length_covers(n);
        let len = length_of(n);
        let big = len * len;
        assert(v.x * v.x <= big && v.y * v.y <= big && v.z * v.z <= big);
        lemma_unit_component(v.x as int, len);
        lemma_unit_component(v.y as int, len);
        lemma_unit_component(v.z as int, len);
        let qx = trunc_div(v.x * UNIT, len);
        let qy = trunc_div(v.y * UNIT, len);
        let qz = trunc_div(v.z * UNIT, len);
        let u = v.unit();
        assert(u.x == qx && u.y == qy && u.z == qz);
        let one = UNIT * UNIT;
        let sx = qx * qx;
        let sy = qy * qy;
        let sz = qz * qz;
        let tx = v.x * v.x;
        let ty = v.y * v.y;
        let tz = v.z * v.z;
        assert((sx + sy + sz) * big == sx * big + sy * big + sz * big) by (nonlinear_arith);
        assert((tx + ty + tz) * one == tx * one + ty * one + tz * one) by (nonlinear_arith);
        assert((tx + ty + tz) * one <= big * one) by (nonlinear_arith)
            requires
                tx + ty + tz <= big,
                one >= 0,
        ;
        let total = sx + sy + sz;
        assert(total * big <= big * one);
        assert(total <= one) by (nonlinear_arith)
            requires
                total * big <= big * one,
                big > 0,
        ;
    }
}

/// A vector along the upward axis comes to exactly one unit.
pub proof fn lemma_unit_of_upright(c: int)
    requires
        0 < c <= i64::MAX,
    ensures
        (Vec3 { x: 0, y: c as i64, z: 0 }).unit() == (Vec3 { x: 0, y: UNIT, z: 0 }),
        (Vec3 { x: 0, y: (-c) as i64, z: 0 }).unit() == (Vec3 { x: 0, y: (-UNIT) as i64, z: 0 }),
{
    let up = Vec3 { x: 0, y: c as i64, z: 0 };
    let down = Vec3 { x: 0, y: (-c) as i64, z: 0 };
    let n = c * c;
    assert(up.norm_sq() == n && down.norm_sq() == n && n > 0) by (nonlinear_arith)
        requires
            up.x == 0 && up.z == 0 && up.y == c,
            down.x == 0 && down.z == 0 && down.y == -c,
            n == c * c,
            c > 0,
    ;
    assert(is_root(n, c)) by (nonlinear_arith)
        requires
            n == c * c,
            c > 0,
    ;
    lemma_root_is_root(n);
    lemma_root_unique(n, c, root(n));
    assert(length_of(n) == c);
    assert(c * UNIT / c == UNIT && 0 * UNIT == 0 && c * UNIT > 0 && (-c) * UNIT == -(c * UNIT))
        by (nonlinear_arith)
        requires
            c > 0,
    ;
    assert(0int / c == 0) by (nonlinear_arith)
        requires
            c > 0,
    ;
}

} // verus!
