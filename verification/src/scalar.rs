//! Fixed-point scalars.
//!
//! A scalar is an `i64` that counts billionths: `UNIT` stands for 1.0. Stored
//! scalars stay within `-LIMIT ..= LIMIT`; a result that would leave that band
//! stops at its edge. Division rounds toward zero, so that negating an operand
//! negates the result.

use vstd::prelude::*;

verus! {

/// The raw value of the scalar 1.0.
pub const UNIT: i64 = 1_000_000_000;

/// The largest magnitude a stored scalar can have: one million whole units.
pub const LIMIT: i64 = 1_000_000_000_000_000;

/// Nanoseconds in one second.
pub const NANOS_PER_SECOND: i64 = 1_000_000_000;

/// Whether `x` lies within the band of stored scalars.
pub open spec fn in_range(x: int) -> bool {
    -LIMIT <= x <= LIMIT
}

/// `x`, stopped at the edge of the band of stored scalars.
pub open spec fn saturate(x: int) -> int {
    if x < -LIMIT {
        -(LIMIT as int)
    } else if x > LIMIT {
        LIMIT as int
    } else {
        x
    }
}

/// The quotient of `n` by a positive `d`, rounded toward zero.
pub open spec fn trunc_div(n: int, d: int) -> int {
    if n >= 0 {
        n / d
    } else {
        -((-n) / d)
    }
}

/// Whether `r` is the integer square root of `n`: the largest integer whose
/// square does not exceed `n`.
pub open spec fn is_root(n: int, r: int) -> bool {
    0 <= r && r * r <= n < (r + 1) * (r + 1)
}

/// The integer square root of `n`.
pub open spec fn root(n: int) -> int {
    choose|r: int| is_root(n, r)
}

/// A number has at most one integer square root.
pub proof fn lemma_root_unique(n: int, a: int, b: int)
    requires
        is_root(n, a),
        is_root(n, b),
    ensures
        a == b,
{
    if a < b {
        assert((a + 1) * (a + 1) <= b * b) by (nonlinear_arith)
            requires
                0 <= a,
                a + 1 <= b,
        ;
    } else if b < a {
        assert((b + 1) * (b + 1) <= a * a) by (nonlinear_arith)
            requires
                0 <= b,
                b + 1 <= a,
        ;
    }
}

/// Every number from zero up has an integer square root, and `root` is it.
pub proof fn lemma_root_is_root(n: int)
    requires
        n >= 0,
    ensures
        is_root(n, root(n)),
    decreases n,
{
    if n == 0 {
        assert(is_root(0, 0));
    } else {
        lemma_root_is_root(n - 1);
        let r = root(n - 1);
        if (r + 1) * (r + 1) <= n {
            assert((r + 2) * (r + 2) > n) by (nonlinear_arith)
                requires
                    r >= 0,
                    n - 1 < (r + 1) * (r + 1),
            ;
            assert(is_root(n, r + 1));
        } else {
            assert(is_root(n, r));
        }
    }
}

/// A length rounded up covers the squared length it was taken from, and by
/// less than one.
pub proof fn lemma_length_covers(n: int)
    requires
        n >= 0,
    ensures
        length_of(n) >= 0,
        length_of(n) * length_of(n) >= n,
        n > 0 ==> length_of(n) > 0 && (length_of(n) - 1) * (length_of(n) - 1) < n,
{
    lemma_root_is_root(n);
    let r = root(n);
    if r * r == n {
        assert(r > 0 ==> (r - 1) * (r - 1) < r * r) by (nonlinear_arith);
    }
}

/// Negating the dividend negates a quotient rounded toward zero.
pub proof fn lemma_trunc_div_odd(n: int, d: int)
    requires
        d > 0,
    ensures
        trunc_div(-n, d) == -trunc_div(n, d),
{
}

/// A quotient rounded toward zero lies between zero and the exact quotient:
/// multiplied back, it differs from the dividend by less than the divisor, on
/// the side of zero.
pub proof fn lemma_trunc_div_bounds(n: int, d: int)
    requires
        d > 0,
    ensures
        n >= 0 ==> 0 <= n - trunc_div(n, d) * d < d,
        n <= 0 ==> -d < n - trunc_div(n, d) * d <= 0,
{
    if n >= 0 {
        assert(0 <= n - (n / d) * d < d) by (nonlinear_arith)
            requires
                d > 0,
                n >= 0,
        ;
    } else {
        let m = -n;
        assert(0 <= m - (m / d) * d < d) by (nonlinear_arith)
            requires
                d > 0,
                m >= 0,
        ;
        assert((-(m / d)) * d == -((m / d) * d)) by (nonlinear_arith);
    }
}

/// Stops `x` at the edge of the band of stored scalars.
pub fn clamp_to_limit(x: i128) -> (r: i64)
    ensures
        r == saturate(x as int),
        in_range(r as int),
{
    if x < -(LIMIT as i128) {
        -LIMIT
    } else if x > LIMIT as i128 {
        LIMIT
    } else {
        x as i64
    }
}

/// The sum of two stored scalars, stopped at the edge of the band.
pub fn sum(a: i64, b: i64) -> (r: i64)
    ensures
        r == saturate(a + b),
        in_range(r as int),
{
    clamp_to_limit(a as i128 + b as i128)
}

/// The quotient of `n` by `d`, rounded toward zero and stopped at the edge of
/// the band.
pub fn quotient(n: i128, d: i128) -> (r: i64)
    requires
        d > 0,
        n > i128::MIN,
    ensures
        r == saturate(trunc_div(n as int, d as int)),
        in_range(r as int),
{
    clamp_to_limit(n / d)
}

/// The fixed-point product of two scalars: `a * b` in whole units, rounded
/// toward zero and stopped at the edge of the band.
pub open spec fn product_of(a: int, b: int) -> int {
    saturate(trunc_div(a * b, UNIT as int))
}

/// What a rate of `a` per second comes to over `nanos` nanoseconds, rounded
/// toward zero and stopped at the edge of the band.
pub open spec fn over_time_of(a: int, nanos: int) -> int {
    saturate(trunc_div(a * nanos, NANOS_PER_SECOND as int))
}

/// The least integer whose square is not below `n`: the length of a vector
/// whose squared length is `n`, rounded up.
pub open spec fn length_of(n: int) -> int {
    let r = root(n);
    if r * r == n {
        r
    } else {
        r + 1
    }
}

/// The fixed-point product of two scalars.
pub fn product(a: i64, b: i64) -> (r: i64)
    ensures
        r == product_of(a as int, b as int),
        in_range(r as int),
{
    assert(-0x4000_0000_0000_0000_0000_0000_0000_0000 <= a * b
        <= 0x4000_0000_0000_0000_0000_0000_0000_0000) by (nonlinear_arith)
        requires
            -0x8000_0000_0000_0000 <= a <= 0x8000_0000_0000_0000,
            -0x8000_0000_0000_0000 <= b <= 0x8000_0000_0000_0000,
    ;
    quotient(a as i128 * b as i128, UNIT as i128)
}

/// What a rate of `a` per second comes to over `nanos` nanoseconds.
pub fn over_time(a: i64, nanos: u64) -> (r: i64)
    ensures
        r == over_time_of(a as int, nanos as int),
        in_range(r as int),
{
    assert(-0x7fff_ffff_ffff_ffff_8000_0000_0000_0000 <= a * nanos
        <= 0x7fff_ffff_ffff_ffff_8000_0000_0000_0000) by (nonlinear_arith)
        requires
            -0x8000_0000_0000_0000 <= a <= 0x8000_0000_0000_0000,
            0 <= nanos <= 0xffff_ffff_ffff_ffff,
    ;
    quotient(a as i128 * nanos as i128, NANOS_PER_SECOND as i128)
}

/// The integer square root of `n`.
pub fn floor_sqrt(n: u128) -> (r: u64)
    ensures
        is_root(n as int, r as int),
        r == root(n as int),
{
    let mut lo: u128 = 0;
    let mut hi: u128 = 0x1_0000_0000_0000_0000;
    assert(n < hi * hi) by (nonlinear_arith)
        requires
            hi == 0x1_0000_0000_0000_0000u128,
            n <= u128::MAX,
    ;
    while hi - lo > 1
        invariant
            lo < hi <= 0x1_0000_0000_0000_0000u128,
            lo * lo <= n < hi * hi,
        decreases hi - lo,
    {
        let mid: u128 = lo + (hi - lo) / 2;
        assert(mid * mid <= u128::MAX) by (nonlinear_arith)
            requires
                mid < 0x1_0000_0000_0000_0000u128,
        ;
        if mid * mid <= n {
            lo = mid;
        } else {
            hi = mid;
        }
    }
    let r: u64 = lo as u64;
    proof {
        assert(is_root(n as int, r as int));
        lemma_root_unique(n as int, r as int, root(n as int));
    }
    r
}

/// The integer square root of `n`, rounded up.
pub fn ceil_sqrt(n: u128) -> (c: u128)
    ensures
        c == length_of(n as int),
        c * c >= n,
        c <= 0x1_0000_0000_0000_0000,
        n > 0 ==> c > 0 && (c - 1) * (c - 1) < n,
{
    let r: u64 = floor_sqrt(n);
    let wide: u128 = r as u128;
    assert(wide * wide <= n);
    if wide * wide == n {
        assert(wide > 0 ==> (wide - 1) * (wide - 1) < wide * wide) by (nonlinear_arith);
        wide
    } else {
        assert((wide + 1) * (wide + 1) > n);
        wide + 1
    }
}

} // verus!
