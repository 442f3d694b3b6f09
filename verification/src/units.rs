//! Milli-unit fixed-point arithmetic.
//!
//! One world unit is `MILLI` (1000) milli-units; all game quantities
//! (positions, velocities, stick deflections, scale factors) are `i64`
//! counts of milli-units.  Scaling division rounds toward negative
//! infinity, which is exactly the mathematical (Euclidean) `/` of the
//! specifications, so contracts can state results directly with `/`;
//! length clamping rounds toward zero instead, so that shortening a
//! vector can only shrink it.

use vstd::prelude::*;

verus! {

/// Milli-units per world unit.
pub const MILLI: i64 = 1000;

/// Floor division by a positive divisor: returns `a / d` rounded toward
/// negative infinity, matching the mathematical `/` on `int`.
pub fn div_floor(a: i64, d: i64) -> (r: i64)
    requires
        0 < d,
        i64::MIN < a,
    ensures
        r == a as int / d as int,
{
    if a >= 0 {
        let q: u64 = (a as u64) / (d as u64);
        q as i64
    } else {
        let m: u64 = (-a) as u64;
        let q: u64 = m / (d as u64);
        let rem: u64 = m % (d as u64);
        proof {
            lemma_div_floor_neg(a as int, d as int, q as int, rem as int);
        }
        if rem == 0 {
            -(q as i64)
        } else {
            -(q as i64) - 1
        }
    }
}

/// Division by a positive divisor rounded toward zero, so the quotient's
/// magnitude never exceeds the exact quotient's.
pub open spec fn spec_tdiv(a: int, d: int) -> int {
    if a >= 0 {
        a / d
    } else {
        -((-a) / d)
    }
}

/// Truncated division by a positive divisor: returns `a / d` rounded
/// toward zero.
pub fn div_trunc(a: i64, d: i64) -> (r: i64)
    requires
        0 < d,
        i64::MIN < a,
    ensures
        r == spec_tdiv(a as int, d as int),
{
    if a >= 0 {
        let q: u64 = (a as u64) / (d as u64);
        q as i64
    } else {
        let m: u64 = (-a) as u64;
        let q: u64 = m / (d as u64);
        proof {
            vstd::arithmetic::div_mod::lemma_div_nonincreasing(m as int, d as int);
        }
        -(q as i64)
    }
}

/// A 2-D vector in milli-units.
#[derive(Clone, Copy, PartialEq, Eq, Structural, Debug)]
pub struct Vec2M {
    pub x: i64,
    pub y: i64,
}

/// `r` is the integer square root of `n`, rounded down.
pub open spec fn is_floor_sqrt(n: int, r: int) -> bool {
    0 <= r && r * r <= n < (r + 1) * (r + 1)
}

/// The integer square root of `n`, rounded down.
pub open spec fn sqrt_floor(n: int) -> int {
    choose|r: int| is_floor_sqrt(n, r)
}

/// No two integers both satisfy `is_floor_sqrt` for the same `n`.
pub proof fn lemma_floor_sqrt_unique(n: int, a: int, b: int)
    requires
        is_floor_sqrt(n, a),
        is_floor_sqrt(n, b),
    ensures
        a == b,
{
    assert(a == b) by (nonlinear_arith)
        requires
            0 <= a && a * a <= n < (a + 1) * (a + 1),
            0 <= b && b * b <= n < (b + 1) * (b + 1),
    ;
}

/// Every nonnegative integer has a floor square root, so `sqrt_floor` is
/// well defined.
pub proof fn lemma_floor_sqrt_exists(n: int)
    requires
        0 <= n,
    ensures
        is_floor_sqrt(n, sqrt_floor(n)),
    decreases n,
{
    if n == 0 {
        assert(is_floor_sqrt(0, 0));
    } else {
        lemma_floor_sqrt_exists(n - 1);
        let r = sqrt_floor(n - 1);
        if (r + 1) * (r + 1) == n {
            assert(is_floor_sqrt(n, r + 1)) by (nonlinear_arith)
                requires
                    0 <= r,
                    (r + 1) * (r + 1) == n,
            ;
        } else {
            assert(is_floor_sqrt(n, r));
        }
    }
    assert(exists|r: int| is_floor_sqrt(n, r));
}

/// Integer square root, rounded down.
pub fn isqrt(n: u64) -> (r: u64)
    ensures
        is_floor_sqrt(n as int, r as int),
        r == sqrt_floor(n as int),
{
    let mut lo: u64 = 0;
    let mut hi: u64 = 4294967296;
    while hi - lo > 1
        invariant
            lo < hi <= 4294967296,
            lo * lo <= n,
            n < hi * hi,
        decreases hi - lo,
    {
        let mid: u64 = lo + (hi - lo) / 2;
        assert(mid * mid <= 4294967295 * 4294967295) by (nonlinear_arith)
            requires
                mid <= 4294967295,
        ;
        if mid * mid <= n {
            lo = mid;
        } else {
            hi = mid;
        }
    }
    proof {
        assert(is_floor_sqrt(n as int, lo as int));
        lemma_floor_sqrt_unique(n as int, lo as int, sqrt_floor(n as int));
    }
    lo
}

/// The divisor that shortens a too-long vector: the vector's exact length
/// where the squared length is a perfect square, else one more than the
/// floor square root.  Either way it is never below the true length, so
/// scaling by `max` over it cannot stretch the vector past `max`.
pub open spec fn spec_clamp_divisor(m2: int) -> int {
    let len = sqrt_floor(m2);
    if len * len == m2 {
        len
    } else {
        len + 1
    }
}

/// The vector `(dx, dy)` shortened to length at most `max`: unchanged when
/// already short enough, else each component scaled by `max` over the
/// clamp divisor, rounding toward zero.
pub open spec fn spec_clamp_length_max(dx: int, dy: int, max: int) -> (int, int) {
    if dx * dx + dy * dy <= max * max {
        (dx, dy)
    } else {
        let d = spec_clamp_divisor(dx * dx + dy * dy);
        (spec_tdiv(dx * max, d), spec_tdiv(dy * max, d))
    }
}

/// A truncated quotient times the divisor stays within the dividend in
/// magnitude, so its square against the divisor's square stays within the
/// dividend's square.
proof fn lemma_tdiv_sq(a: int, d: int)
    requires
        0 < d,
    ensures
        spec_tdiv(a, d) * spec_tdiv(a, d) * (d * d) <= a * a,
{
    if a >= 0 {
        let q = a / d;
        vstd::arithmetic::div_mod::lemma_fundamental_div_mod(a, d);
        vstd::arithmetic::div_mod::lemma_mod_bound(a, d);
        vstd::arithmetic::div_mod::lemma_div_pos_is_pos(a, d);
        assert(q * q * (d * d) <= a * a) by (nonlinear_arith)
            requires
                0 <= q,
                0 < d,
                a == d * q + a % d,
                0 <= a % d,
        ;
    } else {
        let q = (-a) / d;
        vstd::arithmetic::div_mod::lemma_fundamental_div_mod(-a, d);
        vstd::arithmetic::div_mod::lemma_mod_bound(-a, d);
        vstd::arithmetic::div_mod::lemma_div_pos_is_pos(-a, d);
        assert((-q) * (-q) * (d * d) <= a * a) by (nonlinear_arith)
            requires
                0 <= q,
                0 < d,
                -a == d * q + (-a) % d,
                0 <= (-a) % d,
        ;
    }
}

/// The clamp's stated purpose, proved: the clamped vector never exceeds
/// `max`, neither in Euclidean length (stated over squares) nor in either
/// component.
pub proof fn lemma_clamp_norm_bounded(dx: int, dy: int, max: int)
    requires
        0 <= max,
    ensures
        ({
            let r = spec_clamp_length_max(dx, dy, max);
            &&& r.0 * r.0 + r.1 * r.1 <= max * max
            &&& -max <= r.0 <= max
            &&& -max <= r.1 <= max
        }),
{
    let m2 = dx * dx + dy * dy;
    if m2 <= max * max {
        assert(-max <= dx <= max && -max <= dy <= max) by (nonlinear_arith)
            requires
                dx * dx + dy * dy <= max * max,
                0 <= max,
        ;
    } else {
        assert(1 <= m2) by (nonlinear_arith)
            requires
                m2 > max * max,
                0 <= max,
                m2 == dx * dx + dy * dy,
        ;
        lemma_floor_sqrt_exists(m2);
        let len = sqrt_floor(m2);
        let d = spec_clamp_divisor(m2);
        assert(1 <= d && m2 <= d * d) by (nonlinear_arith)
            requires
                is_floor_sqrt(m2, len),
                1 <= m2,
                d == (if len * len == m2 {
                    len
                } else {
                    len + 1
                }),
        ;
        let qx = spec_tdiv(dx * max, d);
        let qy = spec_tdiv(dy * max, d);
        lemma_tdiv_sq(dx * max, d);
        lemma_tdiv_sq(dy * max, d);
        assert((qx * qx + qy * qy) * (d * d) <= m2 * (max * max)) by (nonlinear_arith)
            requires
                qx * qx * (d * d) <= (dx * max) * (dx * max),
                qy * qy * (d * d) <= (dy * max) * (dy * max),
                m2 == dx * dx + dy * dy,
        ;
        assert(qx * qx + qy * qy <= max * max) by (nonlinear_arith)
            requires
                (qx * qx + qy * qy) * (d * d) <= m2 * (max * max),
                m2 <= d * d,
                0 <= max,
                1 <= d,
        ;
        assert(-max <= qx <= max && -max <= qy <= max) by (nonlinear_arith)
            requires
                qx * qx + qy * qy <= max * max,
                0 <= max,
        ;
    }
}

/// Shortens the vector `(dx, dy)` to length at most `max`, keeping its
/// direction: the fixed-point counterpart of clamping a vector's length.
/// A vector already short enough is returned unchanged; a longer one is
/// scaled by `max` over a divisor no smaller than its true length, each
/// component rounding toward zero — so the result never exceeds `max`, in
/// length or in either component.
pub fn clamp_length_max(dx: i64, dy: i64, max: i64) -> (r: Vec2M)
    requires
        -2_100_000_000 <= dx <= 2_100_000_000,
        -2_100_000_000 <= dy <= 2_100_000_000,
        0 <= max <= 1_000_000,
    ensures
        (r.x as int, r.y as int) == spec_clamp_length_max(dx as int, dy as int, max as int),
        r.x * r.x + r.y * r.y <= max * max,
        -max <= r.x <= max,
        -max <= r.y <= max,
{
    proof {
        assert(0 <= dx * dx <= 4_410_000_000_000_000_000 && 0 <= dy * dy
            <= 4_410_000_000_000_000_000 && dx * max <= 2_100_000_000_000_000 && dx * max
            >= -2_100_000_000_000_000 && dy * max <= 2_100_000_000_000_000 && dy * max
            >= -2_100_000_000_000_000 && 0 <= max * max <= 1_000_000_000_000) by (nonlinear_arith)
            requires
                -2_100_000_000 <= dx <= 2_100_000_000,
                -2_100_000_000 <= dy <= 2_100_000_000,
                0 <= max <= 1_000_000,
        ;
        lemma_clamp_norm_bounded(dx as int, dy as int, max as int);
    }
    let m2: i64 = dx * dx + dy * dy;
    let mx2: i64 = max * max;
    if m2 <= mx2 {
        Vec2M { x: dx, y: dy }
    } else {
        let len_u: u64 = isqrt(m2 as u64);
        proof {
            assert(is_floor_sqrt(m2 as int, len_u as int));
            assert(len_u as int * len_u as int <= m2);
            assert(len_u <= 3_000_000_000) by (nonlinear_arith)
                requires
                    len_u as int * len_u as int <= m2,
                    m2 <= 8_820_000_000_000_000_000,
            ;
            assert(len_u as int * len_u as int <= 9_000_000_000_000_000_000) by (nonlinear_arith)
                requires
                    len_u <= 3_000_000_000,
            ;
        }
        let d_u: u64 = if len_u * len_u == (m2 as u64) {
            len_u
        } else {
            len_u + 1
        };
        proof {
            assert(d_u as int == spec_clamp_divisor(m2 as int));
            assert(1 <= d_u) by (nonlinear_arith)
                requires
                    is_floor_sqrt(m2 as int, len_u as int),
                    1 <= m2,
                    d_u as int == (if len_u as int * len_u as int == m2 as int {
                        len_u as int
                    } else {
                        len_u as int + 1
                    }),
            ;
        }
        let d: i64 = d_u as i64;
        Vec2M { x: div_trunc(dx * max, d), y: div_trunc(dy * max, d) }
    }
}

proof fn lemma_div_floor_neg(a: int, d: int, q: int, rem: int)
    requires
        0 < d,
        a < 0,
        q == (-a) / d,
        rem == (-a) % d,
    ensures
        rem == 0 ==> -q == a / d,
        rem != 0 ==> -q - 1 == a / d,
{
    vstd::arithmetic::div_mod::lemma_fundamental_div_mod(-a, d);
    vstd::arithmetic::div_mod::lemma_fundamental_div_mod(a, d);
    vstd::arithmetic::div_mod::lemma_mod_bound(-a, d);
    vstd::arithmetic::div_mod::lemma_mod_bound(a, d);
    if rem == 0 {
        assert(a == d * (-q) + 0) by (nonlinear_arith)
            requires
                a == -(d * q + rem),
                rem == 0,
        ;
        vstd::arithmetic::div_mod::lemma_fundamental_div_mod_converse(a, d, -q, 0);
    } else {
        assert(a == d * (-q - 1) + (d - rem)) by (nonlinear_arith)
            requires
                a == -(d * q + rem),
        ;
        vstd::arithmetic::div_mod::lemma_fundamental_div_mod_converse(a, d, -q - 1, d - rem);
    }
}

} // verus!
