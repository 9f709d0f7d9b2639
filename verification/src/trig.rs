//! Fixed-point circle functions and integer square roots.
//!
//! `sin_cos` evaluates the sine and cosine of a fixed-point angle by
//! range reduction to a quarter turn followed by a truncated power series;
//! `s_sin` and `s_cos` are the exact spec-level account of that evaluation.
//! `isqrt` returns the integer square root, used to measure vectors.

use vstd::prelude::*;
use crate::fx::{ONE, TAU, PI, s_abs, s_tdiv, s_mul, lemma_s_mul_bound, lemma_s_mul_nonneg};

verus! {

/// A quarter turn (pi over two) in fixed-point radians, rounded to nearest.
pub const PI_HALF: i64 = 102944;

/// The integer square root: the greatest `r` with `r * r <= n`.
pub open spec fn s_isqrt(n: int) -> int
    decreases n,
{
    if n <= 0 {
        0
    } else {
        let r = s_isqrt(n - 1);
        if (r + 1) * (r + 1) <= n {
            r + 1
        } else {
            r
        }
    }
}

/// The integer square root brackets its argument between consecutive squares.
pub proof fn lemma_s_isqrt_bounds(n: int)
    requires
        n >= 0,
    ensures
        0 <= s_isqrt(n),
        s_isqrt(n) * s_isqrt(n) <= n,
        n < (s_isqrt(n) + 1) * (s_isqrt(n) + 1),
    decreases n,
{
    if n == 0 {
    } else {
        lemma_s_isqrt_bounds(n - 1);
        let r = s_isqrt(n - 1);
        if (r + 1) * (r + 1) <= n {
            assert(n < (r + 2) * (r + 2)) by (nonlinear_arith)
                requires
                    (r + 1) * (r + 1) <= n,
                    n - 1 < (r + 1) * (r + 1),
                    r >= 0,
            ;
        }
    }
}

/// Whatever brackets `n` between consecutive squares is the square root.
pub proof fn lemma_s_isqrt_unique(n: int, r: int)
    requires
        n >= 0,
        r >= 0,
        r * r <= n,
        n < (r + 1) * (r + 1),
    ensures
        r == s_isqrt(n),
{
    lemma_s_isqrt_bounds(n);
    let q = s_isqrt(n);
    assert(r < q ==> (r + 1) * (r + 1) <= q * q) by (nonlinear_arith)
        requires
            0 <= r,
            0 <= q,
    ;
    assert(q < r ==> (q + 1) * (q + 1) <= r * r) by (nonlinear_arith)
        requires
            0 <= r,
            0 <= q,
    ;
}

/// Integer square root of an unsigned word, by binary search.
pub fn isqrt(n: u128) -> (r: u64)
    ensures
        r == s_isqrt(n as int),
{
    let mut lo: u64 = 0;
    let mut hi: u64 = u64::MAX;
    proof {
        assert((lo as int) * (lo as int) <= n as int);
        assert((n as int) < (hi as int + 1) * (hi as int + 1)) by (nonlinear_arith)
            requires
                hi == u64::MAX,
                n <= u128::MAX,
        ;
    }
    while lo < hi
        invariant
            lo <= hi,
            (lo as int) * (lo as int) <= n as int,
            (n as int) < (hi as int + 1) * (hi as int + 1),
        decreases hi - lo,
    {
        let mid: u64 = hi - (hi - lo) / 2;
        proof {
            assert(lo < mid <= hi);
            assert((mid as int) * (mid as int) <= u128::MAX) by (nonlinear_arith)
                requires
                    mid <= u64::MAX,
            ;
        }
        let sq: u128 = (mid as u128) * (mid as u128);
        if sq <= n {
            lo = mid;
        } else {
            hi = mid - 1;
        }
    }
    proof {
        lemma_s_isqrt_unique(n as int, lo as int);
    }
    lo
}

/// The truncated power series for sine on the first quarter turn.
pub open spec fn s_sin_poly(x: int) -> int {
    let x2 = s_mul(x, x);
    let x3 = s_mul(x2, x);
    let x5 = s_mul(x2, x3);
    let x7 = s_mul(x2, x5);
    x - x3 / 6 + x5 / 120 - x7 / 5040
}

/// The truncated power series for cosine on the first quarter turn.
pub open spec fn s_cos_poly(x: int) -> int {
    let x2 = s_mul(x, x);
    let x4 = s_mul(x2, x2);
    let x6 = s_mul(x4, x2);
    let x8 = s_mul(x4, x4);
    ONE - x2 / 2 + x4 / 24 - x6 / 720 + x8 / 40320
}

/// Sine and cosine on half a turn, by reflection about the quarter turn.
pub open spec fn s_sin_cos_half(m: int) -> (int, int) {
    if m <= PI_HALF {
        (s_sin_poly(m), s_cos_poly(m))
    } else {
        (s_sin_poly(PI - m), -s_cos_poly(PI - m))
    }
}

/// Sine and cosine on a full turn, by point reflection about half a turn.
pub open spec fn s_sin_cos_turn(m: int) -> (int, int) {
    if m <= PI {
        s_sin_cos_half(m)
    } else {
        let sc = s_sin_cos_half(m - PI);
        (-sc.0, -sc.1)
    }
}

/// A value clamped to one unit of magnitude.
pub open spec fn s_cap_one(v: int) -> int {
    if v < -(ONE as int) {
        -(ONE as int)
    } else if v > ONE as int {
        ONE as int
    } else {
        v
    }
}

/// The fixed-point sine: reduce modulo a turn, use odd symmetry for
/// negative angles, clamp to one unit.
pub open spec fn s_sin(a: int) -> int {
    let m = s_abs(a) % (TAU as int);
    let s = s_sin_cos_turn(m).0;
    if a >= 0 {
        s_cap_one(s)
    } else {
        s_cap_one(-s)
    }
}

/// The fixed-point cosine: reduce modulo a turn, use even symmetry for
/// negative angles, clamp to one unit.
pub open spec fn s_cos(a: int) -> int {
    let m = s_abs(a) % (TAU as int);
    s_cap_one(s_sin_cos_turn(m).1)
}

/// Sine and cosine always stay within one unit.
pub proof fn lemma_sin_cos_range(a: int)
    ensures
        s_abs(s_sin(a)) <= ONE as int,
        s_abs(s_cos(a)) <= ONE as int,
{
}

/// At angle zero the sine is zero and the cosine is exactly one unit.
pub proof fn lemma_sin_cos_zero()
    ensures
        s_sin(0) == 0,
        s_cos(0) == ONE as int,
{
    assert(s_abs(0) % (TAU as int) == 0);
    assert(s_mul(0, 0) == 0);
    assert(s_sin_poly(0) == 0);
    assert(s_cos_poly(0) == ONE);
}

/// Division of a non-negative value by a positive one, on unsigned words.
fn div_nonneg(a: i64, d: i64) -> (q: i64)
    requires
        a >= 0,
        d > 0,
    ensures
        q == a as int / d as int,
        0 <= q <= a,
{
    proof {
        vstd::arithmetic::div_mod::lemma_div_pos_is_pos(a as int, d as int);
        vstd::arithmetic::div_mod::lemma_div_nonincreasing(a as int, d as int);
    }
    ((a as u64) / (d as u64)) as i64
}

/// The power-series step shared by `sin_cos`: exact fixed products of
/// small non-negative values.
fn mul_small(a: i64, b: i64) -> (r: i64)
    requires
        0 <= a <= 0x400000,
        0 <= b <= 0x400000,
    ensures
        r == s_mul(a as int, b as int),
        0 <= r <= 0x10000000,
{
    proof {
        lemma_s_mul_bound(a as int, b as int, 0x400000, 0x400000);
        lemma_s_mul_nonneg(a as int, b as int);
    }
    crate::fx::fp_mul(a, b)
}

/// Sine and cosine of an angle within the first quarter turn.
fn sin_cos_poly(x: i64) -> (r: (i64, i64))
    requires
        0 <= x <= PI_HALF,
    ensures
        r.0 == s_sin_poly(x as int),
        r.1 == s_cos_poly(x as int),
        -0x800000 <= r.0 <= 0x800000,
        -0x800000 <= r.1 <= 0x800000,
{
    let x2 = mul_small(x, x);
    proof {
        lemma_s_mul_bound(x as int, x as int, PI_HALF as int, PI_HALF as int);
    }
    let x3 = mul_small(x2, x);
    proof {
        lemma_s_mul_bound(x2 as int, x as int, 161705, PI_HALF as int);
    }
    let x5 = mul_small(x2, x3);
    proof {
        lemma_s_mul_bound(x2 as int, x3 as int, 161705, 254007);
    }
    let x7 = mul_small(x2, x5);
    proof {
        lemma_s_mul_bound(x2 as int, x5 as int, 161705, 626745);
    }
    let s = x - div_nonneg(x3, 6) + div_nonneg(x5, 120) - div_nonneg(x7, 5040);
    let x4 = mul_small(x2, x2);
    proof {
        lemma_s_mul_bound(x2 as int, x2 as int, 161705, 161705);
    }
    let x6 = mul_small(x4, x2);
    proof {
        lemma_s_mul_bound(x4 as int, x2 as int, 398996, 161705);
    }
    let x8 = mul_small(x4, x4);
    proof {
        lemma_s_mul_bound(x4 as int, x4 as int, 398996, 398996);
    }
    let c = ONE - div_nonneg(x2, 2) + div_nonneg(x4, 24) - div_nonneg(x6, 720) + div_nonneg(
        x8,
        40320,
    );
    (s, c)
}

/// Sine and cosine of an angle within half a turn.
fn sin_cos_half(m: i64) -> (r: (i64, i64))
    requires
        0 <= m <= PI,
    ensures
        r.0 == s_sin_cos_half(m as int).0,
        r.1 == s_sin_cos_half(m as int).1,
        -0x800000 <= r.0 <= 0x800000,
        -0x800000 <= r.1 <= 0x800000,
{
    if m <= PI_HALF {
        sin_cos_poly(m)
    } else {
        let sc = sin_cos_poly(PI - m);
        (sc.0, -sc.1)
    }
}

/// The fixed-point sine and cosine of any fixed-point angle.
///
/// Returns exactly the spec-level pair, each component within one unit.
pub fn sin_cos(a: i64) -> (r: (i64, i64))
    ensures
        r.0 == s_sin(a as int),
        r.1 == s_cos(a as int),
        -ONE <= r.0 <= ONE,
        -ONE <= r.1 <= ONE,
{
    let ma: u64 = if a < 0 {
        (-(a as i128)) as u64
    } else {
        a as u64
    };
    proof {
        assert(ma == s_abs(a as int));
    }
    let m: i64 = (ma % (TAU as u64)) as i64;
    proof {
        assert(m == s_abs(a as int) % (TAU as int));
    }
    let sc: (i64, i64) = if m <= PI {
        sin_cos_half(m)
    } else {
        let sc = sin_cos_half(m - PI);
        (-sc.0, -sc.1)
    };
    proof {
        assert(sc.0 == s_sin_cos_turn(m as int).0);
        assert(sc.1 == s_sin_cos_turn(m as int).1);
    }
    let s0: i64 = if a >= 0 {
        sc.0
    } else {
        -sc.0
    };
    let s: i64 = if s0 < -ONE {
        -ONE
    } else if s0 > ONE {
        ONE
    } else {
        s0
    };
    let c: i64 = if sc.1 < -ONE {
        -ONE
    } else if sc.1 > ONE {
        ONE
    } else {
        sc.1
    };
    (s, c)
}

} // verus!
