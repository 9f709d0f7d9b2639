//! Fixed-point scalars.
//!
//! A scalar is an `i64` holding `value * ONE`, so one unit is `ONE == 65536`.
//! Products and quotients are rescaled with truncation toward zero, exactly
//! as `s_mul` and `s_div` describe; every executable operation here returns
//! precisely its spec-level counterpart.

use vstd::prelude::*;
use vstd::arithmetic::div_mod::{lemma_div_is_ordered, lemma_div_multiples_vanish, lemma_div_pos_is_pos};

verus! {

/// The fixed-point unit: stored values count 1/65536ths.
pub const ONE: i64 = 65536;

/// A full turn (two pi) in fixed-point radians, rounded to nearest.
pub const TAU: i64 = 411775;

/// Half a turn (pi) in fixed-point radians, rounded to nearest.
pub const PI: i64 = 205887;

/// Largest magnitude a mesh coordinate may take (two to the forty-fifth).
pub const COORD_MAX: i64 = 0x2000_0000_0000;

/// Largest magnitude accepted for shape parameters such as radii, heights
/// and sizes (two to the thirty-sixth).
pub const SHAPE_MAX: i64 = 0x10_0000_0000;

/// Headroom bound for internally derived spans such as wall lengths and
/// arrow heights (two to the fortieth).
pub const SPAN_MAX: i64 = 0x100_0000_0000;

/// Largest magnitude of a linear entry of an affine transform (two to the
/// thirty-first).
pub const ENTRY_MAX: i64 = 0x8000_0000;

/// Magnitude of an integer.
pub open spec fn s_abs(a: int) -> int {
    if a >= 0 {
        a
    } else {
        -a
    }
}

/// Division truncated toward zero, for a positive divisor.
pub open spec fn s_tdiv(n: int, d: int) -> int {
    if n >= 0 {
        n / d
    } else {
        -((-n) / d)
    }
}

/// Fixed-point product: the exact product, rescaled by `ONE` with
/// truncation toward zero.
pub open spec fn s_mul(a: int, b: int) -> int {
    s_tdiv(a * b, ONE as int)
}

/// Fixed-point quotient for a positive divisor: `a` rescaled by `ONE`,
/// divided by `b`, truncated toward zero.
pub open spec fn s_div(a: int, b: int) -> int {
    s_tdiv(a * (ONE as int), b)
}

/// Truncated halving.
pub open spec fn s_half(a: int) -> int {
    s_tdiv(a, 2)
}

/// A coordinate clamped to the representable range.
pub open spec fn s_cap(a: int) -> int {
    if a < -(COORD_MAX as int) {
        -(COORD_MAX as int)
    } else if a > COORD_MAX as int {
        COORD_MAX as int
    } else {
        a
    }
}

/// Truncated division never grows magnitude faster than its numerator bound.
pub proof fn lemma_tdiv_bound(n: int, d: int, m: int)
    requires
        d > 0,
        s_abs(n) <= m,
    ensures
        s_abs(s_tdiv(n, d)) <= m / d,
        s_abs(s_tdiv(n, d)) <= s_abs(n) / d,
{
    if n >= 0 {
        lemma_div_pos_is_pos(n, d);
        lemma_div_is_ordered(n, m, d);
    } else {
        lemma_div_pos_is_pos(-n, d);
        lemma_div_is_ordered(-n, m, d);
    }
}

/// Multiplying by the unit is the identity.
pub proof fn lemma_s_mul_one(a: int)
    ensures
        s_mul(a, ONE as int) == a,
        s_mul(ONE as int, a) == a,
{
    if a >= 0 {
        lemma_div_multiples_vanish(a, ONE as int);
    } else {
        lemma_div_multiples_vanish(-a, ONE as int);
    }
}

/// Multiplying by zero gives zero.
pub proof fn lemma_s_mul_zero(a: int)
    ensures
        s_mul(a, 0) == 0,
        s_mul(0, a) == 0,
{
    lemma_div_multiples_vanish(0, ONE as int);
}

/// A product with a factor of at most one unit keeps the other factor's bound.
pub proof fn lemma_s_mul_unit_bound(a: int, b: int, m: int)
    requires
        s_abs(a) <= m,
        s_abs(b) <= ONE as int,
    ensures
        s_abs(s_mul(a, b)) <= m,
{
    assert(s_abs(a * b) <= m * (ONE as int)) by (nonlinear_arith)
        requires
            s_abs(a) <= m,
            s_abs(b) <= ONE as int,
    ;
    lemma_tdiv_bound(a * b, ONE as int, m * (ONE as int));
    lemma_div_multiples_vanish(m, ONE as int);
}

/// General bound on a fixed-point product from bounds on its factors.
pub proof fn lemma_s_mul_bound(a: int, b: int, ma: int, mb: int)
    requires
        s_abs(a) <= ma,
        s_abs(b) <= mb,
    ensures
        s_abs(s_mul(a, b)) <= (ma * mb) / (ONE as int),
{
    assert(s_abs(a * b) <= ma * mb) by (nonlinear_arith)
        requires
            s_abs(a) <= ma,
            s_abs(b) <= mb,
    ;
    lemma_tdiv_bound(a * b, ONE as int, ma * mb);
}

/// A product of non-negative factors is non-negative.
pub proof fn lemma_s_mul_nonneg(a: int, b: int)
    requires
        a >= 0,
        b >= 0,
    ensures
        s_mul(a, b) >= 0,
{
    assert(a * b >= 0) by (nonlinear_arith)
        requires
            a >= 0,
            b >= 0,
    ;
    lemma_div_pos_is_pos(a * b, ONE as int);
}

/// A quotient by a divisor at least as large as the numerator stays within
/// one unit.
pub proof fn lemma_s_div_unit_bound(a: int, b: int)
    requires
        b > 0,
        s_abs(a) <= b,
    ensures
        s_abs(s_div(a, b)) <= ONE as int,
{
    assert(s_abs(a * (ONE as int)) <= b * (ONE as int)) by (nonlinear_arith)
        requires
            s_abs(a) <= b,
    ;
    lemma_tdiv_bound(a * (ONE as int), b, b * (ONE as int));
    assert(b * (ONE as int) == (ONE as int) * b);
    lemma_div_multiples_vanish(ONE as int, b);
}

/// Truncated division of a magnitude, computed on unsigned words.
fn udiv_trunc(n: u128, d: u128) -> (q: u128)
    requires
        d > 0,
    ensures
        q == n as int / d as int,
{
    n / d
}

/// Exact fixed-point multiplication.
pub fn fp_mul(a: i64, b: i64) -> (r: i64)
    requires
        i64::MIN <= s_mul(a as int, b as int) <= i64::MAX,
    ensures
        r == s_mul(a as int, b as int),
{
    let neg: bool = if a < 0 {
        b >= 0
    } else {
        b < 0
    };
    let ma: u64 = if a < 0 {
        (-(a as i128)) as u64
    } else {
        a as u64
    };
    let mb: u64 = if b < 0 {
        (-(b as i128)) as u64
    } else {
        b as u64
    };
    proof {
        assert(ma == s_abs(a as int));
        assert(mb == s_abs(b as int));
        assert(ma as int * mb as int == s_abs(a as int * b as int)) by (nonlinear_arith)
            requires
                ma == s_abs(a as int),
                mb == s_abs(b as int),
        ;
        assert(a as int <= 0 && b as int >= 0 ==> a as int * b as int <= 0) by (nonlinear_arith);
        assert(a as int >= 0 && b as int <= 0 ==> a as int * b as int <= 0) by (nonlinear_arith);
        assert(a as int >= 0 && b as int >= 0 ==> a as int * b as int >= 0) by (nonlinear_arith);
        assert(a as int <= 0 && b as int <= 0 ==> a as int * b as int >= 0) by (nonlinear_arith);
    }
    let p: u128 = (ma as u128) * (mb as u128);
    let q: u128 = udiv_trunc(p, 65536);
    proof {
        lemma_tdiv_bound(a as int * b as int, ONE as int, p as int);
        assert(q == s_abs(s_mul(a as int, b as int)));
    }
    if neg {
        let r: i64 = (-(q as i128)) as i64;
        proof {
            assert(s_mul(a as int, b as int) <= 0);
        }
        r
    } else {
        let r: i64 = q as i64;
        r
    }
}

/// Exact fixed-point division by a positive divisor.
pub fn fp_div(a: i64, b: i64) -> (r: i64)
    requires
        b > 0,
        i64::MIN <= s_div(a as int, b as int) <= i64::MAX,
    ensures
        r == s_div(a as int, b as int),
{
    let neg: bool = a < 0;
    let ma: u64 = if a < 0 {
        (-(a as i128)) as u64
    } else {
        a as u64
    };
    proof {
        assert(ma == s_abs(a as int));
        assert(ma as int * ONE as int == s_abs(a as int * ONE as int)) by (nonlinear_arith)
            requires
                ma == s_abs(a as int),
        ;
        assert(a < 0 ==> a as int * ONE as int <= 0) by (nonlinear_arith);
        assert(a >= 0 ==> a as int * ONE as int >= 0) by (nonlinear_arith);
    }
    let p: u128 = (ma as u128) * 65536;
    let q: u128 = udiv_trunc(p, b as u128);
    proof {
        lemma_tdiv_bound(a as int * ONE as int, b as int, p as int);
        assert(q == s_abs(s_div(a as int, b as int)));
    }
    if neg {
        let r: i64 = (-(q as i128)) as i64;
        proof {
            assert(s_div(a as int, b as int) <= 0);
        }
        r
    } else {
        let r: i64 = q as i64;
        r
    }
}

/// Exact truncated halving.
pub fn fp_half(a: i64) -> (r: i64)
    ensures
        r == s_half(a as int),
{
    let neg: bool = a < 0;
    let ma: u64 = if a < 0 {
        (-(a as i128)) as u64
    } else {
        a as u64
    };
    let q: u64 = ma / 2;
    proof {
        assert(ma == s_abs(a as int));
        lemma_tdiv_bound(a as int, 2, ma as int);
    }
    if neg {
        -(q as i64)
    } else {
        q as i64
    }
}

/// A coordinate clamped to the representable range.
pub fn fp_cap(a: i64) -> (r: i64)
    ensures
        r == s_cap(a as int),
{
    if a < -COORD_MAX {
        -COORD_MAX
    } else if a > COORD_MAX {
        COORD_MAX
    } else {
        a
    }
}

} // verus!
