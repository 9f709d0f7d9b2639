//! Three-component fixed-point vectors and two-component texture
//! coordinates.
//!
//! The same `Vec3` carries both positions (affine points) and normals
//! (directions); transforms treat the two differently. Spec-level geometry
//! speaks of triples of unbounded integers, and `v3t` maps a concrete
//! vector to its triple.

use vstd::prelude::*;
use crate::fx::{ONE, s_abs, s_mul, s_div, s_tdiv, lemma_s_div_unit_bound};
use crate::trig::{s_isqrt, isqrt, lemma_s_isqrt_bounds};

verus! {

/// A point or direction: three fixed-point components.
#[derive(Clone, Copy, PartialEq, Eq, Structural, Debug)]
pub struct Vec3 {
    pub x: i64,
    pub y: i64,
    pub z: i64,
}

/// A texture coordinate: two fixed-point components.
#[derive(Clone, Copy, PartialEq, Eq, Structural, Debug)]
pub struct UV2 {
    pub u: i64,
    pub v: i64,
}

/// The integer triple a vector holds.
pub open spec fn v3t(v: Vec3) -> (int, int, int) {
    (v.x as int, v.y as int, v.z as int)
}

/// The integer pair a texture coordinate holds.
pub open spec fn uvt(t: UV2) -> (int, int) {
    (t.u as int, t.v as int)
}

/// Every component of the triple is within `m` in magnitude.
pub open spec fn t3_bounded(t: (int, int, int), m: int) -> bool {
    s_abs(t.0) <= m && s_abs(t.1) <= m && s_abs(t.2) <= m
}

/// A sequence of vectors holds exactly a sequence of triples.
pub open spec fn vecs_are(s: Seq<Vec3>, m: Seq<(int, int, int)>) -> bool {
    s.len() == m.len() && forall|i: int| 0 <= i < s.len() ==> v3t(s[i]) == #[trigger] m[i]
}

/// A sequence of texture coordinates holds exactly a sequence of pairs.
pub open spec fn uvs_are(s: Seq<UV2>, m: Seq<(int, int)>) -> bool {
    s.len() == m.len() && forall|i: int| 0 <= i < s.len() ==> uvt(s[i]) == #[trigger] m[i]
}

/// A sequence of indices holds exactly a sequence of integers.
pub open spec fn idxs_are(s: Seq<u32>, m: Seq<int>) -> bool {
    s.len() == m.len() && forall|i: int| 0 <= i < s.len() ==> s[i] == #[trigger] m[i]
}

/// Componentwise difference of two triples.
pub open spec fn t3_sub(a: (int, int, int), b: (int, int, int)) -> (int, int, int) {
    (a.0 - b.0, a.1 - b.1, a.2 - b.2)
}

/// The fixed-point cross product of two triples.
pub open spec fn s_cross(a: (int, int, int), b: (int, int, int)) -> (int, int, int) {
    (
        s_mul(a.1, b.2) - s_mul(a.2, b.1),
        s_mul(a.2, b.0) - s_mul(a.0, b.2),
        s_mul(a.0, b.1) - s_mul(a.1, b.0),
    )
}

/// A triple scaled to unit length: each component divided by the integer
/// square root of the sum of raw component squares. The zero triple stays
/// zero.
pub open spec fn s_norm3(t: (int, int, int)) -> (int, int, int) {
    let n2 = t.0 * t.0 + t.1 * t.1 + t.2 * t.2;
    if n2 == 0 {
        (0, 0, 0)
    } else {
        let l = s_isqrt(n2);
        (s_div(t.0, l), s_div(t.1, l), s_div(t.2, l))
    }
}

/// Componentwise difference.
pub fn v3_sub(a: Vec3, b: Vec3) -> (r: Vec3)
    requires
        t3_bounded(v3t(a), 0x1000_0000_0000_0000),
        t3_bounded(v3t(b), 0x1000_0000_0000_0000),
    ensures
        v3t(r) == (a.x - b.x, a.y - b.y, a.z - b.z),
{
    Vec3 { x: a.x - b.x, y: a.y - b.y, z: a.z - b.z }
}

/// The fixed-point cross product.
pub fn v3_cross(a: Vec3, b: Vec3) -> (r: Vec3)
    requires
        t3_bounded(v3t(a), 0x40_0000_0000),
        t3_bounded(v3t(b), 0x40_0000_0000),
    ensures
        v3t(r) == s_cross(v3t(a), v3t(b)),
        t3_bounded(v3t(r), 0x4000_0000_0000_0000),
{
    proof {
        crate::fx::lemma_s_mul_bound(a.y as int, b.z as int, 0x40_0000_0000, 0x40_0000_0000);
        crate::fx::lemma_s_mul_bound(a.z as int, b.y as int, 0x40_0000_0000, 0x40_0000_0000);
        crate::fx::lemma_s_mul_bound(a.z as int, b.x as int, 0x40_0000_0000, 0x40_0000_0000);
        crate::fx::lemma_s_mul_bound(a.x as int, b.z as int, 0x40_0000_0000, 0x40_0000_0000);
        crate::fx::lemma_s_mul_bound(a.x as int, b.y as int, 0x40_0000_0000, 0x40_0000_0000);
        crate::fx::lemma_s_mul_bound(a.y as int, b.x as int, 0x40_0000_0000, 0x40_0000_0000);
    }
    let cx = crate::fx::fp_mul(a.y, b.z) - crate::fx::fp_mul(a.z, b.y);
    let cy = crate::fx::fp_mul(a.z, b.x) - crate::fx::fp_mul(a.x, b.z);
    let cz = crate::fx::fp_mul(a.x, b.y) - crate::fx::fp_mul(a.y, b.x);
    Vec3 { x: cx, y: cy, z: cz }
}

/// Scale a vector to unit length; the zero vector stays zero.
///
/// Every component of the result is within one unit in magnitude.
pub fn v3_normalize(v: Vec3) -> (r: Vec3)
    requires
        t3_bounded(v3t(v), 0x4000_0000_0000_0000),
    ensures
        v3t(r) == s_norm3(v3t(v)),
        t3_bounded(v3t(r), ONE as int),
{
    let mx: u64 = if v.x < 0 {
        (-(v.x as i128)) as u64
    } else {
        v.x as u64
    };
    let my: u64 = if v.y < 0 {
        (-(v.y as i128)) as u64
    } else {
        v.y as u64
    };
    let mz: u64 = if v.z < 0 {
        (-(v.z as i128)) as u64
    } else {
        v.z as u64
    };
    proof {
        assert(mx == s_abs(v.x as int));
        assert(my == s_abs(v.y as int));
        assert(mz == s_abs(v.z as int));
        assert(mx as int * mx as int == (v.x as int) * (v.x as int)) by (nonlinear_arith)
            requires
                mx == s_abs(v.x as int),
        ;
        assert(my as int * my as int == (v.y as int) * (v.y as int)) by (nonlinear_arith)
            requires
                my == s_abs(v.y as int),
        ;
        assert(mz as int * mz as int == (v.z as int) * (v.z as int)) by (nonlinear_arith)
            requires
                mz == s_abs(v.z as int),
        ;
        assert(mx as int * mx as int <= 0x4000_0000_0000_0000 * 0x4000_0000_0000_0000)
            by (nonlinear_arith)
            requires
                mx <= 0x4000_0000_0000_0000,
        ;
        assert(my as int * my as int <= 0x4000_0000_0000_0000 * 0x4000_0000_0000_0000)
            by (nonlinear_arith)
            requires
                my <= 0x4000_0000_0000_0000,
        ;
        assert(mz as int * mz as int <= 0x4000_0000_0000_0000 * 0x4000_0000_0000_0000)
            by (nonlinear_arith)
            requires
                mz <= 0x4000_0000_0000_0000,
        ;
    }
    let n2: u128 = (mx as u128) * (mx as u128) + (my as u128) * (my as u128) + (mz as u128) * (
    mz as u128);
    if n2 == 0 {
        proof {
            assert((v.x as int) * (v.x as int) >= 0) by (nonlinear_arith);
            assert((v.y as int) * (v.y as int) >= 0) by (nonlinear_arith);
            assert((v.z as int) * (v.z as int) >= 0) by (nonlinear_arith);
        }
        Vec3 { x: 0, y: 0, z: 0 }
    } else {
        let l: u64 = isqrt(n2);
        proof {
            lemma_s_isqrt_bounds(n2 as int);
            let li = l as int;
            assert(li >= 1) by {
                assert(li >= 0);
                if li == 0 {
                    assert((li + 1) * (li + 1) == 1) by (nonlinear_arith)
                        requires
                            li == 0,
                    ;
                    assert(n2 < 1);
                }
            }
            assert(s_abs(v.x as int) <= li) by {
                if s_abs(v.x as int) > li {
                    assert((li + 1) * (li + 1) <= mx as int * mx as int) by (nonlinear_arith)
                        requires
                            0 <= li,
                            li + 1 <= mx as int,
                    ;
                }
            }
            assert(s_abs(v.y as int) <= li) by {
                if s_abs(v.y as int) > li {
                    assert((li + 1) * (li + 1) <= my as int * my as int) by (nonlinear_arith)
                        requires
                            0 <= li,
                            li + 1 <= my as int,
                    ;
                }
            }
            assert(s_abs(v.z as int) <= li) by {
                if s_abs(v.z as int) > li {
                    assert((li + 1) * (li + 1) <= mz as int * mz as int) by (nonlinear_arith)
                        requires
                            0 <= li,
                            li + 1 <= mz as int,
                    ;
                }
            }
            assert(li <= i64::MAX) by {
                assert(n2 as int <= 3 * (0x4000_0000_0000_0000 * 0x4000_0000_0000_0000));
                if li > i64::MAX {
                    assert(li * li > 3 * (0x4000_0000_0000_0000 * 0x4000_0000_0000_0000))
                        by (nonlinear_arith)
                        requires
                            li >= 0x8000_0000_0000_0000,
                    ;
                }
            }
            lemma_s_div_unit_bound(v.x as int, li);
            lemma_s_div_unit_bound(v.y as int, li);
            lemma_s_div_unit_bound(v.z as int, li);
        }
        let li: i64 = l as i64;
        Vec3 {
            x: crate::fx::fp_div(v.x, li),
            y: crate::fx::fp_div(v.y, li),
            z: crate::fx::fp_div(v.z, li),
        }
    }
}

/// An axis-aligned vector scales to exactly the unit vector along its
/// axis: for these inputs the approximate normalization is exact.
pub proof fn lemma_norm3_axis(t: (int, int, int))
    requires
        t.0 == 0 && t.1 == 0 && t.2 != 0 || t.0 == 0 && t.2 == 0 && t.1 != 0 || t.1 == 0 && t.2
            == 0 && t.0 != 0,
        t3_bounded(t, 0x4000_0000_0000_0000),
    ensures
        t.2 > 0 ==> s_norm3(t) == (0int, 0int, ONE as int),
        t.2 < 0 ==> s_norm3(t) == (0int, 0int, -(ONE as int)),
        t.1 > 0 ==> s_norm3(t) == (0int, ONE as int, 0int),
        t.1 < 0 ==> s_norm3(t) == (0int, -(ONE as int), 0int),
        t.0 > 0 ==> s_norm3(t) == (ONE as int, 0int, 0int),
        t.0 < 0 ==> s_norm3(t) == (-(ONE as int), 0int, 0int),
{
    let v = if t.0 != 0 {
        t.0
    } else if t.1 != 0 {
        t.1
    } else {
        t.2
    };
    let a = s_abs(v);
    let n2 = t.0 * t.0 + t.1 * t.1 + t.2 * t.2;
    assert(a == v || a == -v);
    assert(n2 == v * v) by (nonlinear_arith)
        requires
            n2 == t.0 * t.0 + t.1 * t.1 + t.2 * t.2,
            (t.0 == 0 && t.1 == 0 && t.2 == v) || (t.0 == 0 && t.2 == 0 && t.1 == v) || (t.1
                == 0 && t.2 == 0 && t.0 == v),
    ;
    assert(v * v == a * a) by (nonlinear_arith)
        requires
            a == v || a == -v,
    ;
    assert(a * a > 0) by (nonlinear_arith)
        requires
            a > 0,
    ;
    assert((a + 1) * (a + 1) > a * a) by (nonlinear_arith)
        requires
            a > 0,
    ;
    crate::trig::lemma_s_isqrt_unique(n2, a);
    let l = crate::trig::s_isqrt(n2);
    assert(l == a);
    assert(s_div(v, l) == if v > 0 {
        ONE as int
    } else {
        -(ONE as int)
    }) by {
        if v > 0 {
            vstd::arithmetic::div_mod::lemma_div_multiples_vanish(ONE as int, a);
            assert(v * (ONE as int) == a * (ONE as int));
            assert(a * (ONE as int) == (ONE as int) * a) by (nonlinear_arith);
        } else {
            vstd::arithmetic::div_mod::lemma_div_multiples_vanish(ONE as int, a);
            assert((-v) * (ONE as int) == a * (ONE as int)) by (nonlinear_arith)
                requires
                    a == -v,
            ;
            assert(a * (ONE as int) == (ONE as int) * a) by (nonlinear_arith);
            assert(s_tdiv(v * (ONE as int), a) == -(((-(v * (ONE as int)))) / a));
            assert(-(v * (ONE as int)) == (-v) * (ONE as int)) by (nonlinear_arith);
        }
    }
    assert(s_div(0, l) == 0) by {
        assert(0int * (ONE as int) == 0);
        vstd::arithmetic::div_mod::lemma_div_of0(a);
    }
}

/// One component of a normalization, on magnitudes: the truncated
/// quotient squares like its magnitude quotient, which splits exactly
/// into quotient and remainder.
proof fn lemma_norm_component(ti: int, l: int)
    requires
        l > 0,
    ensures
        s_tdiv(ti * (ONE as int), l) * s_tdiv(ti * (ONE as int), l) == ((s_abs(ti) * (ONE as int))
            / l) * ((s_abs(ti) * (ONE as int)) / l),
        l * ((s_abs(ti) * (ONE as int)) / l) + (s_abs(ti) * (ONE as int)) % l == s_abs(ti) * (
        ONE as int),
        0 <= (s_abs(ti) * (ONE as int)) % l < l,
        0 <= (s_abs(ti) * (ONE as int)) / l,
{
    let a = s_abs(ti);
    assert(a * (ONE as int) >= 0) by (nonlinear_arith)
        requires
            a >= 0,
    ;
    vstd::arithmetic::div_mod::lemma_fundamental_div_mod(a * (ONE as int), l);
    vstd::arithmetic::div_mod::lemma_mod_division_less_than_divisor(a * (ONE as int), l);
    vstd::arithmetic::div_mod::lemma_div_pos_is_pos(a * (ONE as int), l);
    if ti >= 0 {
        assert(ti * (ONE as int) == a * (ONE as int));
    } else {
        assert(-(ti * (ONE as int)) == a * (ONE as int)) by (nonlinear_arith)
            requires
                a == -ti,
        ;
        assert(ti * (ONE as int) <= 0) by (nonlinear_arith)
            requires
                ti <= 0,
        ;
        let q = (a * (ONE as int)) / l;
        assert(s_tdiv(ti * (ONE as int), l) == -q);
        assert((-q) * (-q) == q * q) by (nonlinear_arith);
    }
}

/// The expansion of one squared component: from `l*q + r == a*u`,
/// `l*l*(q*q) == u*u*(a*a) - 2*u*(a*r) + r*r`.
proof fn lemma_square_expansion(l: int, q: int, r: int, a: int, u: int)
    requires
        l * q + r == a * u,
    ensures
        l * l * (q * q) == u * u * (a * a) - 2 * u * (a * r) + r * r,
{
    let lq = l * q;
    assert(lq == a * u - r);
    assert(lq * lq == (a * u - r) * (a * u - r));
    assert((a * u - r) * (a * u - r) == u * u * (a * a) - 2 * u * (a * r) + r * r)
        by (nonlinear_arith);
    assert(lq * lq == l * l * (q * q)) by (nonlinear_arith)
        requires
            lq == l * q,
    ;
}

/// Scaling a vector at least one unit long to unit length really does
/// give near-unit length: the squared length of the result lies within
/// six units below and three above one squared unit, the residue of the
/// fixed-point grid. This is the tolerance behind the flat-shaded face
/// normals, which are all such normalizations.
pub proof fn lemma_norm3_near_unit(t: (int, int, int))
    requires
        t3_bounded(t, 0x4000_0000_0000_0000),
        t.0 * t.0 + t.1 * t.1 + t.2 * t.2 >= (ONE as int) * (ONE as int),
    ensures
        ({
            let n = s_norm3(t);
            (ONE as int) * (ONE as int) - 6 * (ONE as int) <= n.0 * n.0 + n.1 * n.1 + n.2 * n.2
                <= (ONE as int) * (ONE as int) + 2 * (ONE as int) + 3
        }),
{
    let u = ONE as int;
    let m = t.0 * t.0 + t.1 * t.1 + t.2 * t.2;
    let l = s_isqrt(m);
    lemma_s_isqrt_bounds(m);
    assert(l >= u) by {
        if l < u {
            assert((l + 1) * (l + 1) <= u * u) by (nonlinear_arith)
                requires
                    0 <= l,
                    l + 1 <= u,
            ;
        }
    }
    let a0 = s_abs(t.0);
    let a1 = s_abs(t.1);
    let a2 = s_abs(t.2);
    assert(m == a0 * a0 + a1 * a1 + a2 * a2) by (nonlinear_arith)
        requires
            m == t.0 * t.0 + t.1 * t.1 + t.2 * t.2,
            a0 == s_abs(t.0),
            a1 == s_abs(t.1),
            a2 == s_abs(t.2),
    ;
    assert(a0 <= l) by {
        if a0 > l {
            assert((l + 1) * (l + 1) <= a0 * a0) by (nonlinear_arith)
                requires
                    0 <= l,
                    l + 1 <= a0,
            ;
            assert(a1 * a1 >= 0) by (nonlinear_arith);
            assert(a2 * a2 >= 0) by (nonlinear_arith);
        }
    }
    assert(a1 <= l) by {
        if a1 > l {
            assert((l + 1) * (l + 1) <= a1 * a1) by (nonlinear_arith)
                requires
                    0 <= l,
                    l + 1 <= a1,
            ;
            assert(a0 * a0 >= 0) by (nonlinear_arith);
            assert(a2 * a2 >= 0) by (nonlinear_arith);
        }
    }
    assert(a2 <= l) by {
        if a2 > l {
            assert((l + 1) * (l + 1) <= a2 * a2) by (nonlinear_arith)
                requires
                    0 <= l,
                    l + 1 <= a2,
            ;
            assert(a0 * a0 >= 0) by (nonlinear_arith);
            assert(a1 * a1 >= 0) by (nonlinear_arith);
        }
    }
    lemma_norm_component(t.0, l);
    lemma_norm_component(t.1, l);
    lemma_norm_component(t.2, l);
    let q0 = (a0 * u) / l;
    let q1 = (a1 * u) / l;
    let q2 = (a2 * u) / l;
    let r0 = (a0 * u) % l;
    let r1 = (a1 * u) % l;
    let r2 = (a2 * u) % l;
    lemma_square_expansion(l, q0, r0, a0, u);
    lemma_square_expansion(l, q1, r1, a1, u);
    lemma_square_expansion(l, q2, r2, a2, u);
    let n = s_norm3(t);
    assert(m != 0) by {
        assert(u * u > 0) by (nonlinear_arith)
            requires
                u > 0,
        ;
    }
    let bign = n.0 * n.0 + n.1 * n.1 + n.2 * n.2;
    assert(bign == q0 * q0 + q1 * q1 + q2 * q2);
    assert(l * l * bign == l * l * (q0 * q0) + l * l * (q1 * q1) + l * l * (q2 * q2))
        by (nonlinear_arith)
        requires
            bign == q0 * q0 + q1 * q1 + q2 * q2,
    ;
    let s = a0 * r0 + a1 * r1 + a2 * r2;
    let rr = r0 * r0 + r1 * r1 + r2 * r2;
    assert(u * u * (a0 * a0) + u * u * (a1 * a1) + u * u * (a2 * a2) == u * u * m)
        by (nonlinear_arith)
        requires
            m == a0 * a0 + a1 * a1 + a2 * a2,
    ;
    assert(2 * u * (a0 * r0) + 2 * u * (a1 * r1) + 2 * u * (a2 * r2) == 2 * u * s)
        by (nonlinear_arith)
        requires
            s == a0 * r0 + a1 * r1 + a2 * r2,
    ;
    assert(l * l * bign == u * u * m - 2 * u * s + rr);
    assert(0 <= s <= 3 * (l * l)) by (nonlinear_arith)
        requires
            s == a0 * r0 + a1 * r1 + a2 * r2,
            0 <= a0 <= l,
            0 <= a1 <= l,
            0 <= a2 <= l,
            0 <= r0 < l,
            0 <= r1 < l,
            0 <= r2 < l,
    ;
    assert(0 <= rr <= 3 * (l * l)) by (nonlinear_arith)
        requires
            rr == r0 * r0 + r1 * r1 + r2 * r2,
            0 <= r0 < l,
            0 <= r1 < l,
            0 <= r2 < l,
    ;
    assert(l * l <= m) by (nonlinear_arith)
        requires
            l * l <= m,
    ;
    assert(m <= l * l + 2 * l) by (nonlinear_arith)
        requires
            m < (l + 1) * (l + 1),
    ;
    assert(u * u * m >= u * u * (l * l)) by (nonlinear_arith)
        requires
            m >= l * l,
            u > 0,
    ;
    assert(u * u * m <= u * u * (l * l) + 2 * ((u * u) * l)) by (nonlinear_arith)
        requires
            m <= l * l + 2 * l,
            u > 0,
    ;
    assert(2 * u * s <= 6 * (u * (l * l))) by (nonlinear_arith)
        requires
            0 <= s <= 3 * (l * l),
            u > 0,
    ;
    assert(l * l * bign >= u * u * (l * l) - 6 * (u * (l * l))) by {
        assert(rr >= 0);
    }
    assert(u * u * (l * l) - 6 * (u * (l * l)) == l * l * (u * u - 6 * u)) by (nonlinear_arith);
    assert(bign >= u * u - 6 * u) by (nonlinear_arith)
        requires
            l * l * bign >= l * l * (u * u - 6 * u),
            l > 0,
    ;
    assert(2 * ((u * u) * l) <= 2 * (u * (l * l))) by (nonlinear_arith)
        requires
            u <= l,
            u > 0,
            l > 0,
    ;
    assert(l * l * bign <= u * u * (l * l) + 2 * (u * (l * l)) + 3 * (l * l)) by {
        assert(2 * u * s >= 0) by (nonlinear_arith)
            requires
                s >= 0,
                u > 0,
        ;
    }
    assert(u * u * (l * l) + 2 * (u * (l * l)) + 3 * (l * l) == l * l * (u * u + 2 * u + 3))
        by (nonlinear_arith);
    assert(bign <= u * u + 2 * u + 3) by (nonlinear_arith)
        requires
            l * l * bign <= l * l * (u * u + 2 * u + 3),
            l > 0,
    ;
}

} // verus!


