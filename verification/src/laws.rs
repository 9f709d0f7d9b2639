//! Laws relating the buffer operations and the generators: what the
//! identity and pure translations do to whole buffers, how a ring
//! starts and steps, how far a cylinder spans, and that flat-shaded
//! normals are unit length up to the fixed-point grid.

use vstd::prelude::*;
use crate::fx::{TAU, COORD_MAX, SPAN_MAX, s_abs, s_mul, lemma_s_mul_one, lemma_s_mul_zero};
use crate::trig::{s_cos, s_sin, lemma_sin_cos_zero};
use crate::vec3::{v3t, t3_bounded};
use crate::transform::{
    AffineTransform, s_apply_point, s_apply_vector, lemma_identity_fixes, lemma_translation_shifts,
};
use crate::buffer::{MeshBuffer, buf_in_range};
use crate::ring::{Circle, circle_bounded, ring_angle, ring_step, rings_model};

verus! {

/// Transforming by the identity maps every position and every normal of
/// an in-range buffer to itself.
pub proof fn lemma_identity_transform_is_noop(b: MeshBuffer)
    requires
        buf_in_range(b),
    ensures
        forall|i: int|
            0 <= i < b.positions@.len() ==> s_apply_point(
                AffineTransform::spec_identity(),
                v3t(#[trigger] b.positions@[i]),
            ) == v3t(b.positions@[i]),
        forall|i: int|
            0 <= i < b.normals@.len() ==> s_apply_vector(
                AffineTransform::spec_identity(),
                v3t(#[trigger] b.normals@[i]),
            ) == v3t(b.normals@[i]),
{
    assert forall|i: int| 0 <= i < b.positions@.len() implies s_apply_point(
        AffineTransform::spec_identity(),
        v3t(#[trigger] b.positions@[i]),
    ) == v3t(b.positions@[i]) by {
        lemma_identity_fixes(v3t(b.positions@[i]));
    }
    assert forall|i: int| 0 <= i < b.normals@.len() implies s_apply_vector(
        AffineTransform::spec_identity(),
        v3t(#[trigger] b.normals@[i]),
    ) == v3t(b.normals@[i]) by {
        lemma_identity_fixes(v3t(b.normals@[i]));
    }
}

/// Transforming by a pure translation leaves every normal of an
/// in-range buffer unchanged, and shifts every position by exactly the
/// translation vector as long as the shifted position stays in range.
pub proof fn lemma_translation_transform_shifts(b: MeshBuffer, t: AffineTransform)
    requires
        t == (AffineTransform { t: t.t, ..AffineTransform::spec_identity() }),
        buf_in_range(b),
        forall|i: int|
            0 <= i < b.positions@.len() ==> {
                let p = v3t(#[trigger] b.positions@[i]);
                s_abs(p.0 + t.t.x) <= COORD_MAX as int && s_abs(p.1 + t.t.y) <= COORD_MAX as int
                    && s_abs(p.2 + t.t.z) <= COORD_MAX as int
            },
    ensures
        forall|i: int|
            0 <= i < b.positions@.len() ==> s_apply_point(t, v3t(#[trigger] b.positions@[i]))
                == (
            v3t(b.positions@[i]).0 + t.t.x,
            v3t(b.positions@[i]).1 + t.t.y,
            v3t(b.positions@[i]).2 + t.t.z,
            ),
        forall|i: int|
            0 <= i < b.normals@.len() ==> s_apply_vector(t, v3t(#[trigger] b.normals@[i])) == v3t(
                b.normals@[i],
            ),
{
    assert forall|i: int| 0 <= i < b.positions@.len() implies s_apply_point(
        t,
        v3t(#[trigger] b.positions@[i]),
    ) == (
        v3t(b.positions@[i]).0 + t.t.x,
        v3t(b.positions@[i]).1 + t.t.y,
        v3t(b.positions@[i]).2 + t.t.z,
    ) by {
        lemma_translation_shifts(t, v3t(b.positions@[i]));
    }
    assert forall|i: int| 0 <= i < b.normals@.len() implies s_apply_vector(
        t,
        v3t(#[trigger] b.normals@[i]),
    ) == v3t(b.normals@[i]) by {
        crate::transform::lemma_translation_fixes_vector(t, v3t(b.normals@[i]));
    }
}

/// A closed ring starts exactly at `(radius, 0, height)`, and every
/// pair of consecutive ring points is separated by the same angular
/// step.
pub proof fn lemma_ring_start_and_step(c: Circle, res: int, gap: int)
    requires
        1 <= res,
        0 <= gap <= TAU as int,
        circle_bounded(c, SPAN_MAX as int),
    ensures
        rings_model(seq![c], res, gap)[0] == (c.radius as int, 0int, c.height as int),
        forall|i: int|
            1 <= i < res ==> #[trigger] ring_angle(i, res, gap) - ring_angle(i - 1, res, gap)
                == ring_step(res, gap),
{
    vstd::arithmetic::div_mod::lemma_basic_div(0, res);
    vstd::arithmetic::div_mod::lemma_small_mod(0nat, res as nat);
    assert(seq![c].len() == 1);
    assert(rings_model(seq![c], res, gap).len() == res) by (nonlinear_arith)
        requires
            rings_model(seq![c], res, gap).len() == seq![c].len() * res,
            seq![c].len() == 1,
    ;
    assert(ring_angle(0, res, gap) == 0) by (nonlinear_arith);
    lemma_sin_cos_zero();
    lemma_s_mul_one(c.radius as int);
    lemma_s_mul_zero(c.radius as int);
    assert(rings_model(seq![c], res, gap)[0] == (
        s_mul(c.radius as int, s_cos(0)),
        s_mul(c.radius as int, s_sin(0)),
        c.height as int,
    ));
    assert forall|i: int| 1 <= i < res implies #[trigger] ring_angle(i, res, gap) - ring_angle(
        i - 1,
        res,
        gap,
    ) == ring_step(res, gap) by {
        assert(i * ring_step(res, gap) - (i - 1) * ring_step(res, gap) == ring_step(res, gap))
            by (nonlinear_arith);
    }
}

/// A cylinder's positions span exactly half its height both ways: no
/// point lies beyond, the first rim point touches the bottom, and the
/// first top-rim point touches the top.
pub proof fn lemma_cylinder_height_span(radius: i64, height: i64)
    requires
        0 <= height <= crate::fx::SHAPE_MAX,
        s_abs(radius as int) <= crate::fx::SHAPE_MAX as int,
    ensures
        forall|j: int|
            0 <= j < crate::shapes::cylinder_positions(radius, height).len()
                ==> -crate::fx::s_half(height as int) <= (#[trigger] crate::shapes::cylinder_positions(
                radius,
                height,
            )[j]).2 <= crate::fx::s_half(height as int),
        crate::shapes::cylinder_positions(radius, height)[0].2 == -crate::fx::s_half(
            height as int,
        ),
        crate::shapes::cylinder_positions(radius, height)[32].2 == crate::fx::s_half(
            height as int,
        ),
{
    let hh = crate::fx::s_half(height as int);
    vstd::arithmetic::div_mod::lemma_div_pos_is_pos(height as int, 2);
    vstd::arithmetic::div_mod::lemma_div_nonincreasing(height as int, 2);
    let bottom = Circle { radius, height: (-hh) as i64 };
    let top = Circle { radius, height: hh as i64 };
    let mid = Circle { radius, height: 0 };
    let side = rings_model(seq![bottom, top], 32, 0);
    let capm = crate::shapes::cap_positions(mid, 32);
    let below = crate::shapes::map_pts(
        crate::transform::spec_translation((0int, 0int, -hh)),
        capm,
    );
    let above = crate::shapes::map_pts(
        crate::transform::spec_with_translation(
            crate::transform::spec_rot_x_half(),
            (0int, 0int, hh),
        ),
        capm,
    );
    assert(side.len() == 64) by (nonlinear_arith)
        requires
            side.len() == seq![bottom, top].len() * 32,
            seq![bottom, top].len() == 2,
    ;
    assert(capm.len() == 33) by {
        assert(rings_model(seq![mid], 32, 0).len() == 32) by (nonlinear_arith)
            requires
                rings_model(seq![mid], 32, 0).len() == seq![mid].len() * 32,
                seq![mid].len() == 1,
        ;
    }
    assert forall|j: int| 0 <= j < 33 implies #[trigger] capm[j].2 == 0 by {
        if j < 32 {
            vstd::arithmetic::div_mod::lemma_basic_div(j, 32);
            vstd::arithmetic::div_mod::lemma_small_mod(j as nat, 32nat);
            assert(capm[j] == rings_model(seq![mid], 32, 0)[j]);
        }
    }
    assert forall|j: int| 0 <= j < 64 implies -hh <= (#[trigger] side[j]).2 <= hh by {
        vstd::arithmetic::div_mod::lemma_fundamental_div_mod(j, 32);
        vstd::arithmetic::div_mod::lemma_mod_division_less_than_divisor(j, 32);
        let k = j / 32;
        assert(0 <= k < 2) by (nonlinear_arith)
            requires
                j == 32 * k + j % 32,
                0 <= j % 32 < 32,
                0 <= j < 64,
        ;
        assert(side[j].2 == seq![bottom, top][k].height);
    }
    assert forall|j: int| 0 <= j < 33 implies (#[trigger] below[j]).2 == -hh by {
        assert(capm[j].2 == 0);
        lemma_s_mul_zero(capm[j].0);
        lemma_s_mul_zero(capm[j].1);
        lemma_s_mul_one(capm[j].2);
        assert(crate::fx::s_cap(0 + 0 + 0 + (-hh)) == -hh);
    }
    assert forall|j: int| 0 <= j < 33 implies (#[trigger] above[j]).2 == hh by {
        assert(capm[j].2 == 0);
        lemma_s_mul_zero(capm[j].0);
        lemma_s_mul_zero(capm[j].1);
        lemma_s_mul_zero(capm[j].2);
        assert(crate::transform::spec_rot_x_half().m22 as int * capm[j].2 == capm[j].2 * (
        crate::transform::spec_rot_x_half().m22 as int)) by (nonlinear_arith);
        assert(s_mul(crate::transform::spec_rot_x_half().m22 as int, capm[j].2) == 0);
        assert(crate::fx::s_cap(0 + 0 + 0 + hh) == hh);
    }
    let whole = crate::shapes::cylinder_positions(radius, height);
    assert(whole == side + below + above);
    assert forall|j: int| 0 <= j < whole.len() implies -hh <= (#[trigger] whole[j]).2 <= hh by {
        if j < 64 {
            assert(whole[j] == side[j]);
        } else if j < 97 {
            assert(whole[j] == below[j - 64]);
        } else {
            assert(whole[j] == above[j - 97]);
        }
    }
    assert(whole[0] == side[0]);
    vstd::arithmetic::div_mod::lemma_basic_div(0, 32);
    vstd::arithmetic::div_mod::lemma_small_mod(0nat, 32nat);
    assert(side[0].2 == bottom.height);
    assert(whole[32] == side[32]);
    vstd::arithmetic::div_mod::lemma_fundamental_div_mod(32, 32);
    vstd::arithmetic::div_mod::lemma_mod_division_less_than_divisor(32, 32);
    assert(32int / 32 == 1 && 32int % 32 == 0) by {
        vstd::arithmetic::div_mod::lemma_fundamental_div_mod_converse(32, 32, 1, 0);
    }
    assert(side[32].2 == top.height);
}

/// Every stored normal of a faceted wrap has near-unit length: each
/// slot carries the unit-scaled cross product of its face's edges, so
/// whenever that face is non-degenerate (its edge cross product at
/// least one unit long), the stored normal's squared length lies within
/// the fixed-point grid's residue of one squared unit. A face whose
/// corners coincide yields the zero cross product and a zero normal,
/// the one input left out.
pub proof fn lemma_faceted_normals_near_unit(bottom: Circle, top: Circle, s: int, v: int)
    requires
        1 <= s <= 16384,
        circle_bounded(bottom, crate::fx::SHAPE_MAX as int),
        circle_bounded(top, crate::fx::SHAPE_MAX as int),
        0 <= v < 4 * (s + 1),
        ({
            let m = rings_model(seq![bottom, bottom, top, top], s + 1, 0);
            let i = crate::shapes::boxy_slot_face(s, v);
            let cr = crate::vec3::s_cross(
                crate::vec3::t3_sub(m[i + 3 * s + 4], m[i]),
                crate::vec3::t3_sub(m[i + 2 * s + 2], m[i]),
            );
            cr.0 * cr.0 + cr.1 * cr.1 + cr.2 * cr.2 >= (crate::fx::ONE as int) * (
            crate::fx::ONE as int)
        }),
    ensures
        ({
            let n = crate::shapes::boxy_wrap_normal_at(bottom, top, s, v);
            (crate::fx::ONE as int) * (crate::fx::ONE as int) - 6 * (crate::fx::ONE as int) <= n.0
                * n.0 + n.1 * n.1 + n.2 * n.2 <= (crate::fx::ONE as int) * (
            crate::fx::ONE as int) + 2 * (crate::fx::ONE as int) + 3
        }),
{
    let m = rings_model(seq![bottom, bottom, top, top], s + 1, 0);
    let i = crate::shapes::boxy_slot_face(s, v);
    assert(0 <= i < s);
    assert(m.len() == 4 * (s + 1)) by (nonlinear_arith)
        requires
            m.len() == seq![bottom, bottom, top, top].len() * (s + 1),
            seq![bottom, bottom, top, top].len() == 4,
    ;
    crate::ring::lemma_rings_bounded(
        seq![bottom, bottom, top, top],
        s + 1,
        0,
        crate::fx::SHAPE_MAX as int,
    );
    let p0 = m[i];
    let p1 = m[i + 3 * s + 4];
    let p2 = m[i + 2 * s + 2];
    let d1 = crate::vec3::t3_sub(p1, p0);
    let d2 = crate::vec3::t3_sub(p2, p0);
    lemma_cross_bounded(d1, d2);
    crate::vec3::lemma_norm3_near_unit(crate::vec3::s_cross(d1, d2));
}

/// Every stored normal of a pyramid has near-unit length, under the
/// same non-degeneracy hypothesis on the face's edge cross product.
pub proof fn lemma_pyramid_normals_near_unit(c: Circle, pk: (int, int, int), s: int, v: int)
    requires
        1 <= s <= 16384,
        circle_bounded(c, crate::fx::SHAPE_MAX as int),
        t3_bounded(pk, crate::fx::SHAPE_MAX as int),
        0 <= v < 3 * s + 2,
        ({
            let m = rings_model(seq![c, c], s + 1, 0);
            let i = crate::shapes::pyramid_slot_face(s, v);
            let cr = (if pk.2 < c.height {
                crate::vec3::s_cross(
                    crate::vec3::t3_sub(pk, m[i]),
                    crate::vec3::t3_sub(m[i + s + 2], m[i]),
                )
            } else {
                crate::vec3::s_cross(
                    crate::vec3::t3_sub(m[i + s + 2], m[i]),
                    crate::vec3::t3_sub(pk, m[i]),
                )
            });
            cr.0 * cr.0 + cr.1 * cr.1 + cr.2 * cr.2 >= (crate::fx::ONE as int) * (
            crate::fx::ONE as int)
        }),
    ensures
        ({
            let n = crate::shapes::pyramid_normal_at(c, pk, s, v);
            (crate::fx::ONE as int) * (crate::fx::ONE as int) - 6 * (crate::fx::ONE as int) <= n.0
                * n.0 + n.1 * n.1 + n.2 * n.2 <= (crate::fx::ONE as int) * (
            crate::fx::ONE as int) + 2 * (crate::fx::ONE as int) + 3
        }),
{
    let m = rings_model(seq![c, c], s + 1, 0);
    let i = crate::shapes::pyramid_slot_face(s, v);
    assert(0 <= i < s);
    assert(m.len() == 2 * (s + 1)) by (nonlinear_arith)
        requires
            m.len() == seq![c, c].len() * (s + 1),
            seq![c, c].len() == 2,
    ;
    crate::ring::lemma_rings_bounded(seq![c, c], s + 1, 0, crate::fx::SHAPE_MAX as int);
    let p0 = m[i];
    let p1 = m[i + s + 2];
    if pk.2 < c.height {
        let d1 = crate::vec3::t3_sub(pk, p0);
        let d2 = crate::vec3::t3_sub(p1, p0);
        lemma_cross_bounded(d1, d2);
        crate::vec3::lemma_norm3_near_unit(crate::vec3::s_cross(d1, d2));
    } else {
        let d1 = crate::vec3::t3_sub(p1, p0);
        let d2 = crate::vec3::t3_sub(pk, p0);
        lemma_cross_bounded(d1, d2);
        crate::vec3::lemma_norm3_near_unit(crate::vec3::s_cross(d1, d2));
    }
}

/// The cross product of two edge vectors within twice the shape range
/// stays in the normalization lemma's range.
proof fn lemma_cross_bounded(d1: (int, int, int), d2: (int, int, int))
    requires
        t3_bounded(d1, 2 * crate::fx::SHAPE_MAX as int),
        t3_bounded(d2, 2 * crate::fx::SHAPE_MAX as int),
    ensures
        t3_bounded(crate::vec3::s_cross(d1, d2), 0x4000_0000_0000_0000),
{
    let b = 2 * crate::fx::SHAPE_MAX as int;
    crate::fx::lemma_s_mul_bound(d1.1, d2.2, b, b);
    crate::fx::lemma_s_mul_bound(d1.2, d2.1, b, b);
    crate::fx::lemma_s_mul_bound(d1.2, d2.0, b, b);
    crate::fx::lemma_s_mul_bound(d1.0, d2.2, b, b);
    crate::fx::lemma_s_mul_bound(d1.0, d2.1, b, b);
    crate::fx::lemma_s_mul_bound(d1.1, d2.0, b, b);
    assert(b * b == 0x400_0000_0000_0000_0000) by (nonlinear_arith)
        requires
            b == 0x20_0000_0000,
    ;
    assert((b * b) / (crate::fx::ONE as int) == 0x400_0000_0000_0000);
}

} // verus!

