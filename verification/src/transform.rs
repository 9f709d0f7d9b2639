//! Affine transforms: translation, rotation and non-uniform scale.
//!
//! A transform applies its full affine map to positions and only its
//! linear part to normals; a normal transformed by a non-uniformly scaling
//! transform is re-scaled to unit length, since such a map distorts
//! directions. Transformed coordinates are clamped to the representable
//! coordinate range, which leaves in-range geometry untouched.

use vstd::prelude::*;
use crate::fx::{
    ONE, COORD_MAX, ENTRY_MAX, s_abs, s_mul, s_cap, fp_mul, fp_cap, lemma_s_mul_bound,
    lemma_s_mul_unit_bound, lemma_s_mul_one, lemma_s_mul_zero,
};
use crate::vec3::{Vec3, v3t, t3_bounded, s_norm3, v3_normalize};
use crate::trig::{s_sin, s_cos, sin_cos};

verus! {

/// Translation plus a linear part (rotation and scale), row-major.
///
/// `uniform` records whether the linear part scales every direction
/// alike; when it does not, transformed normals are re-scaled to unit
/// length.
#[derive(Clone, Copy, PartialEq, Eq, Structural, Debug)]
pub struct AffineTransform {
    pub m00: i64,
    pub m01: i64,
    pub m02: i64,
    pub m10: i64,
    pub m11: i64,
    pub m12: i64,
    pub m20: i64,
    pub m21: i64,
    pub m22: i64,
    pub t: Vec3,
    pub uniform: bool,
}

/// A transform whose entries and translation the arithmetic can take.
pub open spec fn t_wf(t: AffineTransform) -> bool {
    &&& s_abs(t.m00 as int) <= ENTRY_MAX as int
    &&& s_abs(t.m01 as int) <= ENTRY_MAX as int
    &&& s_abs(t.m02 as int) <= ENTRY_MAX as int
    &&& s_abs(t.m10 as int) <= ENTRY_MAX as int
    &&& s_abs(t.m11 as int) <= ENTRY_MAX as int
    &&& s_abs(t.m12 as int) <= ENTRY_MAX as int
    &&& s_abs(t.m20 as int) <= ENTRY_MAX as int
    &&& s_abs(t.m21 as int) <= ENTRY_MAX as int
    &&& s_abs(t.m22 as int) <= ENTRY_MAX as int
    &&& t3_bounded(v3t(t.t), COORD_MAX as int)
}

/// A pure rotation: linear entries within one unit, no translation,
/// uniform.
pub open spec fn t_rotation(t: AffineTransform) -> bool {
    &&& s_abs(t.m00 as int) <= ONE as int
    &&& s_abs(t.m01 as int) <= ONE as int
    &&& s_abs(t.m02 as int) <= ONE as int
    &&& s_abs(t.m10 as int) <= ONE as int
    &&& s_abs(t.m11 as int) <= ONE as int
    &&& s_abs(t.m12 as int) <= ONE as int
    &&& s_abs(t.m20 as int) <= ONE as int
    &&& s_abs(t.m21 as int) <= ONE as int
    &&& s_abs(t.m22 as int) <= ONE as int
    &&& t.t == (Vec3 { x: 0, y: 0, z: 0 })
    &&& t.uniform
}

/// The linear part applied to a triple.
pub open spec fn s_apply_linear(t: AffineTransform, p: (int, int, int)) -> (int, int, int) {
    (
        s_mul(t.m00 as int, p.0) + s_mul(t.m01 as int, p.1) + s_mul(t.m02 as int, p.2),
        s_mul(t.m10 as int, p.0) + s_mul(t.m11 as int, p.1) + s_mul(t.m12 as int, p.2),
        s_mul(t.m20 as int, p.0) + s_mul(t.m21 as int, p.1) + s_mul(t.m22 as int, p.2),
    )
}

/// The full affine map on a position: linear part, translation, then the
/// clamp to the coordinate range.
pub open spec fn s_apply_point(t: AffineTransform, p: (int, int, int)) -> (int, int, int) {
    let w = s_apply_linear(t, p);
    (s_cap(w.0 + t.t.x), s_cap(w.1 + t.t.y), s_cap(w.2 + t.t.z))
}

/// The map on a direction: linear part only; re-scaled to unit length
/// unless the transform scales uniformly, clamped either way.
pub open spec fn s_apply_vector(t: AffineTransform, v: (int, int, int)) -> (int, int, int) {
    let w = s_apply_linear(t, v);
    if t.uniform {
        (s_cap(w.0), s_cap(w.1), s_cap(w.2))
    } else {
        s_norm3(w)
    }
}

/// The transform a rotation about the z axis with the given cosine and
/// sine denotes.
pub open spec fn spec_rot_z(c: int, s: int) -> AffineTransform {
    AffineTransform {
        m00: c as i64,
        m01: (-s) as i64,
        m02: 0,
        m10: s as i64,
        m11: c as i64,
        m12: 0,
        m20: 0,
        m21: 0,
        m22: ONE,
        t: Vec3 { x: 0, y: 0, z: 0 },
        uniform: true,
    }
}

/// The same transform, translating by `t` after its linear part.
pub open spec fn spec_with_translation(tf: AffineTransform, t: (int, int, int)) -> AffineTransform {
    AffineTransform { t: (Vec3 { x: t.0 as i64, y: t.1 as i64, z: t.2 as i64 }), ..tf }
}

/// The given rotation preceded by a scale along the axes.
pub open spec fn spec_scaled(tf: AffineTransform, sx: int, sy: int, sz: int) -> AffineTransform {
    AffineTransform {
        m00: s_mul(tf.m00 as int, sx) as i64,
        m01: s_mul(tf.m01 as int, sy) as i64,
        m02: s_mul(tf.m02 as int, sz) as i64,
        m10: s_mul(tf.m10 as int, sx) as i64,
        m11: s_mul(tf.m11 as int, sy) as i64,
        m12: s_mul(tf.m12 as int, sz) as i64,
        m20: s_mul(tf.m20 as int, sx) as i64,
        m21: s_mul(tf.m21 as int, sy) as i64,
        m22: s_mul(tf.m22 as int, sz) as i64,
        t: tf.t,
        uniform: tf.uniform && sx == sy && sy == sz,
    }
}

/// An exact half turn about the x axis, at spec level.
pub open spec fn spec_rot_x_half() -> AffineTransform {
    AffineTransform {
        m00: ONE,
        m01: 0,
        m02: 0,
        m10: 0,
        m11: (-ONE) as i64,
        m12: 0,
        m20: 0,
        m21: 0,
        m22: (-ONE) as i64,
        t: Vec3 { x: 0, y: 0, z: 0 },
        uniform: true,
    }
}

/// An exact quarter turn about the y axis, at spec level.
pub open spec fn spec_rot_y_quarter() -> AffineTransform {
    AffineTransform {
        m00: 0,
        m01: 0,
        m02: ONE,
        m10: 0,
        m11: ONE,
        m12: 0,
        m20: (-ONE) as i64,
        m21: 0,
        m22: 0,
        t: Vec3 { x: 0, y: 0, z: 0 },
        uniform: true,
    }
}

/// A pure translation, at spec level.
pub open spec fn spec_translation(t: (int, int, int)) -> AffineTransform {
    spec_with_translation(AffineTransform::spec_identity(), t)
}

impl AffineTransform {
    /// The identity transform.
    pub fn identity() -> (r: AffineTransform)
        ensures
            r == (AffineTransform {
                m00: ONE,
                m01: 0,
                m02: 0,
                m10: 0,
                m11: ONE,
                m12: 0,
                m20: 0,
                m21: 0,
                m22: ONE,
                t: Vec3 { x: 0, y: 0, z: 0 },
                uniform: true,
            }),
            t_wf(r),
            t_rotation(r),
    {
        AffineTransform {
            m00: ONE,
            m01: 0,
            m02: 0,
            m10: 0,
            m11: ONE,
            m12: 0,
            m20: 0,
            m21: 0,
            m22: ONE,
            t: Vec3 { x: 0, y: 0, z: 0 },
            uniform: true,
        }
    }

    /// A pure translation.
    pub fn from_translation(v: Vec3) -> (r: AffineTransform)
        requires
            t3_bounded(v3t(v), COORD_MAX as int),
        ensures
            r == (AffineTransform { t: v, ..AffineTransform::spec_identity() }),
            r == spec_translation(v3t(v)),
            t_wf(r),
            r.uniform,
    {
        let mut r = Self::identity();
        r.t = v;
        r
    }

    /// The identity, at spec level.
    pub open spec fn spec_identity() -> AffineTransform {
        AffineTransform {
            m00: ONE,
            m01: 0,
            m02: 0,
            m10: 0,
            m11: ONE,
            m12: 0,
            m20: 0,
            m21: 0,
            m22: ONE,
            t: Vec3 { x: 0, y: 0, z: 0 },
            uniform: true,
        }
    }

    /// A non-uniform scale along the axes.
    pub fn from_scale(v: Vec3) -> (r: AffineTransform)
        requires
            t3_bounded(v3t(v), ENTRY_MAX as int),
        ensures
            t_wf(r),
            r.m00 == v.x && r.m11 == v.y && r.m22 == v.z,
            r.m01 == 0 && r.m02 == 0 && r.m10 == 0 && r.m12 == 0 && r.m20 == 0 && r.m21 == 0,
            r.t == (Vec3 { x: 0, y: 0, z: 0 }),
            r.uniform == (v.x == v.y && v.y == v.z),
    {
        let uniform = v.x == v.y && v.y == v.z;
        AffineTransform {
            m00: v.x,
            m01: 0,
            m02: 0,
            m10: 0,
            m11: v.y,
            m12: 0,
            m20: 0,
            m21: 0,
            m22: v.z,
            t: Vec3 { x: 0, y: 0, z: 0 },
            uniform,
        }
    }

    /// Rotation about the x axis by a fixed-point angle in radians.
    pub fn from_rotation_x(angle: i64) -> (r: AffineTransform)
        ensures
            t_wf(r),
            t_rotation(r),
            r.m00 == ONE && r.m01 == 0 && r.m02 == 0,
            r.m10 == 0 && r.m11 == s_cos(angle as int) && r.m12 == -s_sin(angle as int),
            r.m20 == 0 && r.m21 == s_sin(angle as int) && r.m22 == s_cos(angle as int),
    {
        let (s, c) = sin_cos(angle);
        AffineTransform {
            m00: ONE,
            m01: 0,
            m02: 0,
            m10: 0,
            m11: c,
            m12: -s,
            m20: 0,
            m21: s,
            m22: c,
            t: Vec3 { x: 0, y: 0, z: 0 },
            uniform: true,
        }
    }

    /// Rotation about the y axis by a fixed-point angle in radians.
    pub fn from_rotation_y(angle: i64) -> (r: AffineTransform)
        ensures
            t_wf(r),
            t_rotation(r),
            r.m00 == s_cos(angle as int) && r.m01 == 0 && r.m02 == s_sin(angle as int),
            r.m10 == 0 && r.m11 == ONE && r.m12 == 0,
            r.m20 == -s_sin(angle as int) && r.m21 == 0 && r.m22 == s_cos(angle as int),
    {
        let (s, c) = sin_cos(angle);
        AffineTransform {
            m00: c,
            m01: 0,
            m02: s,
            m10: 0,
            m11: ONE,
            m12: 0,
            m20: -s,
            m21: 0,
            m22: c,
            t: Vec3 { x: 0, y: 0, z: 0 },
            uniform: true,
        }
    }

    /// Rotation about the z axis by a fixed-point angle in radians.
    pub fn from_rotation_z(angle: i64) -> (r: AffineTransform)
        ensures
            t_wf(r),
            t_rotation(r),
            r.m00 == s_cos(angle as int) && r.m01 == -s_sin(angle as int) && r.m02 == 0,
            r.m10 == s_sin(angle as int) && r.m11 == s_cos(angle as int) && r.m12 == 0,
            r.m20 == 0 && r.m21 == 0 && r.m22 == ONE,
            r == spec_rot_z(s_cos(angle as int), s_sin(angle as int)),
    {
        let (s, c) = sin_cos(angle);
        AffineTransform {
            m00: c,
            m01: -s,
            m02: 0,
            m10: s,
            m11: c,
            m12: 0,
            m20: 0,
            m21: 0,
            m22: ONE,
            t: Vec3 { x: 0, y: 0, z: 0 },
            uniform: true,
        }
    }

    /// Rotation about the z axis whose cosine and sine are given directly,
    /// for headings derived from a direction vector.
    pub fn from_rotation_z_cos_sin(c: i64, s: i64) -> (r: AffineTransform)
        requires
            s_abs(c as int) <= ONE as int,
            s_abs(s as int) <= ONE as int,
        ensures
            t_wf(r),
            t_rotation(r),
            r.m00 == c && r.m01 == -s && r.m02 == 0,
            r.m10 == s && r.m11 == c && r.m12 == 0,
            r.m20 == 0 && r.m21 == 0 && r.m22 == ONE,
            r == spec_rot_z(c as int, s as int),
    {
        AffineTransform {
            m00: c,
            m01: -s,
            m02: 0,
            m10: s,
            m11: c,
            m12: 0,
            m20: 0,
            m21: 0,
            m22: ONE,
            t: Vec3 { x: 0, y: 0, z: 0 },
            uniform: true,
        }
    }

    /// An exact half turn about the x axis.
    pub fn rotation_x_half_turn() -> (r: AffineTransform)
        ensures
            t_wf(r),
            t_rotation(r),
            r.m00 == ONE && r.m01 == 0 && r.m02 == 0,
            r.m10 == 0 && r.m11 == -ONE && r.m12 == 0,
            r.m20 == 0 && r.m21 == 0 && r.m22 == -ONE,
            r == spec_rot_x_half(),
    {
        AffineTransform {
            m00: ONE,
            m01: 0,
            m02: 0,
            m10: 0,
            m11: -ONE,
            m12: 0,
            m20: 0,
            m21: 0,
            m22: -ONE,
            t: Vec3 { x: 0, y: 0, z: 0 },
            uniform: true,
        }
    }

    /// An exact quarter turn about the y axis.
    pub fn rotation_y_quarter_turn() -> (r: AffineTransform)
        ensures
            t_wf(r),
            t_rotation(r),
            r.m00 == 0 && r.m01 == 0 && r.m02 == ONE,
            r.m10 == 0 && r.m11 == ONE && r.m12 == 0,
            r.m20 == -ONE && r.m21 == 0 && r.m22 == 0,
            r == spec_rot_y_quarter(),
    {
        AffineTransform {
            m00: 0,
            m01: 0,
            m02: ONE,
            m10: 0,
            m11: ONE,
            m12: 0,
            m20: -ONE,
            m21: 0,
            m22: 0,
            t: Vec3 { x: 0, y: 0, z: 0 },
            uniform: true,
        }
    }

    /// A rotation followed by a translation.
    pub fn from_rotation_translation(rot: AffineTransform, v: Vec3) -> (r: AffineTransform)
        requires
            t_rotation(rot),
            t3_bounded(v3t(v), COORD_MAX as int),
        ensures
            t_wf(r),
            r == (AffineTransform { t: v, ..rot }),
            r == spec_with_translation(rot, v3t(v)),
            r.uniform,
    {
        let mut r = rot;
        r.t = v;
        r
    }

    /// A scale, then a rotation, then a translation.
    pub fn from_scale_rotation_translation(scale: Vec3, rot: AffineTransform, v: Vec3) -> (r:
        AffineTransform)
        requires
            t_rotation(rot),
            t3_bounded(v3t(scale), ENTRY_MAX as int),
            t3_bounded(v3t(v), COORD_MAX as int),
        ensures
            t_wf(r),
            r.m00 == s_mul(rot.m00 as int, scale.x as int),
            r.m01 == s_mul(rot.m01 as int, scale.y as int),
            r.m02 == s_mul(rot.m02 as int, scale.z as int),
            r.m10 == s_mul(rot.m10 as int, scale.x as int),
            r.m11 == s_mul(rot.m11 as int, scale.y as int),
            r.m12 == s_mul(rot.m12 as int, scale.z as int),
            r.m20 == s_mul(rot.m20 as int, scale.x as int),
            r.m21 == s_mul(rot.m21 as int, scale.y as int),
            r.m22 == s_mul(rot.m22 as int, scale.z as int),
            r.t == v,
            r.uniform == (scale.x == scale.y && scale.y == scale.z),
            r == spec_with_translation(
                spec_scaled(rot, scale.x as int, scale.y as int, scale.z as int),
                v3t(v),
            ),
    {
        proof {
            lemma_s_mul_unit_bound(scale.x as int, rot.m00 as int, ENTRY_MAX as int);
            lemma_s_mul_unit_bound(scale.y as int, rot.m01 as int, ENTRY_MAX as int);
            lemma_s_mul_unit_bound(scale.z as int, rot.m02 as int, ENTRY_MAX as int);
            lemma_s_mul_unit_bound(scale.x as int, rot.m10 as int, ENTRY_MAX as int);
            lemma_s_mul_unit_bound(scale.y as int, rot.m11 as int, ENTRY_MAX as int);
            lemma_s_mul_unit_bound(scale.z as int, rot.m12 as int, ENTRY_MAX as int);
            lemma_s_mul_unit_bound(scale.x as int, rot.m20 as int, ENTRY_MAX as int);
            lemma_s_mul_unit_bound(scale.y as int, rot.m21 as int, ENTRY_MAX as int);
            lemma_s_mul_unit_bound(scale.z as int, rot.m22 as int, ENTRY_MAX as int);
        }
        let uniform = scale.x == scale.y && scale.y == scale.z;
        AffineTransform {
            m00: fp_mul(rot.m00, scale.x),
            m01: fp_mul(rot.m01, scale.y),
            m02: fp_mul(rot.m02, scale.z),
            m10: fp_mul(rot.m10, scale.x),
            m11: fp_mul(rot.m11, scale.y),
            m12: fp_mul(rot.m12, scale.z),
            m20: fp_mul(rot.m20, scale.x),
            m21: fp_mul(rot.m21, scale.y),
            m22: fp_mul(rot.m22, scale.z),
            t: v,
            uniform,
        }
    }

    /// The affine image of a position.
    pub fn apply_point(self, p: Vec3) -> (r: Vec3)
        requires
            t_wf(self),
            t3_bounded(v3t(p), COORD_MAX as int),
        ensures
            v3t(r) == s_apply_point(self, v3t(p)),
            t3_bounded(v3t(r), COORD_MAX as int),
    {
        let w = dot_rows(self, p);
        Vec3 { x: fp_cap(w.x + self.t.x), y: fp_cap(w.y + self.t.y), z: fp_cap(w.z + self.t.z) }
    }

    /// The linear image of a direction, re-scaled to unit length when this
    /// transform scales non-uniformly.
    pub fn apply_vector(self, v: Vec3) -> (r: Vec3)
        requires
            t_wf(self),
            t3_bounded(v3t(v), COORD_MAX as int),
        ensures
            v3t(r) == s_apply_vector(self, v3t(v)),
            t3_bounded(v3t(r), COORD_MAX as int),
    {
        let w = dot_rows(self, v);
        if self.uniform {
            Vec3 { x: fp_cap(w.x), y: fp_cap(w.y), z: fp_cap(w.z) }
        } else {
            v3_normalize(w)
        }
    }
}

/// The linear part applied to a vector, exact and within `i64` range.
fn dot_rows(t: AffineTransform, p: Vec3) -> (r: Vec3)
    requires
        t_wf(t),
        t3_bounded(v3t(p), COORD_MAX as int),
    ensures
        v3t(r) == s_apply_linear(t, v3t(p)),
        t3_bounded(v3t(r), 0x3000_0000_0000_0000),
{
    proof {
        lemma_s_mul_bound(t.m00 as int, p.x as int, ENTRY_MAX as int, COORD_MAX as int);
        lemma_s_mul_bound(t.m01 as int, p.y as int, ENTRY_MAX as int, COORD_MAX as int);
        lemma_s_mul_bound(t.m02 as int, p.z as int, ENTRY_MAX as int, COORD_MAX as int);
        lemma_s_mul_bound(t.m10 as int, p.x as int, ENTRY_MAX as int, COORD_MAX as int);
        lemma_s_mul_bound(t.m11 as int, p.y as int, ENTRY_MAX as int, COORD_MAX as int);
        lemma_s_mul_bound(t.m12 as int, p.z as int, ENTRY_MAX as int, COORD_MAX as int);
        lemma_s_mul_bound(t.m20 as int, p.x as int, ENTRY_MAX as int, COORD_MAX as int);
        lemma_s_mul_bound(t.m21 as int, p.y as int, ENTRY_MAX as int, COORD_MAX as int);
        lemma_s_mul_bound(t.m22 as int, p.z as int, ENTRY_MAX as int, COORD_MAX as int);
    }
    let x = fp_mul(t.m00, p.x) + fp_mul(t.m01, p.y) + fp_mul(t.m02, p.z);
    let y = fp_mul(t.m10, p.x) + fp_mul(t.m11, p.y) + fp_mul(t.m12, p.z);
    let z = fp_mul(t.m20, p.x) + fp_mul(t.m21, p.y) + fp_mul(t.m22, p.z);
    Vec3 { x, y, z }
}

/// The identity leaves an in-range position exactly where it was, and an
/// in-range direction unchanged.
pub proof fn lemma_identity_fixes(p: (int, int, int))
    requires
        t3_bounded(p, COORD_MAX as int),
    ensures
        s_apply_point(AffineTransform::spec_identity(), p) == p,
        s_apply_vector(AffineTransform::spec_identity(), p) == p,
{
    lemma_s_mul_one(p.0);
    lemma_s_mul_one(p.1);
    lemma_s_mul_one(p.2);
    lemma_s_mul_zero(p.0);
    lemma_s_mul_zero(p.1);
    lemma_s_mul_zero(p.2);
}

/// A pure translation leaves an in-range direction unchanged.
pub proof fn lemma_translation_fixes_vector(t: AffineTransform, v: (int, int, int))
    requires
        t == (AffineTransform { t: t.t, ..AffineTransform::spec_identity() }),
        t3_bounded(v, COORD_MAX as int),
    ensures
        s_apply_vector(t, v) == v,
{
    lemma_s_mul_one(v.0);
    lemma_s_mul_one(v.1);
    lemma_s_mul_one(v.2);
    lemma_s_mul_zero(v.0);
    lemma_s_mul_zero(v.1);
    lemma_s_mul_zero(v.2);
}

/// A pure translation shifts an in-range position by exactly its
/// translation vector, as long as the shifted position stays in range,
/// and leaves every in-range direction unchanged.
pub proof fn lemma_translation_shifts(t: AffineTransform, p: (int, int, int))
    requires
        t == (AffineTransform { t: t.t, ..AffineTransform::spec_identity() }),
        t3_bounded(p, COORD_MAX as int),
        s_abs(p.0 + t.t.x) <= COORD_MAX as int,
        s_abs(p.1 + t.t.y) <= COORD_MAX as int,
        s_abs(p.2 + t.t.z) <= COORD_MAX as int,
    ensures
        s_apply_point(t, p) == (p.0 + t.t.x, p.1 + t.t.y, p.2 + t.t.z),
        s_apply_vector(t, p) == p,
{
    lemma_s_mul_one(p.0);
    lemma_s_mul_one(p.1);
    lemma_s_mul_one(p.2);
    lemma_s_mul_zero(p.0);
    lemma_s_mul_zero(p.1);
    lemma_s_mul_zero(p.2);
}

} // verus!
