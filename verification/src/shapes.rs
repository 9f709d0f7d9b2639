//! Primitive and composite surface generators.
//!
//! Each generator assembles ring samples into a [`MeshBuffer`] whose
//! contract states the produced positions, normals and indices exactly,
//! together with structural soundness (`buf_wf`) and coordinate range
//! (`buf_in_range`). Degenerate parameters (too few points, zero sweep)
//! yield an empty but structurally valid buffer rather than failing.

use vstd::prelude::*;
use crate::fx::{
    ONE, TAU, PI, COORD_MAX, SHAPE_MAX, SPAN_MAX, s_abs, s_mul, s_div, s_half, fp_mul, fp_div,
    fp_half, lemma_s_mul_unit_bound, lemma_s_div_unit_bound,
};
use crate::trig::{s_sin, s_cos, s_isqrt, sin_cos, isqrt, lemma_s_isqrt_bounds};
use crate::vec3::{
    Vec3, UV2, v3t, t3_bounded, t3_sub, vecs_are, uvs_are, idxs_are, s_cross, s_norm3, v3_sub,
    v3_cross, v3_normalize,
};
use crate::ring::{Circle, circle_bounded, rings_model, ring_pt, make_circles};
use crate::buffer::{MeshBuffer, buf_wf, buf_in_range};

verus! {

/// A constant sequence of one repeated triple.
pub open spec fn repeat_t3(t: (int, int, int), n: int) -> Seq<(int, int, int)> {
    Seq::new(n as nat, |j: int| t)
}

/// The same point `n` times over.
fn repeat_point(v: Vec3, n: usize) -> (out: Vec<Vec3>)
    ensures
        out@.len() == n,
        forall|j: int| 0 <= j < n ==> #[trigger] out@[j] == v,
        vecs_are(out@, repeat_t3(v3t(v), n as int)),
{
    let mut out: Vec<Vec3> = Vec::new();
    let mut i: usize = 0;
    while i < n
        invariant
            0 <= i <= n,
            out@.len() == i,
            forall|j: int| 0 <= j < i ==> #[trigger] out@[j] == v,
        decreases n - i,
    {
        out.push(v);
        i = i + 1;
    }
    out
}

/// A base index pattern repeated `groups` times, each repetition shifted
/// up by one.
pub open spec fn pattern_model(p: Seq<u32>, groups: int) -> Seq<int> {
    Seq::new((groups * p.len()) as nat, |j: int| p[j % p.len() as int] + j / p.len() as int)
}

/// Emit `groups` copies of `pat`, the `g`th copy with `g` added to each
/// entry: the quad-strip and fan skeleton shared by the ring generators.
fn pattern_indices(pat: &Vec<u32>, groups: u32) -> (out: Vec<u32>)
    requires
        1 <= pat@.len() <= 8,
        groups <= 0x100000,
        forall|t: int| 0 <= t < pat@.len() ==> (#[trigger] pat@[t]) + groups <= u32::MAX,
    ensures
        out@.len() == groups * pat@.len(),
        idxs_are(out@, pattern_model(pat@, groups as int)),
{
    let ghost model = pattern_model(pat@, groups as int);
    let ghost plen = pat@.len() as int;
    let mut out: Vec<u32> = Vec::new();
    let mut g: u32 = 0;
    while g < groups
        invariant
            1 <= pat@.len() <= 8,
            groups <= 0x100000,
            forall|t: int| 0 <= t < pat@.len() ==> (#[trigger] pat@[t]) + groups <= u32::MAX,
            0 <= g <= groups,
            plen == pat@.len() as int,
            model == pattern_model(pat@, groups as int),
            out@.len() == g * plen,
            forall|j: int| 0 <= j < out@.len() ==> out@[j] == #[trigger] model[j],
        decreases groups - g,
    {
        let mut t: usize = 0;
        proof {
            assert(g * plen <= 0x100000 * 8) by (nonlinear_arith)
                requires
                    0 <= g <= 0x100000,
                    1 <= plen <= 8,
            ;
        }
        while t < pat.len()
            invariant
                1 <= pat@.len() <= 8,
                groups <= 0x100000,
                forall|u: int| 0 <= u < pat@.len() ==> (#[trigger] pat@[u]) + groups <= u32::MAX,
                0 <= g < groups,
                0 <= t <= pat@.len(),
                plen == pat@.len() as int,
                model == pattern_model(pat@, groups as int),
                out@.len() == g * plen + t,
                forall|j: int| 0 <= j < out@.len() ==> out@[j] == #[trigger] model[j],
            decreases pat@.len() - t,
        {
            let v: u32 = pat[t] + g;
            proof {
                let j0 = g * plen + t;
                vstd::arithmetic::div_mod::lemma_fundamental_div_mod_converse(
                    j0,
                    plen,
                    g as int,
                    t as int,
                );
                assert(0 <= j0 < model.len()) by (nonlinear_arith)
                    requires
                        0 <= g < groups,
                        0 <= t < plen,
                        model.len() == groups * plen,
                        j0 == g * plen + t,
                ;
                assert(v == model[j0]);
            }
            out.push(v);
            t = t + 1;
        }
        g = g + 1;
        proof {
            assert((g - 1) * plen + plen == g * plen) by (nonlinear_arith);
        }
    }
    proof {
        assert(out@.len() == groups * pat@.len());
        assert(out@.len() == model.len()) by (nonlinear_arith)
            requires
                out@.len() == (groups as int) * plen,
                model.len() == (groups as int) * plen,
        ;
    }
    out
}

/// Every position of `m` carried through an affine map.
pub open spec fn map_pts(tf: crate::transform::AffineTransform, m: Seq<(int, int, int)>) -> Seq<
    (int, int, int),
> {
    Seq::new(m.len(), |j: int| crate::transform::s_apply_point(tf, m[j]))
}

/// Every direction of `m` carried through an affine map.
pub open spec fn map_dirs(tf: crate::transform::AffineTransform, m: Seq<(int, int, int)>) -> Seq<
    (int, int, int),
> {
    Seq::new(m.len(), |j: int| crate::transform::s_apply_vector(tf, m[j]))
}

/// A buffer transformed from one with known models has the mapped models.
proof fn lemma_transformed_model(
    b0: MeshBuffer,
    b1: MeshBuffer,
    tf: crate::transform::AffineTransform,
    mp: Seq<(int, int, int)>,
    mn: Seq<(int, int, int)>,
)
    requires
        vecs_are(b0.positions@, mp),
        vecs_are(b0.normals@, mn),
        b1.positions@.len() == b0.positions@.len(),
        forall|i: int|
            0 <= i < b0.positions@.len() ==> v3t(#[trigger] b1.positions@[i])
                == crate::transform::s_apply_point(tf, v3t(b0.positions@[i])),
        b1.normals@.len() == b0.normals@.len(),
        forall|i: int|
            0 <= i < b0.normals@.len() ==> v3t(#[trigger] b1.normals@[i])
                == crate::transform::s_apply_vector(tf, v3t(b0.normals@[i])),
    ensures
        vecs_are(b1.positions@, map_pts(tf, mp)),
        vecs_are(b1.normals@, map_dirs(tf, mn)),
{
    assert forall|j: int| 0 <= j < b1.positions@.len() implies v3t(b1.positions@[j])
        == #[trigger] map_pts(tf, mp)[j] by {
        assert(v3t(b0.positions@[j]) == mp[j]);
    }
    assert forall|j: int| 0 <= j < b1.normals@.len() implies v3t(b1.normals@[j])
        == #[trigger] map_dirs(tf, mn)[j] by {
        assert(v3t(b0.normals@[j]) == mn[j]);
    }
}

/// The length of the segment between two triples: the integer square
/// root of the summed squared component differences.
pub open spec fn s_dist3(a: (int, int, int), b: (int, int, int)) -> int {
    s_isqrt((b.0 - a.0) * (b.0 - a.0) + (b.1 - a.1) * (b.1 - a.1) + (b.2 - a.2) * (b.2 - a.2))
}

/// The distance between two points, within the shape parameter range.
fn v3_dist(a: Vec3, b: Vec3) -> (r: i64)
    requires
        t3_bounded(v3t(a), SHAPE_MAX as int),
        t3_bounded(v3t(b), SHAPE_MAX as int),
    ensures
        r == s_dist3(v3t(a), v3t(b)),
        0 <= r <= 0x40_0000_0000,
{
    let dx: i64 = b.x - a.x;
    let dy: i64 = b.y - a.y;
    let dz: i64 = b.z - a.z;
    let mx: u64 = if dx < 0 {
        (-dx) as u64
    } else {
        dx as u64
    };
    let my: u64 = if dy < 0 {
        (-dy) as u64
    } else {
        dy as u64
    };
    let mz: u64 = if dz < 0 {
        (-dz) as u64
    } else {
        dz as u64
    };
    proof {
        assert(mx as int * mx as int == dx as int * dx as int) by (nonlinear_arith)
            requires
                mx == s_abs(dx as int),
        ;
        assert(my as int * my as int == dy as int * dy as int) by (nonlinear_arith)
            requires
                my == s_abs(dy as int),
        ;
        assert(mz as int * mz as int == dz as int * dz as int) by (nonlinear_arith)
            requires
                mz == s_abs(dz as int),
        ;
        assert(mx as int * mx as int <= 0x20_0000_0000 * 0x20_0000_0000) by (nonlinear_arith)
            requires
                mx <= 0x20_0000_0000,
        ;
        assert(my as int * my as int <= 0x20_0000_0000 * 0x20_0000_0000) by (nonlinear_arith)
            requires
                my <= 0x20_0000_0000,
        ;
        assert(mz as int * mz as int <= 0x20_0000_0000 * 0x20_0000_0000) by (nonlinear_arith)
            requires
                mz <= 0x20_0000_0000,
        ;
    }
    let n2: u128 = (mx as u128) * (mx as u128) + (my as u128) * (my as u128) + (mz as u128) * (
    mz as u128);
    let l: u64 = isqrt(n2);
    proof {
        lemma_s_isqrt_bounds(n2 as int);
        let li = l as int;
        assert(li <= 0x40_0000_0000) by {
            if li > 0x40_0000_0000 {
                assert(li * li > 3 * (0x20_0000_0000 * 0x20_0000_0000)) by (nonlinear_arith)
                    requires
                        li > 0x40_0000_0000,
                ;
            }
        }
    }
    l as i64
}

/// The cosine of the heading of a planar direction, or one unit for the
/// zero direction.
pub open spec fn s_heading_cos(dx: int, dy: int) -> int {
    let l = s_isqrt(dx * dx + dy * dy);
    if l == 0 {
        ONE as int
    } else {
        s_div(dx, l)
    }
}

/// The sine of the heading of a planar direction, or zero for the zero
/// direction.
pub open spec fn s_heading_sin(dx: int, dy: int) -> int {
    let l = s_isqrt(dx * dx + dy * dy);
    if l == 0 {
        0
    } else {
        s_div(dy, l)
    }
}

/// Cosine and sine of the heading of the planar direction `(dx, dy)`:
/// the direction scaled to unit length, pointing along `+x` when zero.
fn heading_cos_sin(dx: i64, dy: i64) -> (r: (i64, i64))
    requires
        s_abs(dx as int) <= 0x1000_0000_0000,
        s_abs(dy as int) <= 0x1000_0000_0000,
    ensures
        r.0 == s_heading_cos(dx as int, dy as int),
        r.1 == s_heading_sin(dx as int, dy as int),
        s_abs(r.0 as int) <= ONE as int,
        s_abs(r.1 as int) <= ONE as int,
{
    let mx: u64 = if dx < 0 {
        (-dx) as u64
    } else {
        dx as u64
    };
    let my: u64 = if dy < 0 {
        (-dy) as u64
    } else {
        dy as u64
    };
    proof {
        assert(mx as int * mx as int == dx as int * dx as int) by (nonlinear_arith)
            requires
                mx == s_abs(dx as int),
        ;
        assert(my as int * my as int == dy as int * dy as int) by (nonlinear_arith)
            requires
                my == s_abs(dy as int),
        ;
        assert(mx as int * mx as int >= 0) by (nonlinear_arith);
        assert(my as int * my as int >= 0) by (nonlinear_arith);
        assert(mx as int * mx as int <= 0x1000_0000_0000 * 0x1000_0000_0000) by (nonlinear_arith)
            requires
                mx <= 0x1000_0000_0000,
        ;
        assert(my as int * my as int <= 0x1000_0000_0000 * 0x1000_0000_0000) by (nonlinear_arith)
            requires
                my <= 0x1000_0000_0000,
        ;
    }
    let n2: u128 = (mx as u128) * (mx as u128) + (my as u128) * (my as u128);
    if n2 == 0 {
        (ONE, 0)
    } else {
        let l: u64 = isqrt(n2);
        proof {
            lemma_s_isqrt_bounds(n2 as int);
            let li = l as int;
            assert(li >= 1) by {
                assert(li >= 0);
                if li == 0 {
                    assert((li + 1) * (li + 1) == 1) by (nonlinear_arith)
                        requires
                            li == 0,
                    ;
                }
            }
            assert(s_abs(dx as int) <= li) by {
                if s_abs(dx as int) > li {
                    assert((li + 1) * (li + 1) <= mx as int * mx as int) by (nonlinear_arith)
                        requires
                            0 <= li,
                            li + 1 <= mx as int,
                    ;
                }
            }
            assert(s_abs(dy as int) <= li) by {
                if s_abs(dy as int) > li {
                    assert((li + 1) * (li + 1) <= my as int * my as int) by (nonlinear_arith)
                        requires
                            0 <= li,
                            li + 1 <= my as int,
                    ;
                }
            }
            assert(li <= 0x2000_0000_0000) by {
                if li > 0x2000_0000_0000 {
                    assert(li * li > 2 * (0x1000_0000_0000 * 0x1000_0000_0000))
                        by (nonlinear_arith)
                        requires
                            li > 0x2000_0000_0000,
                    ;
                }
            }
            lemma_s_div_unit_bound(dx as int, li);
            lemma_s_div_unit_bound(dy as int, li);
        }
        let li: i64 = l as i64;
        (fp_div(dx, li), fp_div(dy, li))
    }
}

/// The fan index at position `j` for a cap of `res` rim points whose
/// center sits at index `res`, wound counter-clockwise seen from above.
pub open spec fn top_fan_idx(res: int, j: int) -> int {
    let t = j / 3;
    let k = j % 3;
    if t < res - 1 {
        if k == 0 {
            t
        } else if k == 1 {
            t + 1
        } else {
            res
        }
    } else {
        if k == 0 {
            res - 1
        } else if k == 1 {
            0
        } else {
            res
        }
    }
}

/// The fan index at position `j` for a cap wound the other way, so the
/// face shows from below.
pub open spec fn bottom_fan_idx(res: int, j: int) -> int {
    let t = j / 3;
    let k = j % 3;
    if t < res - 1 {
        if k == 0 {
            t
        } else if k == 1 {
            res
        } else {
            t + 1
        }
    } else {
        if k == 0 {
            res - 1
        } else if k == 1 {
            res
        } else {
            0
        }
    }
}

/// Fan triangulation from the rim to the center point, one winding or
/// the other.
fn fan_indices(res: u32, bottom: bool) -> (out: Vec<u32>)
    requires
        2 <= res <= 65536,
    ensures
        out@.len() == 3 * res,
        !bottom ==> idxs_are(out@, Seq::new((3 * res) as nat, |j: int| top_fan_idx(res as int, j))),
        bottom ==> idxs_are(
            out@,
            Seq::new((3 * res) as nat, |j: int| bottom_fan_idx(res as int, j)),
        ),
{
    let ghost model: Seq<int> = if bottom {
        Seq::new((3 * res) as nat, |j: int| bottom_fan_idx(res as int, j))
    } else {
        Seq::new((3 * res) as nat, |j: int| top_fan_idx(res as int, j))
    };
    let mut out: Vec<u32> = Vec::new();
    let mut t: u32 = 0;
    while t < res - 1
        invariant
            2 <= res <= 65536,
            0 <= t <= res - 1,
            out@.len() == 3 * t,
            model.len() == 3 * res,
            model == (if bottom {
                Seq::new((3 * res) as nat, |j: int| bottom_fan_idx(res as int, j))
            } else {
                Seq::new((3 * res) as nat, |j: int| top_fan_idx(res as int, j))
            }),
            forall|j: int| 0 <= j < out@.len() ==> out@[j] == #[trigger] model[j],
        decreases res - 1 - t,
    {
        proof {
            let j0 = 3 * (t as int);
            vstd::arithmetic::div_mod::lemma_fundamental_div_mod_converse(j0, 3, t as int, 0);
            vstd::arithmetic::div_mod::lemma_fundamental_div_mod_converse(j0 + 1, 3, t as int, 1);
            vstd::arithmetic::div_mod::lemma_fundamental_div_mod_converse(j0 + 2, 3, t as int, 2);
        }
        if bottom {
            out.push(t);
            out.push(res);
            out.push(t + 1);
        } else {
            out.push(t);
            out.push(t + 1);
            out.push(res);
        }
        t = t + 1;
    }
    proof {
        let j0 = 3 * (res as int - 1);
        vstd::arithmetic::div_mod::lemma_fundamental_div_mod_converse(j0, 3, res as int - 1, 0);
        vstd::arithmetic::div_mod::lemma_fundamental_div_mod_converse(j0 + 1, 3, res as int - 1, 1);
        vstd::arithmetic::div_mod::lemma_fundamental_div_mod_converse(j0 + 2, 3, res as int - 1, 2);
    }
    if bottom {
        out.push(res - 1);
        out.push(res);
        out.push(0);
    } else {
        out.push(res - 1);
        out.push(0);
        out.push(res);
    }
    out
}

/// The positions of a cap: the sampled rim (closing vertex kept), then
/// the center point at the circle's height.
pub open spec fn cap_positions(c: Circle, res: int) -> Seq<(int, int, int)> {
    rings_model(seq![c], res, 0) + seq![(0int, 0int, c.height as int)]
}

/// A disk cap facing up: a fan over the rim with every normal along
/// `+z`.
///
/// Fewer than two rim points yield the empty buffer.
pub fn make_top_circle(circle: Circle, resolution: u32) -> (r: MeshBuffer)
    requires
        circle_bounded(circle, SPAN_MAX as int),
        resolution <= 65536,
    ensures
        buf_wf(r),
        buf_in_range(r),
        r.uv is None,
        resolution < 2 ==> r.positions@.len() == 0 && r.indices@.len() == 0,
        resolution >= 2 ==> r.positions@.len() == resolution + 1 && r.indices@.len() == 3
            * resolution,
        resolution >= 2 ==> vecs_are(r.positions@, cap_positions(circle, resolution as int)),
        resolution >= 2 ==> vecs_are(
            r.normals@,
            repeat_t3((0int, 0int, ONE as int), resolution + 1),
        ),
        resolution >= 2 ==> idxs_are(
            r.indices@,
            Seq::new((3 * resolution) as nat, |j: int| top_fan_idx(resolution as int, j)),
        ),
{
    if resolution < 2 {
        return MeshBuffer::empty();
    }
    let ring: Vec<Circle> = vec![circle];
    let mut positions = make_circles(&ring, resolution, 0);
    positions.push(Vec3 { x: 0, y: 0, z: circle.height });
    let normals = repeat_point(Vec3 { x: 0, y: 0, z: ONE }, positions.len());
    let indices = fan_indices(resolution, false);
    let r = MeshBuffer { positions, normals, indices, uv: None };
    proof {
        assert(vecs_are(r.positions@, cap_positions(circle, resolution as int))) by {
            let m = cap_positions(circle, resolution as int);
            assert(ring@ =~= seq![circle]);
            assert(rings_model(seq![circle], resolution as int, 0).len() == resolution);
            assert forall|j: int| 0 <= j < r.positions@.len() implies v3t(r.positions@[j])
                == #[trigger] m[j] by {
                if j < resolution {
                    assert(m[j] == rings_model(seq![circle], resolution as int, 0)[j]);
                }
            }
        }
        assert forall|i: int| 0 <= i < r.indices@.len() implies (#[trigger] r.indices@[i])
            < r.positions@.len() by {
            let m = Seq::new((3 * resolution) as nat, |j: int| top_fan_idx(resolution as int, j));
            assert(r.indices@[i] == m[i]);
        }
        assert(r.indices@.len() % 3 == 0) by (nonlinear_arith)
            requires
                r.indices@.len() == 3 * resolution,
        ;
        assert forall|i: int| 0 <= i < r.positions@.len() implies t3_bounded(
            v3t(#[trigger] r.positions@[i]),
            COORD_MAX as int,
        ) by {
            if i < resolution {
                assert(t3_bounded(v3t(r.positions@[i]), SPAN_MAX as int));
            }
        }
    }
    r
}

/// A disk cap facing down: the same fan wound the other way, normals
/// along `-z`.
///
/// Fewer than two rim points yield the empty buffer.
pub fn make_bottom_circle(circle: Circle, resolution: u32) -> (r: MeshBuffer)
    requires
        circle_bounded(circle, SPAN_MAX as int),
        resolution <= 65536,
    ensures
        buf_wf(r),
        buf_in_range(r),
        r.uv is None,
        resolution < 2 ==> r.positions@.len() == 0 && r.indices@.len() == 0,
        resolution >= 2 ==> r.positions@.len() == resolution + 1 && r.indices@.len() == 3
            * resolution,
        resolution >= 2 ==> vecs_are(r.positions@, cap_positions(circle, resolution as int)),
        resolution >= 2 ==> vecs_are(
            r.normals@,
            repeat_t3((0int, 0int, -ONE as int), resolution + 1),
        ),
        resolution >= 2 ==> idxs_are(
            r.indices@,
            Seq::new((3 * resolution) as nat, |j: int| bottom_fan_idx(resolution as int, j)),
        ),
{
    if resolution < 2 {
        return MeshBuffer::empty();
    }
    let ring: Vec<Circle> = vec![circle];
    let mut positions = make_circles(&ring, resolution, 0);
    positions.push(Vec3 { x: 0, y: 0, z: circle.height });
    let normals = repeat_point(Vec3 { x: 0, y: 0, z: -ONE }, positions.len());
    let indices = fan_indices(resolution, true);
    let r = MeshBuffer { positions, normals, indices, uv: None };
    proof {
        assert(vecs_are(r.positions@, cap_positions(circle, resolution as int))) by {
            let m = cap_positions(circle, resolution as int);
            assert(ring@ =~= seq![circle]);
            assert(rings_model(seq![circle], resolution as int, 0).len() == resolution);
            assert forall|j: int| 0 <= j < r.positions@.len() implies v3t(r.positions@[j])
                == #[trigger] m[j] by {
                if j < resolution {
                    assert(m[j] == rings_model(seq![circle], resolution as int, 0)[j]);
                }
            }
        }
        assert forall|i: int| 0 <= i < r.indices@.len() implies (#[trigger] r.indices@[i])
            < r.positions@.len() by {
            let m = Seq::new(
                (3 * resolution) as nat,
                |j: int| bottom_fan_idx(resolution as int, j),
            );
            assert(r.indices@[i] == m[i]);
        }
        assert(r.indices@.len() % 3 == 0) by (nonlinear_arith)
            requires
                r.indices@.len() == 3 * resolution,
        ;
        assert forall|i: int| 0 <= i < r.positions@.len() implies t3_bounded(
            v3t(#[trigger] r.positions@[i]),
            COORD_MAX as int,
        ) by {
            if i < resolution {
                assert(t3_bounded(v3t(r.positions@[i]), SPAN_MAX as int));
            }
        }
    }
    r
}

/// A zero-thickness double-sided disk: an up-facing and a down-facing cap
/// at the same height, merged.
pub fn make_flat_disk(circle: Circle, resolution: u32) -> (r: MeshBuffer)
    requires
        circle_bounded(circle, SPAN_MAX as int),
        resolution <= 65536,
    ensures
        buf_wf(r),
        buf_in_range(r),
        r.uv is None,
        resolution < 2 ==> r.positions@.len() == 0 && r.indices@.len() == 0,
        resolution >= 2 ==> r.positions@.len() == 2 * (resolution + 1) && r.indices@.len() == 6
            * resolution,
        resolution >= 2 ==> vecs_are(
            r.positions@,
            cap_positions(circle, resolution as int) + cap_positions(circle, resolution as int),
        ),
        resolution >= 2 ==> vecs_are(
            r.normals@,
            repeat_t3((0int, 0int, ONE as int), resolution + 1) + repeat_t3(
                (0int, 0int, -ONE as int),
                resolution + 1,
            ),
        ),
        resolution >= 2 ==> (forall|j: int|
            0 <= j < 3 * resolution ==> #[trigger] r.indices@[j] == top_fan_idx(
                resolution as int,
                j,
            )),
        resolution >= 2 ==> (forall|j: int|
            0 <= j < 3 * resolution ==> #[trigger] r.indices@[3 * resolution + j]
                == bottom_fan_idx(resolution as int, j) + resolution + 1),
{
    let top = make_top_circle(circle, resolution);
    let bottom = make_bottom_circle(circle, resolution);
    let ghost top0 = top;
    let r = top.merge_with(bottom);
    proof {
        if resolution >= 2 {
            lemma_vecs_are_concat(
                top0.normals@,
                bottom.normals@,
                repeat_t3((0int, 0int, ONE as int), resolution as int + 1),
                repeat_t3((0int, 0int, -(ONE as int)), resolution as int + 1),
            );
            assert forall|j: int| 0 <= j < 3 * resolution implies #[trigger] r.indices@[j]
                == top_fan_idx(resolution as int, j) by {
                let m = Seq::new(
                    (3 * resolution) as nat,
                    |t: int| top_fan_idx(resolution as int, t),
                );
                assert(top0.indices@[j] == m[j]);
            }
            assert forall|j: int| 0 <= j < 3 * resolution implies #[trigger] r.indices@[3
                * resolution + j] == bottom_fan_idx(resolution as int, j) + resolution + 1 by {
                let m = Seq::new(
                    (3 * resolution) as nat,
                    |t: int| bottom_fan_idx(resolution as int, t),
                );
                assert(bottom.indices@[j] == m[j]);
                assert(r.indices@[top0.indices@.len() + j] == bottom.indices@[j]
                    + top0.positions@.len());
            }
        }
    }
    r
}

/// The eight corners of a double-sided flat rectangle centered at the
/// origin: the same four corners for the front and the back face.
pub open spec fn flat_rect_positions(x: int, y: int) -> Seq<(int, int, int)> {
    let hx = s_half(x);
    let hy = s_half(y);
    let nx = -hx;
    let ny = -hy;
    seq![
        (nx, ny, 0int),
        (hx, ny, 0int),
        (hx, hy, 0int),
        (nx, hy, 0int),
        (nx, ny, 0int),
        (hx, ny, 0int),
        (hx, hy, 0int),
        (nx, hy, 0int),
    ]
}

/// Four `+z` normals for the front face, four `-z` for the back.
pub open spec fn flat_rect_normals() -> Seq<(int, int, int)> {
    let up = ONE as int;
    let down = -(ONE as int);
    seq![
        (0int, 0int, up),
        (0int, 0int, up),
        (0int, 0int, up),
        (0int, 0int, up),
        (0int, 0int, down),
        (0int, 0int, down),
        (0int, 0int, down),
        (0int, 0int, down),
    ]
}

/// Two front triangles and two back triangles, the back pair wound the
/// other way.
pub open spec fn flat_rect_indices() -> Seq<int> {
    seq![0int, 1, 2, 0, 2, 3, 4, 6, 5, 4, 7, 6]
}

/// Unit texture corners for each face.
pub open spec fn flat_rect_uv() -> Seq<(int, int)> {
    seq![
        (0int, ONE as int),
        (ONE as int, ONE as int),
        (ONE as int, 0int),
        (0int, 0int),
        (0int, ONE as int),
        (ONE as int, ONE as int),
        (ONE as int, 0int),
        (0int, 0int),
    ]
}

/// A double-sided flat rectangle in the ground plane with unit texture
/// coordinates: four `+z` vertices and four `-z` vertices over the same
/// corners, wound to face opposite ways.
pub fn make_flat_rect_mesh(x_size: i64, y_size: i64) -> (r: MeshBuffer)
    requires
        s_abs(x_size as int) <= SPAN_MAX as int,
        s_abs(y_size as int) <= SPAN_MAX as int,
    ensures
        buf_wf(r),
        buf_in_range(r),
        r.positions@.len() == 8,
        r.indices@.len() == 12,
        vecs_are(r.positions@, flat_rect_positions(x_size as int, y_size as int)),
        vecs_are(r.normals@, flat_rect_normals()),
        idxs_are(r.indices@, flat_rect_indices()),
        r.uv matches Some(uv) && uvs_are(uv@, flat_rect_uv()),
{
    let hx = fp_half(x_size);
    let hy = fp_half(y_size);
    let nx = -hx;
    let ny = -hy;
    let down = -ONE;
    let positions: Vec<Vec3> = vec![
        Vec3 { x: nx, y: ny, z: 0 },
        Vec3 { x: hx, y: ny, z: 0 },
        Vec3 { x: hx, y: hy, z: 0 },
        Vec3 { x: nx, y: hy, z: 0 },
        Vec3 { x: nx, y: ny, z: 0 },
        Vec3 { x: hx, y: ny, z: 0 },
        Vec3 { x: hx, y: hy, z: 0 },
        Vec3 { x: nx, y: hy, z: 0 },
    ];
    let normals: Vec<Vec3> = vec![
        Vec3 { x: 0, y: 0, z: ONE },
        Vec3 { x: 0, y: 0, z: ONE },
        Vec3 { x: 0, y: 0, z: ONE },
        Vec3 { x: 0, y: 0, z: ONE },
        Vec3 { x: 0, y: 0, z: down },
        Vec3 { x: 0, y: 0, z: down },
        Vec3 { x: 0, y: 0, z: down },
        Vec3 { x: 0, y: 0, z: down },
    ];
    let indices: Vec<u32> = vec![0, 1, 2, 0, 2, 3, 4, 6, 5, 4, 7, 6];
    let uv: Vec<UV2> = vec![
        UV2 { u: 0, v: ONE },
        UV2 { u: ONE, v: ONE },
        UV2 { u: ONE, v: 0 },
        UV2 { u: 0, v: 0 },
        UV2 { u: 0, v: ONE },
        UV2 { u: ONE, v: ONE },
        UV2 { u: ONE, v: 0 },
        UV2 { u: 0, v: 0 },
    ];
    MeshBuffer { positions, normals, indices, uv: Some(uv) }
}

/// A flat square: a flat rectangle with equal extents.
pub fn make_flat_square_mesh(extent: i64) -> (r: MeshBuffer)
    requires
        s_abs(extent as int) <= SPAN_MAX as int,
    ensures
        buf_wf(r),
        buf_in_range(r),
        r.positions@.len() == 8,
        r.indices@.len() == 12,
        vecs_are(r.positions@, flat_rect_positions(extent as int, extent as int)),
        vecs_are(r.normals@, flat_rect_normals()),
        idxs_are(r.indices@, flat_rect_indices()),
        r.uv matches Some(uv) && uvs_are(uv@, flat_rect_uv()),
{
    make_flat_rect_mesh(extent, extent)
}

/// An axis-aligned bounding region: a center and half extents.
#[derive(Clone, Copy, PartialEq, Eq, Structural, Debug)]
pub struct Aabb {
    pub center: Vec3,
    pub half_extents: Vec3,
}

/// A flat marker under a bounding region: a flat rectangle of the
/// region's ground extents, moved to its center.
pub fn make_flat_mesh_for_aabb(aabb: Aabb) -> (r: MeshBuffer)
    requires
        t3_bounded(v3t(aabb.half_extents), 0x80_0000_0000),
        t3_bounded(v3t(aabb.center), COORD_MAX as int),
    ensures
        buf_wf(r),
        buf_in_range(r),
        r.positions@.len() == 8,
        r.indices@.len() == 12,
        vecs_are(
            r.positions@,
            map_pts(
                crate::transform::spec_translation(v3t(aabb.center)),
                flat_rect_positions(2 * aabb.half_extents.x as int, 2 * aabb.half_extents.y as int),
            ),
        ),
        vecs_are(
            r.normals@,
            map_dirs(crate::transform::spec_translation(v3t(aabb.center)), flat_rect_normals()),
        ),
        idxs_are(r.indices@, flat_rect_indices()),
        r.uv matches Some(uv) && uvs_are(uv@, flat_rect_uv()),
{
    let base = make_flat_rect_mesh(2 * aabb.half_extents.x, 2 * aabb.half_extents.y);
    let tf = crate::transform::AffineTransform::from_translation(aabb.center);
    let ghost base0 = base;
    let r = base.transform_by(tf);
    proof {
        lemma_transformed_model(
            base0,
            r,
            tf,
            flat_rect_positions(2 * aabb.half_extents.x as int, 2 * aabb.half_extents.y as int),
            flat_rect_normals(),
        );
    }
    r
}

/// The seven corners of a flat dart arrow pointing along `+x`: four for
/// the rectangular shaft, two for the head base, one tip.
pub open spec fn flat_arrow_positions(
    handle_length: int,
    handle_width: int,
    tip_length: int,
    tip_width: int,
) -> Seq<(int, int, int)> {
    let hw = s_half(handle_width);
    let tw = s_half(tip_width);
    let nw = -hw;
    let ntw = -tw;
    let tip = handle_length + tip_length;
    seq![
        (0int, hw, 0int),
        (0int, nw, 0int),
        (handle_length, nw, 0int),
        (handle_length, hw, 0int),
        (handle_length, tw, 0int),
        (handle_length, ntw, 0int),
        (tip, 0int, 0int),
    ]
}

/// The three triangles of the dart: two over the shaft, one for the
/// head.
pub open spec fn flat_arrow_indices() -> Seq<int> {
    seq![0int, 1, 3, 1, 2, 3, 4, 5, 6]
}

/// A flat dart arrow along `+x`: a rectangular shaft of the handle
/// length and width, and a triangular head of the tip length and width,
/// all facing `+z`. The tip vertex sits at `handle_length + tip_length`.
pub fn flat_arrow_mesh(handle_length: i64, handle_width: i64, tip_length: i64, tip_width: i64) -> (r:
    MeshBuffer)
    requires
        s_abs(handle_length as int) <= SPAN_MAX as int,
        s_abs(handle_width as int) <= SPAN_MAX as int,
        s_abs(tip_length as int) <= SPAN_MAX as int,
        s_abs(tip_width as int) <= SPAN_MAX as int,
    ensures
        buf_wf(r),
        buf_in_range(r),
        r.positions@.len() == 7,
        r.indices@.len() == 9,
        vecs_are(
            r.positions@,
            flat_arrow_positions(
                handle_length as int,
                handle_width as int,
                tip_length as int,
                tip_width as int,
            ),
        ),
        vecs_are(r.normals@, repeat_t3((0int, 0int, ONE as int), 7)),
        idxs_are(r.indices@, flat_arrow_indices()),
        r.uv is None,
        v3t(r.positions@[6]) == (handle_length + tip_length, 0int, 0int),
{
    let hw = fp_half(handle_width);
    let tw = fp_half(tip_width);
    let nw = -hw;
    let ntw = -tw;
    let tip = handle_length + tip_length;
    let positions: Vec<Vec3> = vec![
        Vec3 { x: 0, y: hw, z: 0 },
        Vec3 { x: 0, y: nw, z: 0 },
        Vec3 { x: handle_length, y: nw, z: 0 },
        Vec3 { x: handle_length, y: hw, z: 0 },
        Vec3 { x: handle_length, y: tw, z: 0 },
        Vec3 { x: handle_length, y: ntw, z: 0 },
        Vec3 { x: tip, y: 0, z: 0 },
    ];
    let normals = repeat_point(Vec3 { x: 0, y: 0, z: ONE }, 7);
    let indices: Vec<u32> = vec![0, 1, 3, 1, 2, 3, 4, 5, 6];
    MeshBuffer { positions, normals, indices, uv: None }
}

/// The twenty-four corners of an axis-aligned box: four independent
/// vertices for each of the six faces, so each face carries its own flat
/// normal.
pub open spec fn box_positions(x: int, y: int, z: int) -> Seq<(int, int, int)> {
    let hx = s_half(x);
    let hy = s_half(y);
    let hz = s_half(z);
    let nx = -hx;
    let ny = -hy;
    let nz = -hz;
    seq![
        (nx, ny, hz),
        (hx, ny, hz),
        (hx, hy, hz),
        (nx, hy, hz),
        (nx, hy, nz),
        (hx, hy, nz),
        (hx, ny, nz),
        (nx, ny, nz),
        (hx, ny, nz),
        (hx, hy, nz),
        (hx, hy, hz),
        (hx, ny, hz),
        (nx, ny, hz),
        (nx, hy, hz),
        (nx, hy, nz),
        (nx, ny, nz),
        (hx, hy, nz),
        (nx, hy, nz),
        (nx, hy, hz),
        (hx, hy, hz),
        (hx, ny, hz),
        (nx, ny, hz),
        (nx, ny, nz),
        (hx, ny, nz),
    ]
}

/// One exact axis-aligned unit normal per face, repeated for its four
/// vertices: up, down, right, left, front, back.
pub open spec fn box_normals() -> Seq<(int, int, int)> {
    let o = ONE as int;
    let n = -(ONE as int);
    seq![
        (0int, 0int, o),
        (0int, 0int, o),
        (0int, 0int, o),
        (0int, 0int, o),
        (0int, 0int, n),
        (0int, 0int, n),
        (0int, 0int, n),
        (0int, 0int, n),
        (o, 0int, 0int),
        (o, 0int, 0int),
        (o, 0int, 0int),
        (o, 0int, 0int),
        (n, 0int, 0int),
        (n, 0int, 0int),
        (n, 0int, 0int),
        (n, 0int, 0int),
        (0int, o, 0int),
        (0int, o, 0int),
        (0int, o, 0int),
        (0int, o, 0int),
        (0int, n, 0int),
        (0int, n, 0int),
        (0int, n, 0int),
        (0int, n, 0int),
    ]
}

/// Two triangles per face, wound to face outward.
pub open spec fn box_indices() -> Seq<int> {
    seq![
        0int, 1, 2, 2, 3, 0,
        4int, 5, 6, 6, 7, 4,
        8int, 9, 10, 10, 11, 8,
        12int, 13, 14, 14, 15, 12,
        16int, 17, 18, 18, 19, 16,
        20int, 21, 22, 22, 23, 20,
    ]
}

/// An axis-aligned cuboid centered at the origin: twenty-four vertices
/// (six faces of four), each face with an exact flat unit normal, twelve
/// triangles with fixed outward winding.
pub fn make_box(x_size: i64, y_size: i64, z_size: i64) -> (r: MeshBuffer)
    requires
        s_abs(x_size as int) <= SPAN_MAX as int,
        s_abs(y_size as int) <= SPAN_MAX as int,
        s_abs(z_size as int) <= SPAN_MAX as int,
    ensures
        buf_wf(r),
        buf_in_range(r),
        r.positions@.len() == 24,
        r.indices@.len() == 36,
        vecs_are(r.positions@, box_positions(x_size as int, y_size as int, z_size as int)),
        vecs_are(r.normals@, box_normals()),
        idxs_are(r.indices@, box_indices()),
        r.uv is None,
{
    let hx = fp_half(x_size);
    let hy = fp_half(y_size);
    let hz = fp_half(z_size);
    let nx = -hx;
    let ny = -hy;
    let nz = -hz;
    let no = -ONE;
    let positions: Vec<Vec3> = vec![
        Vec3 { x: nx, y: ny, z: hz },
        Vec3 { x: hx, y: ny, z: hz },
        Vec3 { x: hx, y: hy, z: hz },
        Vec3 { x: nx, y: hy, z: hz },
        Vec3 { x: nx, y: hy, z: nz },
        Vec3 { x: hx, y: hy, z: nz },
        Vec3 { x: hx, y: ny, z: nz },
        Vec3 { x: nx, y: ny, z: nz },
        Vec3 { x: hx, y: ny, z: nz },
        Vec3 { x: hx, y: hy, z: nz },
        Vec3 { x: hx, y: hy, z: hz },
        Vec3 { x: hx, y: ny, z: hz },
        Vec3 { x: nx, y: ny, z: hz },
        Vec3 { x: nx, y: hy, z: hz },
        Vec3 { x: nx, y: hy, z: nz },
        Vec3 { x: nx, y: ny, z: nz },
        Vec3 { x: hx, y: hy, z: nz },
        Vec3 { x: nx, y: hy, z: nz },
        Vec3 { x: nx, y: hy, z: hz },
        Vec3 { x: hx, y: hy, z: hz },
        Vec3 { x: hx, y: ny, z: hz },
        Vec3 { x: nx, y: ny, z: hz },
        Vec3 { x: nx, y: ny, z: nz },
        Vec3 { x: hx, y: ny, z: nz },
    ];
    let normals: Vec<Vec3> = vec![
        Vec3 { x: 0, y: 0, z: ONE },
        Vec3 { x: 0, y: 0, z: ONE },
        Vec3 { x: 0, y: 0, z: ONE },
        Vec3 { x: 0, y: 0, z: ONE },
        Vec3 { x: 0, y: 0, z: no },
        Vec3 { x: 0, y: 0, z: no },
        Vec3 { x: 0, y: 0, z: no },
        Vec3 { x: 0, y: 0, z: no },
        Vec3 { x: ONE, y: 0, z: 0 },
        Vec3 { x: ONE, y: 0, z: 0 },
        Vec3 { x: ONE, y: 0, z: 0 },
        Vec3 { x: ONE, y: 0, z: 0 },
        Vec3 { x: no, y: 0, z: 0 },
        Vec3 { x: no, y: 0, z: 0 },
        Vec3 { x: no, y: 0, z: 0 },
        Vec3 { x: no, y: 0, z: 0 },
        Vec3 { x: 0, y: ONE, z: 0 },
        Vec3 { x: 0, y: ONE, z: 0 },
        Vec3 { x: 0, y: ONE, z: 0 },
        Vec3 { x: 0, y: ONE, z: 0 },
        Vec3 { x: 0, y: no, z: 0 },
        Vec3 { x: 0, y: no, z: 0 },
        Vec3 { x: 0, y: no, z: 0 },
        Vec3 { x: 0, y: no, z: 0 },
    ];
    let indices: Vec<u32> = vec![
        0, 1, 2, 2, 3, 0,
        4, 5, 6, 6, 7, 4,
        8, 9, 10, 10, 11, 8,
        12, 13, 14, 14, 15, 12,
        16, 17, 18, 18, 19, 16,
        20, 21, 22, 22, 23, 20,
    ];
    MeshBuffer { positions, normals, indices, uv: None }
}

/// The smaller of two values.
pub open spec fn s_min(a: int, b: int) -> int {
    if a < b {
        a
    } else {
        b
    }
}

/// The midpoint of two triples, each component halved with truncation.
pub open spec fn s_mid3(a: (int, int, int), b: (int, int, int)) -> (int, int, int) {
    (s_half(a.0 + b.0), s_half(a.1 + b.1), s_half(a.2 + b.2))
}

/// The four corners of the unit quad centered at the origin.
pub open spec fn unit_quad_positions() -> Seq<(int, int, int)> {
    let h = (ONE as int) / 2;
    let n = -h;
    seq![(n, n, 0int), (h, n, 0int), (h, h, 0int), (n, h, 0int)]
}

/// The two triangles of a quad.
pub open spec fn unit_quad_indices() -> Seq<int> {
    seq![0int, 1, 2, 0, 2, 3]
}

/// The transform a line stroke applies to the unit quad: scale to the
/// segment's length and thickness, turn to its heading, move to its
/// midpoint.
pub open spec fn line_stroke_tf(a: (int, int, int), b: (int, int, int), thickness: int)
    -> crate::transform::AffineTransform {
    crate::transform::spec_with_translation(
        crate::transform::spec_scaled(
            crate::transform::spec_rot_z(
                s_heading_cos(b.0 - a.0, b.1 - a.1),
                s_heading_sin(b.0 - a.0, b.1 - a.1),
            ),
            s_dist3(a, b),
            thickness,
            ONE as int,
        ),
        s_mid3(a, b),
    )
}

/// A thin flat stroke along the segment from `start` to `end`: the unit
/// quad scaled to the segment length and the stroke thickness, turned to
/// the segment's heading, centered between the endpoints.
pub fn line_stroke_mesh(start: Vec3, end: Vec3, thickness: i64) -> (r: MeshBuffer)
    requires
        t3_bounded(v3t(start), 0x2000_0000),
        t3_bounded(v3t(end), 0x2000_0000),
        s_abs(thickness as int) <= 0x2000_0000,
    ensures
        buf_wf(r),
        buf_in_range(r),
        r.positions@.len() == 4,
        r.indices@.len() == 6,
        vecs_are(
            r.positions@,
            map_pts(line_stroke_tf(v3t(start), v3t(end), thickness as int), unit_quad_positions()),
        ),
        vecs_are(
            r.normals@,
            map_dirs(
                line_stroke_tf(v3t(start), v3t(end), thickness as int),
                repeat_t3((0int, 0int, ONE as int), 4),
            ),
        ),
        idxs_are(r.indices@, unit_quad_indices()),
        r.uv is None,
{
    let h: i64 = ONE / 2;
    let n: i64 = -h;
    let positions: Vec<Vec3> = vec![
        Vec3 { x: n, y: n, z: 0 },
        Vec3 { x: h, y: n, z: 0 },
        Vec3 { x: h, y: h, z: 0 },
        Vec3 { x: n, y: h, z: 0 },
    ];
    let normals = repeat_point(Vec3 { x: 0, y: 0, z: ONE }, 4);
    let indices: Vec<u32> = vec![0, 1, 2, 0, 2, 3];
    let base = MeshBuffer { positions, normals, indices, uv: None };
    let len = v3_dist(start, end);
    proof {
        let dxi = end.x as int - start.x as int;
        let dyi = end.y as int - start.y as int;
        let dzi = end.z as int - start.z as int;
        let n2 = dxi * dxi + dyi * dyi + dzi * dzi;
        assert(dxi * dxi >= 0) by (nonlinear_arith);
        assert(dyi * dyi >= 0) by (nonlinear_arith);
        assert(dzi * dzi >= 0) by (nonlinear_arith);
        lemma_s_isqrt_bounds(n2);
        assert(dxi * dxi <= 0x4000_0000 * 0x4000_0000) by (nonlinear_arith)
            requires
                s_abs(dxi) <= 0x4000_0000,
        ;
        assert(dyi * dyi <= 0x4000_0000 * 0x4000_0000) by (nonlinear_arith)
            requires
                s_abs(dyi) <= 0x4000_0000,
        ;
        assert(dzi * dzi <= 0x4000_0000 * 0x4000_0000) by (nonlinear_arith)
            requires
                s_abs(dzi) <= 0x4000_0000,
        ;
        assert(len as int <= 0x8000_0000) by {
            if len as int > 0x8000_0000 {
                assert((len as int) * (len as int) > 3 * (0x4000_0000 * 0x4000_0000))
                    by (nonlinear_arith)
                    requires
                        len as int > 0x8000_0000,
                ;
            }
        }
    }
    let (c, sn) = heading_cos_sin(end.x - start.x, end.y - start.y);
    let rot = crate::transform::AffineTransform::from_rotation_z_cos_sin(c, sn);
    let center = Vec3 {
        x: fp_half(start.x + end.x),
        y: fp_half(start.y + end.y),
        z: fp_half(start.z + end.z),
    };
    let tf = crate::transform::AffineTransform::from_scale_rotation_translation(
        Vec3 { x: len, y: thickness, z: ONE },
        rot,
        center,
    );
    let ghost base0 = base;
    let r = base.transform_by(tf);
    proof {
        assert(tf == line_stroke_tf(v3t(start), v3t(end), thickness as int));
        assert(base0.positions@.len() == 4);
        lemma_transformed_model(
            base0,
            r,
            tf,
            unit_quad_positions(),
            repeat_t3((0int, 0int, ONE as int), 4),
        );
    }
    r
}

/// A line stroke from `start` toward a heading given in fixed-point
/// radians, of the given length and thickness.
pub fn line_stroke_away_from(start: Vec3, direction_radians: i64, length: i64, thickness: i64) -> (r:
    MeshBuffer)
    requires
        t3_bounded(v3t(start), 0x1000_0000),
        s_abs(length as int) <= 0x1000_0000,
        s_abs(thickness as int) <= 0x2000_0000,
    ensures
        buf_wf(r),
        buf_in_range(r),
        r.positions@.len() == 4,
        r.indices@.len() == 6,
        ({
            let d = direction_radians as int;
            let e = (
                start.x + s_mul(length as int, s_cos(d)),
                start.y + s_mul(length as int, s_sin(d)),
                start.z as int,
            );
            &&& vecs_are(
                r.positions@,
                map_pts(line_stroke_tf(v3t(start), e, thickness as int), unit_quad_positions()),
            )
            &&& vecs_are(
                r.normals@,
                map_dirs(
                    line_stroke_tf(v3t(start), e, thickness as int),
                    repeat_t3((0int, 0int, ONE as int), 4),
                ),
            )
        }),
        idxs_are(r.indices@, unit_quad_indices()),
        r.uv is None,
{
    let (sn, c) = sin_cos(direction_radians);
    proof {
        lemma_s_mul_unit_bound(length as int, c as int, 0x1000_0000);
        lemma_s_mul_unit_bound(length as int, sn as int, 0x1000_0000);
    }
    let end = Vec3 { x: start.x + fp_mul(length, c), y: start.y + fp_mul(length, sn), z: start.z };
    line_stroke_mesh(start, end, thickness)
}

/// The transform that carries a flat arrow from the origin onto the
/// segment from `a` to `b`: a turn to the segment's heading, then a move
/// to `a`.
pub open spec fn arrow_between_tf(a: (int, int, int), b: (int, int, int))
    -> crate::transform::AffineTransform {
    crate::transform::spec_with_translation(
        crate::transform::spec_rot_z(
            s_heading_cos(b.0 - a.0, b.1 - a.1),
            s_heading_sin(b.0 - a.0, b.1 - a.1),
        ),
        a,
    )
}

/// A flat dart arrow spanning the segment from `start` to `stop`: the
/// tip length is capped at the segment length, the shaft takes the rest,
/// and the dart is turned and moved onto the segment.
pub fn flat_arrow_mesh_between(
    start: Vec3,
    stop: Vec3,
    handle_width: i64,
    tip_length: i64,
    tip_width: i64,
) -> (r: MeshBuffer)
    requires
        t3_bounded(v3t(start), SHAPE_MAX as int),
        t3_bounded(v3t(stop), SHAPE_MAX as int),
        s_abs(handle_width as int) <= SPAN_MAX as int,
        0 <= tip_length <= SPAN_MAX,
        s_abs(tip_width as int) <= SPAN_MAX as int,
    ensures
        buf_wf(r),
        buf_in_range(r),
        r.positions@.len() == 7,
        r.indices@.len() == 9,
        ({
            let total = s_dist3(v3t(start), v3t(stop));
            let tip = s_min(total, tip_length as int);
            &&& vecs_are(
                r.positions@,
                map_pts(
                    arrow_between_tf(v3t(start), v3t(stop)),
                    flat_arrow_positions(total - tip, handle_width as int, tip, tip_width as int),
                ),
            )
            &&& vecs_are(
                r.normals@,
                map_dirs(
                    arrow_between_tf(v3t(start), v3t(stop)),
                    repeat_t3((0int, 0int, ONE as int), 7),
                ),
            )
        }),
        idxs_are(r.indices@, flat_arrow_indices()),
        r.uv is None,
{
    let total = v3_dist(start, stop);
    let tip = if total < tip_length {
        total
    } else {
        tip_length
    };
    let handle = total - tip;
    let (c, sn) = heading_cos_sin(stop.x - start.x, stop.y - start.y);
    let rot = crate::transform::AffineTransform::from_rotation_z_cos_sin(c, sn);
    let tf = crate::transform::AffineTransform::from_rotation_translation(rot, start);
    let base = flat_arrow_mesh(handle, handle_width, tip, tip_width);
    let ghost base0 = base;
    let r = base.transform_by(tf);
    proof {
        assert(tf == arrow_between_tf(v3t(start), v3t(stop)));
        lemma_transformed_model(
            base0,
            r,
            tf,
            flat_arrow_positions(handle as int, handle_width as int, tip as int, tip_width as int),
            repeat_t3((0int, 0int, ONE as int), 7),
        );
    }
    r
}

/// The analytic side normal of a slanted surface of revolution at a
/// given azimuth: the slope direction `(rise, run)` scaled to unit
/// length and swung to the azimuth whose cosine and sine are given. A
/// zero slope yields the horizontal radial direction.
pub open spec fn s_slant_normal(cth: int, sth: int, run: int, rise: int) -> (int, int, int) {
    let l = s_isqrt(run * run + rise * rise);
    if l == 0 {
        (cth, sth, 0)
    } else {
        (s_mul(cth, s_div(rise, l)), s_mul(sth, s_div(rise, l)), s_div(run, l))
    }
}

/// Compute the analytic slant normal exactly.
fn slant_normal(cth: i64, sth: i64, run: i64, rise: i64) -> (r: Vec3)
    requires
        s_abs(cth as int) <= ONE as int,
        s_abs(sth as int) <= ONE as int,
        s_abs(run as int) <= 0x1000_0000_0000,
        s_abs(rise as int) <= 0x1000_0000_0000,
    ensures
        v3t(r) == s_slant_normal(cth as int, sth as int, run as int, rise as int),
        t3_bounded(v3t(r), ONE as int),
{
    let mr: u64 = if run < 0 {
        (-run) as u64
    } else {
        run as u64
    };
    let ms: u64 = if rise < 0 {
        (-rise) as u64
    } else {
        rise as u64
    };
    proof {
        assert(mr as int * mr as int == run as int * run as int) by (nonlinear_arith)
            requires
                mr == s_abs(run as int),
        ;
        assert(ms as int * ms as int == rise as int * rise as int) by (nonlinear_arith)
            requires
                ms == s_abs(rise as int),
        ;
        assert(mr as int * mr as int >= 0) by (nonlinear_arith);
        assert(ms as int * ms as int >= 0) by (nonlinear_arith);
        assert(mr as int * mr as int <= 0x1000_0000_0000 * 0x1000_0000_0000) by (nonlinear_arith)
            requires
                mr <= 0x1000_0000_0000,
        ;
        assert(ms as int * ms as int <= 0x1000_0000_0000 * 0x1000_0000_0000) by (nonlinear_arith)
            requires
                ms <= 0x1000_0000_0000,
        ;
    }
    let n2: u128 = (mr as u128) * (mr as u128) + (ms as u128) * (ms as u128);
    if n2 == 0 {
        Vec3 { x: cth, y: sth, z: 0 }
    } else {
        let l: u64 = isqrt(n2);
        proof {
            lemma_s_isqrt_bounds(n2 as int);
            let li = l as int;
            assert(li >= 1) by {
                assert(li >= 0);
                if li == 0 {
                    assert((li + 1) * (li + 1) == 1) by (nonlinear_arith)
                        requires
                            li == 0,
                    ;
                }
            }
            assert(s_abs(run as int) <= li) by {
                if s_abs(run as int) > li {
                    assert((li + 1) * (li + 1) <= mr as int * mr as int) by (nonlinear_arith)
                        requires
                            0 <= li,
                            li + 1 <= mr as int,
                    ;
                }
            }
            assert(s_abs(rise as int) <= li) by {
                if s_abs(rise as int) > li {
                    assert((li + 1) * (li + 1) <= ms as int * ms as int) by (nonlinear_arith)
                        requires
                            0 <= li,
                            li + 1 <= ms as int,
                    ;
                }
            }
            assert(li <= 0x2000_0000_0000) by {
                if li > 0x2000_0000_0000 {
                    assert(li * li > 2 * (0x1000_0000_0000 * 0x1000_0000_0000))
                        by (nonlinear_arith)
                        requires
                            li > 0x2000_0000_0000,
                    ;
                }
            }
            lemma_s_div_unit_bound(run as int, li);
            lemma_s_div_unit_bound(rise as int, li);
            lemma_s_mul_unit_bound(s_div(rise as int, li), cth as int, ONE as int);
            lemma_s_mul_unit_bound(s_div(rise as int, li), sth as int, ONE as int);
        }
        let li: i64 = l as i64;
        let zdiv = fp_div(rise, li);
        proof {
            assert(s_mul(cth as int, zdiv as int) == s_mul(zdiv as int, cth as int))
                by (nonlinear_arith);
            assert(s_mul(sth as int, zdiv as int) == s_mul(zdiv as int, sth as int))
                by (nonlinear_arith);
        }
        Vec3 { x: fp_mul(cth, zdiv), y: fp_mul(sth, zdiv), z: fp_div(run, li) }
    }
}

/// Circles ordered bottom first: callers may pass them either way.
pub open spec fn order_by_height(a: Circle, b: Circle) -> (Circle, Circle) {
    if a.height < b.height {
        (a, b)
    } else {
        (b, a)
    }
}

/// The normals of a smooth wrap: one analytic slant normal per azimuth,
/// shared by the bottom and top ring vertices at that azimuth.
pub open spec fn smooth_wrap_normals(bottom: Circle, top: Circle, res: int) -> Seq<
    (int, int, int),
> {
    Seq::new(
        (2 * res) as nat,
        |j: int|
            {
                let th = crate::ring::ring_angle(j % res, res, 0);
                s_slant_normal(
                    s_cos(th),
                    s_sin(th),
                    -(top.radius - bottom.radius),
                    top.height - bottom.height,
                )
            },
    )
}

/// The quad-strip index at position `j` of a smooth wrap of `res`
/// azimuths: two triangles per step, the top ring starting at `res`.
pub open spec fn smooth_wrap_idx(res: int, j: int) -> int {
    let g = j / 6;
    let k = j % 6;
    if k == 0 {
        g
    } else if k == 1 {
        g + 1
    } else if k == 2 {
        res + 1 + g
    } else if k == 3 {
        g
    } else if k == 4 {
        res + 1 + g
    } else {
        res + g
    }
}

/// A smooth wrap: a ruled band between two rings of `resolution` points,
/// with analytically slanted normals independent of the triangulation,
/// correct for cones, cylinders and tapers. The circles are ordered by
/// height first, so they may be passed either way. Zero resolution
/// yields the empty buffer.
pub fn make_smooth_wrap(circles: [Circle; 2], resolution: u32) -> (r: MeshBuffer)
    requires
        circle_bounded(circles[0], SPAN_MAX as int),
        circle_bounded(circles[1], SPAN_MAX as int),
        resolution <= 65536,
    ensures
        buf_wf(r),
        buf_in_range(r),
        r.uv is None,
        resolution == 0 ==> r.positions@.len() == 0 && r.indices@.len() == 0,
        resolution >= 1 ==> ({
            let ordered = order_by_height(circles[0], circles[1]);
            &&& r.positions@.len() == 2 * resolution
            &&& r.indices@.len() == 6 * (resolution - 1)
            &&& vecs_are(
                r.positions@,
                rings_model(seq![ordered.0, ordered.1], resolution as int, 0),
            )
            &&& vecs_are(r.normals@, smooth_wrap_normals(ordered.0, ordered.1, resolution as int))
            &&& idxs_are(
                r.indices@,
                Seq::new(
                    (6 * (resolution - 1)) as nat,
                    |j: int| smooth_wrap_idx(resolution as int, j),
                ),
            )
        }),
{
    if resolution == 0 {
        return MeshBuffer::empty();
    }
    let (bottom, top) = if circles[0].height < circles[1].height {
        (circles[0], circles[1])
    } else {
        (circles[1], circles[0])
    };
    let ring: Vec<Circle> = vec![bottom, top];
    let positions = make_circles(&ring, resolution, 0);
    proof {
        assert(ring@ =~= seq![bottom, top]);
    }
    let pat: Vec<u32> = vec![0, 1, resolution + 1, 0, resolution + 1, resolution];
    let indices = pattern_indices(&pat, resolution - 1);
    let ghost imodel = Seq::new(
        (6 * (resolution - 1)) as nat,
        |j: int| smooth_wrap_idx(resolution as int, j),
    );
    proof {
        let pm = pattern_model(pat@, resolution as int - 1);
        assert(pm.len() == imodel.len()) by (nonlinear_arith)
            requires
                pm.len() == (resolution as int - 1) * pat@.len(),
                pat@.len() == 6,
                imodel.len() == 6 * (resolution as int - 1),
        ;
        assert forall|j: int| 0 <= j < imodel.len() implies pm[j] == #[trigger] imodel[j] by {
            let k = j % 6;
            vstd::arithmetic::div_mod::lemma_mod_division_less_than_divisor(j, 6);
            assert(k == 0 || k == 1 || k == 2 || k == 3 || k == 4 || k == 5);
            assert(pat@.len() == 6);
        }
        assert(imodel =~= pm);
    }
    let step_e: i64 = if resolution >= 2 {
        ((TAU as u64) / ((resolution - 1) as u64)) as i64
    } else {
        0
    };
    proof {
        assert(step_e == crate::ring::ring_step(resolution as int, 0));
        assert(0 <= step_e <= TAU) by {
            if resolution >= 2 {
                vstd::arithmetic::div_mod::lemma_div_pos_is_pos(TAU as int, resolution as int - 1);
                vstd::arithmetic::div_mod::lemma_div_nonincreasing(TAU as int, resolution as int - 1);
            }
        }
    }
    let dr: i64 = top.radius - bottom.radius;
    let dh: i64 = top.height - bottom.height;
    let run: i64 = -dr;
    let mut ring_normals: Vec<Vec3> = Vec::new();
    let mut i: u32 = 0;
    while i < resolution
        invariant
            0 <= i <= resolution,
            resolution <= 65536,
            circle_bounded(bottom, SPAN_MAX as int),
            circle_bounded(top, SPAN_MAX as int),
            dr == top.radius - bottom.radius,
            dh == top.height - bottom.height,
            run == -dr,
            step_e == crate::ring::ring_step(resolution as int, 0),
            0 <= step_e <= TAU,
            ring_normals@.len() == i,
            forall|j: int|
                0 <= j < i ==> v3t(#[trigger] ring_normals@[j]) == s_slant_normal(
                    s_cos(crate::ring::ring_angle(j, resolution as int, 0)),
                    s_sin(crate::ring::ring_angle(j, resolution as int, 0)),
                    -(top.radius - bottom.radius),
                    top.height - bottom.height,
                ),
            forall|j: int| 0 <= j < i ==> t3_bounded(v3t(#[trigger] ring_normals@[j]), ONE as int),
        decreases resolution - i,
    {
        proof {
            assert(0 <= (i as int) * (step_e as int) <= 65536 * 411775) by (nonlinear_arith)
                requires
                    0 <= i <= 65536,
                    0 <= step_e <= 411775,
            ;
        }
        let theta: i64 = (i as i64) * step_e;
        let (sn, c) = sin_cos(theta);
        let n = slant_normal(c, sn, run, dh);
        ring_normals.push(n);
        i = i + 1;
    }
    let mut normals: Vec<Vec3> = Vec::new();
    crate::buffer::extend_vec3(&mut normals, &ring_normals);
    crate::buffer::extend_vec3(&mut normals, &ring_normals);
    let r = MeshBuffer { positions, normals, indices, uv: None };
    proof {
        let resi = resolution as int;
        let nmodel = smooth_wrap_normals(bottom, top, resi);
        assert(r.normals@.len() == 2 * resi);
        assert forall|j: int| 0 <= j < r.normals@.len() implies v3t(r.normals@[j])
            == #[trigger] nmodel[j] by {
            if j < resi {
                vstd::arithmetic::div_mod::lemma_small_mod(j as nat, resi as nat);
                assert(r.normals@[j] == ring_normals@[j]);
            } else {
                assert(r.normals@[j] == ring_normals@[j - resi]);
                vstd::arithmetic::div_mod::lemma_mod_add_multiples_vanish(j - resi, resi);
                vstd::arithmetic::div_mod::lemma_small_mod((j - resi) as nat, resi as nat);
                assert(j % resi == j - resi);
            }
        }
        assert forall|j: int| 0 <= j < r.normals@.len() implies t3_bounded(
            v3t(#[trigger] r.normals@[j]),
            COORD_MAX as int,
        ) by {
            if j < resi {
                assert(r.normals@[j] == ring_normals@[j]);
            } else {
                assert(r.normals@[j] == ring_normals@[j - resi]);
            }
        }
        assert forall|t: int| 0 <= t < r.indices@.len() implies (#[trigger] r.indices@[t])
            < r.positions@.len() by {
            let g = t / 6;
            let k = t % 6;
            vstd::arithmetic::div_mod::lemma_mod_division_less_than_divisor(t, 6);
            vstd::arithmetic::div_mod::lemma_fundamental_div_mod(t, 6);
            assert(r.indices@[t] == imodel[t]);
            assert(g < resi - 1) by (nonlinear_arith)
                requires
                    t == 6 * g + k,
                    0 <= k < 6,
                    t < 6 * (resi - 1),
            ;
        }
        assert(r.indices@.len() % 3 == 0) by {
            assert(6 * (resolution as int - 1) == 3 * (2 * (resolution as int - 1)));
            vstd::arithmetic::div_mod::lemma_mod_multiples_basic(2 * (resolution as int - 1), 3);
        }
    }
    r
}

/// The flat normal of one quad of a faceted wrap: the scaled-to-unit
/// cross product of two edges of the quad at azimuth step `i`.
pub open spec fn boxy_quad_normal(bottom: Circle, top: Circle, s: int, i: int) -> (int, int, int) {
    let m = rings_model(seq![bottom, bottom, top, top], s + 1, 0);
    let p0 = m[i];
    let p1 = m[i + 3 * s + 4];
    let p2 = m[i + 2 * s + 2];
    s_norm3(s_cross(t3_sub(p1, p0), t3_sub(p2, p0)))
}

/// The normal stored at vertex slot `v` of a faceted wrap: each quad's
/// four corners share that quad's flat normal, and the seam slots — the
/// closing vertex of each ring and the unreferenced opening vertex of
/// each duplicated ring — carry the adjacent face's normal, so every
/// stored normal is a unit-scaled face normal. With no segments there
/// are no faces and the four lone slots stay zero.
pub open spec fn boxy_wrap_normal_at(bottom: Circle, top: Circle, s: int, v: int) -> (
    int,
    int,
    int,
) {
    if s == 0 {
        (0, 0, 0)
    } else {
        boxy_quad_normal(bottom, top, s, boxy_slot_face(s, v))
    }
}

/// The face whose normal vertex slot `v` of a faceted wrap carries:
/// its own quad for a quad corner, the adjacent face for a seam slot.
pub open spec fn boxy_slot_face(s: int, v: int) -> int {
    if v < s {
        v
    } else if v == s {
        0
    } else if v == s + 1 {
        s - 1
    } else if v < 2 * s + 2 {
        v - (s + 2)
    } else if v < 3 * s + 2 {
        v - (2 * s + 2)
    } else if v == 3 * s + 2 {
        0
    } else if v == 3 * s + 3 {
        s - 1
    } else {
        v - (3 * s + 4)
    }
}

/// The quad-strip index at position `j` of a faceted wrap: two triangles
/// per azimuth step over the duplicated rings.
pub open spec fn boxy_wrap_idx(s: int, j: int) -> int {
    let g = j / 6;
    let k = j % 6;
    if k == 0 {
        g
    } else if k == 1 {
        3 * s + 4 + g
    } else if k == 2 {
        2 * s + 2 + g
    } else if k == 3 {
        g
    } else if k == 4 {
        s + 2 + g
    } else {
        3 * s + 4 + g
    }
}

/// A faceted ("boxy") wrap between two rings: each ring is sampled
/// twice so every quad owns its four corners, and each quad's corners
/// share one flat normal, the unit cross product of its edges. The
/// circles are ordered by height first.
#[verifier::rlimit(60)]
pub fn make_boxy_wrap(circles: [Circle; 2], segments: u32) -> (r: MeshBuffer)
    requires
        circle_bounded(circles[0], SHAPE_MAX as int),
        circle_bounded(circles[1], SHAPE_MAX as int),
        segments <= 16384,
    ensures
        buf_wf(r),
        buf_in_range(r),
        r.uv is None,
        ({
            let ordered = order_by_height(circles[0], circles[1]);
            let s = segments as int;
            &&& r.positions@.len() == 4 * (s + 1)
            &&& r.indices@.len() == 6 * s
            &&& vecs_are(
                r.positions@,
                rings_model(seq![ordered.0, ordered.0, ordered.1, ordered.1], s + 1, 0),
            )
            &&& vecs_are(
                r.normals@,
                Seq::new(
                    (4 * (s + 1)) as nat,
                    |v: int| boxy_wrap_normal_at(ordered.0, ordered.1, s, v),
                ),
            )
            &&& idxs_are(r.indices@, Seq::new((6 * s) as nat, |j: int| boxy_wrap_idx(s, j)))
        }),
{
    let (bottom, top) = if circles[0].height < circles[1].height {
        (circles[0], circles[1])
    } else {
        (circles[1], circles[0])
    };
    let ghost s = segments as int;
    let ring: Vec<Circle> = vec![bottom, bottom, top, top];
    let positions = make_circles(&ring, segments + 1, 0);
    proof {
        assert(ring@ =~= seq![bottom, bottom, top, top]);
        crate::ring::lemma_rings_bounded(ring@, s + 1, 0, SHAPE_MAX as int);
    }
    let ghost pmodel = rings_model(seq![bottom, bottom, top, top], s + 1, 0);
    let pat: Vec<u32> = vec![
        0,
        3 * segments + 4,
        2 * segments + 2,
        0,
        segments + 2,
        3 * segments + 4,
    ];
    let indices = pattern_indices(&pat, segments);
    let ghost imodel = Seq::new((6 * s) as nat, |j: int| boxy_wrap_idx(s, j));
    proof {
        let pm = pattern_model(pat@, s);
        assert(pm.len() == imodel.len()) by (nonlinear_arith)
            requires
                pm.len() == s * pat@.len(),
                pat@.len() == 6,
                imodel.len() == 6 * s,
        ;
        assert forall|j: int| 0 <= j < imodel.len() implies pm[j] == #[trigger] imodel[j] by {
            let k = j % 6;
            vstd::arithmetic::div_mod::lemma_mod_division_less_than_divisor(j, 6);
            assert(k == 0 || k == 1 || k == 2 || k == 3 || k == 4 || k == 5);
            assert(pat@.len() == 6);
        }
        assert(imodel =~= pm);
    }
    let count: usize = positions.len();
    let su: usize = segments as usize;
    let mut normals: Vec<Vec3> = Vec::new();
    let mut v: usize = 0;
    while v < count
        invariant
            count == 4 * (s + 1),
            su == s,
            0 <= v <= count,
            positions@.len() == count,
            vecs_are(positions@, pmodel),
            pmodel == rings_model(seq![bottom, bottom, top, top], s + 1, 0),
            forall|j: int| 0 <= j < pmodel.len() ==> t3_bounded(#[trigger] pmodel[j], SHAPE_MAX as int),
            normals@.len() == v,
            forall|j: int|
                0 <= j < v ==> v3t(#[trigger] normals@[j]) == boxy_wrap_normal_at(
                    bottom,
                    top,
                    s,
                    j,
                ),
            forall|j: int| 0 <= j < v ==> t3_bounded(v3t(#[trigger] normals@[j]), ONE as int),
        decreases count - v,
    {
        if su == 0 {
            normals.push(Vec3 { x: 0, y: 0, z: 0 });
        } else {
            let quad: usize = if v < su {
                v
            } else if v == su {
                0
            } else if v == su + 1 {
                su - 1
            } else if v < 2 * su + 2 {
                v - (su + 2)
            } else if v < 3 * su + 2 {
                v - (2 * su + 2)
            } else if v == 3 * su + 2 {
                0
            } else if v == 3 * su + 3 {
                su - 1
            } else {
                v - (3 * su + 4)
            };
            let p0 = positions[quad];
            let p1 = positions[quad + 3 * su + 4];
            let p2 = positions[quad + 2 * su + 2];
            proof {
                assert(v3t(positions@[quad as int]) == pmodel[quad as int]);
                assert(v3t(positions@[quad + 3 * su + 4]) == pmodel[quad + 3 * su + 4]);
                assert(v3t(positions@[quad + 2 * su + 2]) == pmodel[quad + 2 * su + 2]);
            }
            let e1 = v3_sub(p1, p0);
            let e2 = v3_sub(p2, p0);
            let n = v3_normalize(v3_cross(e1, e2));
            normals.push(n);
        }
        v = v + 1;
    }
    let r = MeshBuffer { positions, normals, indices, uv: None };
    proof {
        assert forall|t: int| 0 <= t < r.indices@.len() implies (#[trigger] r.indices@[t])
            < r.positions@.len() by {
            let g = t / 6;
            let k = t % 6;
            vstd::arithmetic::div_mod::lemma_mod_division_less_than_divisor(t, 6);
            vstd::arithmetic::div_mod::lemma_fundamental_div_mod(t, 6);
            assert(r.indices@[t] == imodel[t]);
            assert(g < s) by (nonlinear_arith)
                requires
                    t == 6 * g + k,
                    0 <= k < 6,
                    t < 6 * s,
            ;
        }
        assert(r.indices@.len() % 3 == 0) by {
            assert(6 * s == 3 * (2 * s));
            vstd::arithmetic::div_mod::lemma_mod_multiples_basic(2 * s, 3);
        }
        assert forall|j: int| 0 <= j < r.positions@.len() implies t3_bounded(
            v3t(#[trigger] r.positions@[j]),
            COORD_MAX as int,
        ) by {
            assert(v3t(r.positions@[j]) == pmodel[j]);
        }
    }
    r
}

/// The flat normal of one side face of a pyramid, its sign chosen so the
/// normal points outward whether the peak sits above or below the ring.
pub open spec fn pyramid_face_normal(c: Circle, pk: (int, int, int), s: int, i: int) -> (
    int,
    int,
    int,
) {
    let m = rings_model(seq![c, c], s + 1, 0);
    let p0 = m[i];
    let p1 = m[i + s + 2];
    if pk.2 < c.height {
        s_norm3(s_cross(t3_sub(pk, p0), t3_sub(p1, p0)))
    } else {
        s_norm3(s_cross(t3_sub(p1, p0), t3_sub(pk, p0)))
    }
}

/// The normal stored at vertex slot `v` of a pyramid: the three corners
/// of each side face share that face's flat normal, and the two seam
/// slots of the ring carry the adjacent face's normal, so every stored
/// normal is a unit-scaled face normal. With no segments there are no
/// faces and the two lone slots stay zero.
pub open spec fn pyramid_normal_at(c: Circle, pk: (int, int, int), s: int, v: int) -> (
    int,
    int,
    int,
) {
    if s == 0 {
        (0, 0, 0)
    } else {
        pyramid_face_normal(c, pk, s, pyramid_slot_face(s, v))
    }
}

/// The face whose normal vertex slot `v` of a pyramid carries: its own
/// face for a face corner, the adjacent face for a seam slot.
pub open spec fn pyramid_slot_face(s: int, v: int) -> int {
    if v < s {
        v
    } else if v == s {
        0
    } else if v == s + 1 {
        s - 1
    } else if v < 2 * s + 2 {
        v - (s + 2)
    } else {
        v - (2 * s + 2)
    }
}

/// The index at position `j` of a pyramid: one triangle per azimuth
/// step, from the ring to the duplicated peak.
pub open spec fn pyramid_idx(s: int, j: int) -> int {
    let g = j / 3;
    let k = j % 3;
    if k == 0 {
        g
    } else if k == 1 {
        s + 2 + g
    } else {
        2 * s + 2 + g
    }
}

/// The positions of a pyramid: a doubled ring, then the peak once per
/// segment so every side face owns its apex corner.
pub open spec fn pyramid_positions(c: Circle, pk: (int, int, int), s: int) -> Seq<
    (int, int, int),
> {
    rings_model(seq![c, c], s + 1, 0) + repeat_t3(pk, s)
}

/// A pyramid over a ring: flat per-face shading, the face normal's sign
/// chosen by comparing the peak's height with the ring's so it always
/// points outward.
#[verifier::rlimit(60)]
pub fn make_pyramid(circle: Circle, peak: Vec3, segments: u32) -> (r: MeshBuffer)
    requires
        circle_bounded(circle, SHAPE_MAX as int),
        t3_bounded(v3t(peak), SHAPE_MAX as int),
        segments <= 16384,
    ensures
        buf_wf(r),
        buf_in_range(r),
        r.uv is None,
        ({
            let s = segments as int;
            &&& r.positions@.len() == 3 * s + 2
            &&& r.indices@.len() == 3 * s
            &&& vecs_are(r.positions@, pyramid_positions(circle, v3t(peak), s))
            &&& vecs_are(
                r.normals@,
                Seq::new(
                    (3 * s + 2) as nat,
                    |v: int| pyramid_normal_at(circle, v3t(peak), s, v),
                ),
            )
            &&& idxs_are(r.indices@, Seq::new((3 * s) as nat, |j: int| pyramid_idx(s, j)))
        }),
{
    let ghost s = segments as int;
    let ring: Vec<Circle> = vec![circle, circle];
    let mut positions = make_circles(&ring, segments + 1, 0);
    proof {
        assert(ring@ =~= seq![circle, circle]);
        crate::ring::lemma_rings_bounded(ring@, s + 1, 0, SHAPE_MAX as int);
    }
    let ghost rmodel = rings_model(seq![circle, circle], s + 1, 0);
    let peaks = repeat_point(peak, segments as usize);
    crate::buffer::extend_vec3(&mut positions, &peaks);
    let ghost pmodel = pyramid_positions(circle, v3t(peak), s);
    proof {
        assert forall|j: int| 0 <= j < positions@.len() implies v3t(positions@[j])
            == #[trigger] pmodel[j] by {
            if j < 2 * (s + 1) {
                assert(pmodel[j] == rmodel[j]);
            } else {
                assert(positions@[j] == peaks@[j - 2 * (s + 1)]);
                assert(pmodel[j] == repeat_t3(v3t(peak), s)[j - 2 * (s + 1)]);
            }
        }
    }
    let pat: Vec<u32> = vec![0, segments + 2, 2 * segments + 2];
    let indices = pattern_indices(&pat, segments);
    let ghost imodel = Seq::new((3 * s) as nat, |j: int| pyramid_idx(s, j));
    proof {
        let pm = pattern_model(pat@, s);
        assert(pm.len() == imodel.len()) by (nonlinear_arith)
            requires
                pm.len() == s * pat@.len(),
                pat@.len() == 3,
                imodel.len() == 3 * s,
        ;
        assert forall|j: int| 0 <= j < imodel.len() implies pm[j] == #[trigger] imodel[j] by {
            let k = j % 3;
            vstd::arithmetic::div_mod::lemma_mod_division_less_than_divisor(j, 3);
            assert(k == 0 || k == 1 || k == 2);
            assert(pat@.len() == 3);
        }
        assert(imodel =~= pm);
    }
    let count: usize = positions.len();
    let su: usize = segments as usize;
    let mut normals: Vec<Vec3> = Vec::new();
    let mut v: usize = 0;
    while v < count
        invariant
            count == 3 * s + 2,
            su == s,
            0 <= v <= count,
            positions@.len() == count,
            vecs_are(positions@, pmodel),
            pmodel == pyramid_positions(circle, v3t(peak), s),
            rmodel == rings_model(seq![circle, circle], s + 1, 0),
            forall|j: int| 0 <= j < rmodel.len() ==> t3_bounded(#[trigger] rmodel[j], SHAPE_MAX as int),
            t3_bounded(v3t(peak), SHAPE_MAX as int),
            circle_bounded(circle, SHAPE_MAX as int),
            normals@.len() == v,
            forall|j: int|
                0 <= j < v ==> v3t(#[trigger] normals@[j]) == pyramid_normal_at(
                    circle,
                    v3t(peak),
                    s,
                    j,
                ),
            forall|j: int| 0 <= j < v ==> t3_bounded(v3t(#[trigger] normals@[j]), ONE as int),
        decreases count - v,
    {
        if su == 0 {
            normals.push(Vec3 { x: 0, y: 0, z: 0 });
        } else {
            let quad: usize = if v < su {
                v
            } else if v == su {
                0
            } else if v == su + 1 {
                su - 1
            } else if v < 2 * su + 2 {
                v - (su + 2)
            } else {
                v - (2 * su + 2)
            };
            let p0 = positions[quad];
            let p1 = positions[quad + su + 2];
            proof {
                assert(v3t(positions@[quad as int]) == pmodel[quad as int]);
                assert(pmodel[quad as int] == rmodel[quad as int]);
                assert(pmodel[quad + su + 2] == rmodel[quad + su + 2]);
            }
            let e1 = v3_sub(p1, p0);
            let e2 = v3_sub(peak, p0);
            let n = if peak.z < circle.height {
                v3_normalize(v3_cross(e2, e1))
            } else {
                v3_normalize(v3_cross(e1, e2))
            };
            normals.push(n);
        }
        v = v + 1;
    }
    let r = MeshBuffer { positions, normals, indices, uv: None };
    proof {
        assert forall|t: int| 0 <= t < r.indices@.len() implies (#[trigger] r.indices@[t])
            < r.positions@.len() by {
            let g = t / 3;
            let k = t % 3;
            vstd::arithmetic::div_mod::lemma_mod_division_less_than_divisor(t, 3);
            vstd::arithmetic::div_mod::lemma_fundamental_div_mod(t, 3);
            assert(r.indices@[t] == imodel[t]);
            assert(g < s) by (nonlinear_arith)
                requires
                    t == 3 * g + k,
                    0 <= k < 3,
                    t < 3 * s,
            ;
        }
        vstd::arithmetic::div_mod::lemma_mod_multiples_basic(s, 3);
        assert forall|j: int| 0 <= j < r.positions@.len() implies t3_bounded(
            v3t(#[trigger] r.positions@[j]),
            COORD_MAX as int,
        ) by {
            assert(v3t(r.positions@[j]) == pmodel[j]);
            if j < 2 * (s + 1) {
                assert(pmodel[j] == rmodel[j]);
            } else {
                assert(pmodel[j] == v3t(peak));
            }
        }
    }
    r
}

/// The analytic side normal of a cone at azimuth angle `th`: the slant
/// runs from the ring point to the peak, its horizontal reach measured
/// from the peak's axis position.
pub open spec fn s_cone_normal(c: Circle, pk: (int, int, int), th: int) -> (int, int, int) {
    let x = s_mul(c.radius as int, s_cos(th));
    let y = s_mul(c.radius as int, s_sin(th));
    let rd = s_isqrt((x - pk.0) * (x - pk.0) + (y - pk.1) * (y - pk.1));
    s_slant_normal(s_cos(th), s_sin(th), rd, pk.2 - c.height)
}

/// Compute the cone's analytic side normal exactly.
fn cone_normal(c: Circle, peak: Vec3, theta: i64) -> (r: Vec3)
    requires
        circle_bounded(c, SHAPE_MAX as int),
        t3_bounded(v3t(peak), SHAPE_MAX as int),
        s_abs(theta as int) <= 0x10_0000_0000,
    ensures
        v3t(r) == s_cone_normal(c, v3t(peak), theta as int),
        t3_bounded(v3t(r), ONE as int),
{
    let (sn, cs) = sin_cos(theta);
    proof {
        lemma_s_mul_unit_bound(c.radius as int, cs as int, SHAPE_MAX as int);
        lemma_s_mul_unit_bound(c.radius as int, sn as int, SHAPE_MAX as int);
    }
    let x = fp_mul(c.radius, cs);
    let y = fp_mul(c.radius, sn);
    let dx: i64 = x - peak.x;
    let dy: i64 = y - peak.y;
    let mx: u64 = if dx < 0 {
        (-dx) as u64
    } else {
        dx as u64
    };
    let my: u64 = if dy < 0 {
        (-dy) as u64
    } else {
        dy as u64
    };
    proof {
        assert(mx as int * mx as int == dx as int * dx as int) by (nonlinear_arith)
            requires
                mx == s_abs(dx as int),
        ;
        assert(my as int * my as int == dy as int * dy as int) by (nonlinear_arith)
            requires
                my == s_abs(dy as int),
        ;
        assert(mx as int * mx as int >= 0) by (nonlinear_arith);
        assert(my as int * my as int >= 0) by (nonlinear_arith);
        assert(mx as int * mx as int <= 0x20_0000_0000 * 0x20_0000_0000) by (nonlinear_arith)
            requires
                mx <= 0x20_0000_0000,
        ;
        assert(my as int * my as int <= 0x20_0000_0000 * 0x20_0000_0000) by (nonlinear_arith)
            requires
                my <= 0x20_0000_0000,
        ;
    }
    let n2: u128 = (mx as u128) * (mx as u128) + (my as u128) * (my as u128);
    let rd64: u64 = isqrt(n2);
    proof {
        lemma_s_isqrt_bounds(n2 as int);
        let li = rd64 as int;
        assert(li <= 0x40_0000_0000) by {
            if li > 0x40_0000_0000 {
                assert(li * li > 2 * (0x20_0000_0000 * 0x20_0000_0000)) by (nonlinear_arith)
                    requires
                        li > 0x40_0000_0000,
                ;
            }
        }
    }
    let rd: i64 = rd64 as i64;
    let h: i64 = peak.z - c.height;
    slant_normal(cs, sn, rd, h)
}

/// The positions of a cone: the sampled ring without its closing
/// vertex, then the peak once per azimuth step so every side facet owns
/// its apex corner.
pub open spec fn cone_positions(c: Circle, pk: (int, int, int), res: int) -> Seq<
    (int, int, int),
> {
    Seq::new(
        (2 * res) as nat,
        |j: int|
            if j < res {
                ring_pt(c, j, res + 1, 0)
            } else {
                pk
            },
    )
}

/// The side index at position `j` of a cone before the closing
/// triangle.
pub open spec fn cone_side_idx(res: int, j: int) -> int {
    let g = j / 3;
    let k = j % 3;
    if k == 0 {
        g
    } else if k == 1 {
        g + 1
    } else {
        res + g
    }
}

/// All indices of a cone: one triangle per azimuth step and a final
/// triangle sealing the ring from its last point back to its first.
pub open spec fn cone_indices(res: int) -> Seq<int> {
    Seq::new((3 * (res - 1)) as nat, |j: int| cone_side_idx(res, j)) + seq![
        res - 1,
        0int,
        2 * res - 1,
    ]
}

/// The normals of a cone: the analytic slant normal at each ring
/// vertex, and at each mid-segment azimuth for the apex copies.
pub open spec fn cone_normals(c: Circle, pk: (int, int, int), res: int) -> Seq<(int, int, int)> {
    let step = crate::ring::ring_step(res + 1, 0);
    Seq::new(
        (2 * res) as nat,
        |j: int|
            if j < res {
                s_cone_normal(c, pk, j * step)
            } else {
                s_cone_normal(c, pk, (j - res) * step + s_half(step))
            },
    )
}

/// A cone: one open ring plus the peak duplicated per azimuth step, so
/// each side facet carries analytically slanted normals evaluated at
/// its ring vertex and at its mid-segment azimuth, and a closing
/// triangle seals the ring. Zero resolution yields the empty buffer.
pub fn make_cone(circle: Circle, peak: Vec3, resolution: u32) -> (r: MeshBuffer)
    requires
        circle_bounded(circle, SHAPE_MAX as int),
        t3_bounded(v3t(peak), SHAPE_MAX as int),
        resolution <= 65535,
    ensures
        buf_wf(r),
        buf_in_range(r),
        r.uv is None,
        resolution == 0 ==> r.positions@.len() == 0 && r.indices@.len() == 0,
        resolution >= 1 ==> ({
            let resi = resolution as int;
            &&& r.positions@.len() == 2 * resi
            &&& r.indices@.len() == 3 * resi
            &&& vecs_are(r.positions@, cone_positions(circle, v3t(peak), resi))
            &&& vecs_are(r.normals@, cone_normals(circle, v3t(peak), resi))
            &&& idxs_are(r.indices@, cone_indices(resi))
        }),
{
    if resolution == 0 {
        return MeshBuffer::empty();
    }
    let ghost resi = resolution as int;
    let ring: Vec<Circle> = vec![circle];
    let ring_pts = make_circles(&ring, resolution + 1, 0);
    proof {
        assert(ring@ =~= seq![circle]);
        crate::ring::lemma_rings_bounded(ring@, resi + 1, 0, SHAPE_MAX as int);
    }
    let ghost rmodel = rings_model(seq![circle], resi + 1, 0);
    let ghost pmodel = cone_positions(circle, v3t(peak), resi);
    let mut positions: Vec<Vec3> = Vec::new();
    let mut i: usize = 0;
    let resu: usize = resolution as usize;
    while i < resu
        invariant
            0 <= i <= resu,
            resu == resi,
            ring_pts@.len() == resi + 1,
            vecs_are(ring_pts@, rmodel),
            rmodel == rings_model(seq![circle], resi + 1, 0),
            pmodel == cone_positions(circle, v3t(peak), resi),
            positions@.len() == i,
            forall|j: int| 0 <= j < i ==> v3t(#[trigger] positions@[j]) == pmodel[j],
        decreases resu - i,
    {
        proof {
            assert(v3t(ring_pts@[i as int]) == rmodel[i as int]);
            vstd::arithmetic::div_mod::lemma_basic_div(i as int, resi + 1);
            vstd::arithmetic::div_mod::lemma_small_mod(i as nat, (resi + 1) as nat);
            assert(rmodel[i as int] == ring_pt(circle, i as int, resi + 1, 0));
            assert(pmodel[i as int] == ring_pt(circle, i as int, resi + 1, 0));
        }
        positions.push(ring_pts[i]);
        i = i + 1;
    }
    let peaks = repeat_point(peak, resu);
    crate::buffer::extend_vec3(&mut positions, &peaks);
    proof {
        assert forall|j: int| 0 <= j < positions@.len() implies v3t(positions@[j])
            == #[trigger] pmodel[j] by {
            if j >= resi {
                assert(positions@[j] == peaks@[j - resi]);
            }
        }
    }
    let pat: Vec<u32> = vec![0, 1, resolution];
    let mut indices = pattern_indices(&pat, resolution - 1);
    indices.push(resolution - 1);
    indices.push(0);
    indices.push(2 * resolution - 1);
    let ghost imodel = cone_indices(resi);
    proof {
        let pm = pattern_model(pat@, resi - 1);
        assert(pm.len() == 3 * (resi - 1)) by (nonlinear_arith)
            requires
                pm.len() == (resi - 1) * pat@.len(),
                pat@.len() == 3,
        ;
        assert forall|j: int| 0 <= j < indices@.len() implies indices@[j]
            == #[trigger] imodel[j] by {
            if j < 3 * (resi - 1) {
                let k = j % 3;
                vstd::arithmetic::div_mod::lemma_mod_division_less_than_divisor(j, 3);
                assert(k == 0 || k == 1 || k == 2);
                assert(pat@.len() == 3);
                assert(indices@[j] == pm[j]);
                assert(imodel[j] == cone_side_idx(resi, j));
            } else {
                assert(imodel[j] == seq![resi - 1, 0int, 2 * resi - 1][j - 3 * (resi - 1)]);
            }
        }
    }
    let step_e: i64 = ((TAU as u64) / (resolution as u64)) as i64;
    proof {
        assert(step_e == crate::ring::ring_step(resi + 1, 0));
        vstd::arithmetic::div_mod::lemma_div_pos_is_pos(TAU as int, resi);
        vstd::arithmetic::div_mod::lemma_div_nonincreasing(TAU as int, resi);
    }
    let hstep: i64 = ((step_e as u64) / 2) as i64;
    proof {
        assert(hstep == s_half(step_e as int));
        vstd::arithmetic::div_mod::lemma_div_pos_is_pos(step_e as int, 2);
        vstd::arithmetic::div_mod::lemma_div_nonincreasing(step_e as int, 2);
    }
    let ghost nmodel = cone_normals(circle, v3t(peak), resi);
    let mut normals: Vec<Vec3> = Vec::new();
    let mut k: u32 = 0;
    while k < resolution
        invariant
            0 <= k <= resolution,
            resolution <= 65535,
            resi == resolution as int,
            circle_bounded(circle, SHAPE_MAX as int),
            t3_bounded(v3t(peak), SHAPE_MAX as int),
            step_e == crate::ring::ring_step(resi + 1, 0),
            0 <= step_e <= TAU,
            nmodel == cone_normals(circle, v3t(peak), resi),
            normals@.len() == k,
            forall|j: int| 0 <= j < k ==> v3t(#[trigger] normals@[j]) == nmodel[j],
            forall|j: int| 0 <= j < k ==> t3_bounded(v3t(#[trigger] normals@[j]), ONE as int),
        decreases resolution - k,
    {
        proof {
            assert(0 <= (k as int) * (step_e as int) <= 65536 * 411775) by (nonlinear_arith)
                requires
                    0 <= k <= 65536,
                    0 <= step_e <= 411775,
            ;
        }
        let theta: i64 = (k as i64) * step_e;
        let n = cone_normal(circle, peak, theta);
        normals.push(n);
        k = k + 1;
    }
    let mut k2: u32 = 0;
    while k2 < resolution
        invariant
            0 <= k2 <= resolution,
            resolution <= 65535,
            resi == resolution as int,
            circle_bounded(circle, SHAPE_MAX as int),
            t3_bounded(v3t(peak), SHAPE_MAX as int),
            step_e == crate::ring::ring_step(resi + 1, 0),
            0 <= step_e <= TAU,
            0 <= hstep <= step_e,
            hstep == s_half(step_e as int),
            nmodel == cone_normals(circle, v3t(peak), resi),
            normals@.len() == resi + k2,
            forall|j: int| 0 <= j < resi + k2 ==> v3t(#[trigger] normals@[j]) == nmodel[j],
            forall|j: int|
                0 <= j < resi + k2 ==> t3_bounded(v3t(#[trigger] normals@[j]), ONE as int),
        decreases resolution - k2,
    {
        proof {
            assert(0 <= (k2 as int) * (step_e as int) <= 65536 * 411775) by (nonlinear_arith)
                requires
                    0 <= k2 <= 65536,
                    0 <= step_e <= 411775,
            ;
        }
        let theta: i64 = (k2 as i64) * step_e + hstep;
        let n = cone_normal(circle, peak, theta);
        proof {
            assert(nmodel[resi + k2] == s_cone_normal(
                circle,
                v3t(peak),
                (k2 as int) * (step_e as int) + s_half(step_e as int),
            ));
        }
        normals.push(n);
        k2 = k2 + 1;
    }
    let r = MeshBuffer { positions, normals, indices, uv: None };
    proof {
        assert forall|t: int| 0 <= t < r.indices@.len() implies (#[trigger] r.indices@[t])
            < r.positions@.len() by {
            assert(r.indices@[t] == imodel[t]);
            if t < 3 * (resi - 1) {
                let g = t / 3;
                let k3 = t % 3;
                vstd::arithmetic::div_mod::lemma_mod_division_less_than_divisor(t, 3);
                vstd::arithmetic::div_mod::lemma_fundamental_div_mod(t, 3);
                assert(g < resi - 1) by (nonlinear_arith)
                    requires
                        t == 3 * g + k3,
                        0 <= k3 < 3,
                        t < 3 * (resi - 1),
                ;
            } else {
                assert(imodel[t] == seq![resi - 1, 0int, 2 * resi - 1][t - 3 * (resi - 1)]);
            }
        }
        assert(r.indices@.len() % 3 == 0) by {
            assert(r.indices@.len() == 3 * resi);
            vstd::arithmetic::div_mod::lemma_mod_multiples_basic(resi, 3);
        }
        assert forall|j: int| 0 <= j < r.positions@.len() implies t3_bounded(
            v3t(#[trigger] r.positions@[j]),
            COORD_MAX as int,
        ) by {
            assert(v3t(r.positions@[j]) == pmodel[j]);
            if j < resi {
                vstd::arithmetic::div_mod::lemma_basic_div(j, resi + 1);
                vstd::arithmetic::div_mod::lemma_small_mod(j as nat, (resi + 1) as nat);
                assert(rmodel[j] == ring_pt(circle, j, resi + 1, 0));
                assert(pmodel[j] == rmodel[j]);
            }
        }
    }
    r
}

/// Concatenated vectors hold the concatenated models.
proof fn lemma_vecs_are_concat(
    s1: Seq<Vec3>,
    s2: Seq<Vec3>,
    m1: Seq<(int, int, int)>,
    m2: Seq<(int, int, int)>,
)
    requires
        vecs_are(s1, m1),
        vecs_are(s2, m2),
    ensures
        vecs_are(s1 + s2, m1 + m2),
{
    assert forall|j: int| 0 <= j < (s1 + s2).len() implies v3t((s1 + s2)[j]) == #[trigger] (m1
        + m2)[j] by {
        if j < s1.len() {
            assert(v3t(s1[j]) == m1[j]);
        } else {
            assert(v3t(s2[j - s1.len()]) == m2[j - s1.len()]);
        }
    }
}

/// The transform a wall applies to its box: a turn to the heading of
/// the segment between the endpoints, then a move to their midpoint at
/// half the wall's height.
pub open spec fn wall_tf(a: (int, int, int), b: (int, int, int), height: int)
    -> crate::transform::AffineTransform {
    crate::transform::spec_with_translation(
        crate::transform::spec_rot_z(
            s_heading_cos(b.0 - a.0, b.1 - a.1),
            s_heading_sin(b.0 - a.0, b.1 - a.1),
        ),
        (s_half(a.0 + b.0), s_half(a.1 + b.1), s_half(height)),
    )
}

/// The texture coordinates of a wall, scaled so a tiling texture
/// repeats with physical length and height: `u` spans length over
/// texture width, `v` spans height over texture height.
pub open spec fn wall_uv(length: int, height: int, tex_w: int, tex_h: int) -> Seq<(int, int)> {
    let u = s_div(length, tex_w);
    let v = s_div(height, tex_h);
    seq![
        (0int, 0int),
        (0int, 0int),
        (0int, 0int),
        (0int, 0int),
        (0int, v),
        (0int, v),
        (0int, v),
        (0int, v),
        (u, v),
        (0int, v),
        (0int, 0int),
        (u, 0int),
        (0int, 0int),
        (u, 0int),
        (u, v),
        (0int, v),
        (0int, v),
        (u, v),
        (u, 0int),
        (0int, 0int),
        (u, 0int),
        (0int, 0int),
        (0int, v),
        (u, v),
    ]
}

/// A wall spanning two endpoints: a box whose length equals their
/// distance, carrying texture coordinates scaled by physical length and
/// height, turned to the segment's heading and centered between the
/// endpoints at half its height. Absent texture sizes default to the
/// wall's height and to one unit; a zero wall height is degenerate but
/// valid, its texture height defaulting to one unit instead.
pub fn make_wall_mesh(
    p_start: Vec3,
    p_end: Vec3,
    thickness: i64,
    height: i64,
    texture_height: Option<i64>,
    texture_width: Option<i64>,
) -> (r: MeshBuffer)
    requires
        t3_bounded(v3t(p_start), SHAPE_MAX as int),
        t3_bounded(v3t(p_end), SHAPE_MAX as int),
        s_abs(thickness as int) <= SPAN_MAX as int,
        0 <= height <= SHAPE_MAX,
        (texture_height matches Some(t) ==> 0 < t <= SPAN_MAX),
        (texture_width matches Some(t) ==> 0 < t <= SPAN_MAX),
    ensures
        buf_wf(r),
        buf_in_range(r),
        r.positions@.len() == 24,
        r.indices@.len() == 36,
        ({
            let a = v3t(p_start);
            let b = v3t(p_end);
            let length = s_dist3(a, b);
            let tex_h = (match texture_height {
                Some(t) => t as int,
                None => if height == 0 {
                    ONE as int
                } else {
                    height as int
                },
            });
            let tex_w = (match texture_width {
                Some(t) => t as int,
                None => ONE as int,
            });
            &&& vecs_are(
                r.positions@,
                map_pts(
                    wall_tf(a, b, height as int),
                    box_positions(length, thickness as int, height as int),
                ),
            )
            &&& vecs_are(r.normals@, map_dirs(wall_tf(a, b, height as int), box_normals()))
            &&& (r.uv matches Some(uv) && uvs_are(
                uv@,
                wall_uv(length, height as int, tex_w, tex_h),
            ))
        }),
        idxs_are(r.indices@, box_indices()),
{
    let length = v3_dist(p_start, p_end);
    let tex_h: i64 = match texture_height {
        Some(t) => t,
        None => if height == 0 {
            ONE
        } else {
            height
        },
    };
    let tex_w: i64 = match texture_width {
        Some(t) => t,
        None => ONE,
    };
    let u = fp_div(length, tex_w);
    let v = fp_div(height, tex_h);
    let uv: Vec<UV2> = vec![
        UV2 { u: 0, v: 0 },
        UV2 { u: 0, v: 0 },
        UV2 { u: 0, v: 0 },
        UV2 { u: 0, v: 0 },
        UV2 { u: 0, v },
        UV2 { u: 0, v },
        UV2 { u: 0, v },
        UV2 { u: 0, v },
        UV2 { u, v },
        UV2 { u: 0, v },
        UV2 { u: 0, v: 0 },
        UV2 { u, v: 0 },
        UV2 { u: 0, v: 0 },
        UV2 { u, v: 0 },
        UV2 { u, v },
        UV2 { u: 0, v },
        UV2 { u: 0, v },
        UV2 { u, v },
        UV2 { u, v: 0 },
        UV2 { u: 0, v: 0 },
        UV2 { u, v: 0 },
        UV2 { u: 0, v: 0 },
        UV2 { u: 0, v },
        UV2 { u, v },
    ];
    let boxed = make_box(length, thickness, height);
    let with_uv = match boxed.with_uv(uv) {
        Ok(b) => b,
        Err(_) => vstd::pervasive::unreached(),
    };
    let (c, sn) = heading_cos_sin(p_end.x - p_start.x, p_end.y - p_start.y);
    let rot = crate::transform::AffineTransform::from_rotation_z_cos_sin(c, sn);
    let center = Vec3 {
        x: fp_half(p_start.x + p_end.x),
        y: fp_half(p_start.y + p_end.y),
        z: fp_half(height),
    };
    let tf = crate::transform::AffineTransform::from_rotation_translation(rot, center);
    let ghost base0 = with_uv;
    let r = with_uv.transform_by(tf);
    proof {
        assert(tf == wall_tf(v3t(p_start), v3t(p_end), height as int));
        lemma_transformed_model(
            base0,
            r,
            tf,
            box_positions(length as int, thickness as int, height as int),
            box_normals(),
        );
    }
    r
}

/// A diamond: a pyramid over a square ring with its peak up, merged
/// with the same pyramid turned half a turn about the x axis so its
/// mirror image points down.
pub fn make_diamond(tip: i64, width: i64) -> (r: MeshBuffer)
    requires
        s_abs(tip as int) <= SHAPE_MAX as int,
        s_abs(width as int) <= SHAPE_MAX as int,
    ensures
        buf_wf(r),
        buf_in_range(r),
        r.positions@.len() == 28,
        r.indices@.len() == 24,
        r.uv is None,
        ({
            let c = Circle { radius: width, height: 0 };
            let pk = (0int, 0int, tip as int);
            &&& vecs_are(
                r.positions@,
                pyramid_positions(c, pk, 4) + map_pts(
                    crate::transform::spec_rot_x_half(),
                    pyramid_positions(c, pk, 4),
                ),
            )
            &&& vecs_are(
                r.normals@,
                Seq::new(14nat, |v: int| pyramid_normal_at(c, pk, 4, v)) + map_dirs(
                    crate::transform::spec_rot_x_half(),
                    Seq::new(14nat, |v: int| pyramid_normal_at(c, pk, 4, v)),
                ),
            )
        }),
{
    let c = Circle { radius: width, height: 0 };
    let peak = Vec3 { x: 0, y: 0, z: tip };
    let upper = make_pyramid(c, peak, 4);
    let lower = make_pyramid(c, peak, 4);
    let flip = crate::transform::AffineTransform::rotation_x_half_turn();
    let ghost lower0 = lower;
    let flipped = lower.transform_by(flip);
    proof {
        lemma_transformed_model(
            lower0,
            flipped,
            flip,
            pyramid_positions(c, v3t(peak), 4),
            Seq::new(14nat, |v: int| pyramid_normal_at(c, v3t(peak), 4, v)),
        );
    }
    let ghost upper0 = upper;
    let r = upper.merge_with(flipped);
    proof {
        lemma_vecs_are_concat(
            upper0.positions@,
            flipped.positions@,
            pyramid_positions(c, v3t(peak), 4),
            map_pts(crate::transform::spec_rot_x_half(), pyramid_positions(c, v3t(peak), 4)),
        );
        lemma_vecs_are_concat(
            upper0.normals@,
            flipped.normals@,
            Seq::new(14nat, |v: int| pyramid_normal_at(c, v3t(peak), 4, v)),
            map_dirs(
                crate::transform::spec_rot_x_half(),
                Seq::new(14nat, |v: int| pyramid_normal_at(c, v3t(peak), 4, v)),
            ),
        );
    }
    r
}

/// The positions of a cylinder: the side wrap's two rims, the lowered
/// cap, and the raised half-turned cap.
pub open spec fn cylinder_positions(radius: i64, height: i64) -> Seq<(int, int, int)> {
    let hh = s_half(height as int);
    let mid = Circle { radius, height: 0 };
    let side = rings_model(
        seq![Circle { radius, height: (-hh) as i64 }, Circle { radius, height: hh as i64 }],
        32,
        0,
    );
    let below = map_pts(
        crate::transform::spec_translation((0int, 0int, -hh)),
        cap_positions(mid, 32),
    );
    let above = map_pts(
        crate::transform::spec_with_translation(
            crate::transform::spec_rot_x_half(),
            (0int, 0int, hh),
        ),
        cap_positions(mid, 32),
    );
    side + below + above
}

/// A cylinder of the given height and radius: a smooth side wrap
/// between its top and bottom rims, a downward cap underneath, and the
/// same cap turned half a turn and raised to close the top.
pub fn make_cylinder(height: i64, radius: i64) -> (r: MeshBuffer)
    requires
        0 <= height <= SHAPE_MAX,
        s_abs(radius as int) <= SHAPE_MAX as int,
    ensures
        buf_wf(r),
        buf_in_range(r),
        r.positions@.len() == 130,
        r.indices@.len() == 378,
        r.uv is None,
        vecs_are(r.positions@, cylinder_positions(radius, height)),
        ({
            let hh = s_half(height as int);
            let bottom = Circle { radius, height: (-hh) as i64 };
            let top = Circle { radius, height: hh as i64 };
            let down_n = repeat_t3((0int, 0int, -(ONE as int)), 33);
            vecs_are(
                r.normals@,
                smooth_wrap_normals(bottom, top, 32) + map_dirs(
                    crate::transform::spec_translation((0int, 0int, -hh)),
                    down_n,
                ) + map_dirs(
                    crate::transform::spec_with_translation(
                        crate::transform::spec_rot_x_half(),
                        (0int, 0int, hh),
                    ),
                    down_n,
                ),
            )
        }),
{
    let hh = fp_half(height);
    let top = Circle { radius, height: hh };
    let bottom = Circle { radius, height: -hh };
    let mid = Circle { radius, height: 0 };
    let side = make_smooth_wrap([top, bottom], 32);
    let ghost side_model = rings_model(seq![bottom, top], 32, 0);
    proof {
        assert(order_by_height(top, bottom) == (bottom, top));
    }
    let cap1 = make_bottom_circle(mid, 32);
    let down = crate::transform::AffineTransform::from_translation(Vec3 { x: 0, y: 0, z: -hh });
    let ghost cap10 = cap1;
    let below = cap1.transform_by(down);
    proof {
        lemma_transformed_model(
            cap10,
            below,
            down,
            cap_positions(mid, 32),
            repeat_t3((0int, 0int, -ONE as int), 33),
        );
    }
    let cap2 = make_bottom_circle(mid, 32);
    let flip = crate::transform::AffineTransform::rotation_x_half_turn();
    let up = crate::transform::AffineTransform::from_rotation_translation(
        flip,
        Vec3 { x: 0, y: 0, z: hh },
    );
    let ghost cap20 = cap2;
    let above = cap2.transform_by(up);
    proof {
        lemma_transformed_model(
            cap20,
            above,
            up,
            cap_positions(mid, 32),
            repeat_t3((0int, 0int, -ONE as int), 33),
        );
    }
    let ghost side0 = side;
    let first = side.merge_with(below);
    proof {
        lemma_vecs_are_concat(
            side0.positions@,
            below.positions@,
            side_model,
            map_pts(
                crate::transform::spec_translation((0int, 0int, -(s_half(height as int)))),
                cap_positions(mid, 32),
            ),
        );
        lemma_vecs_are_concat(
            side0.normals@,
            below.normals@,
            smooth_wrap_normals(bottom, top, 32),
            map_dirs(
                crate::transform::spec_translation((0int, 0int, -(s_half(height as int)))),
                repeat_t3((0int, 0int, -(ONE as int)), 33),
            ),
        );
    }
    let ghost first0 = first;
    let r = first.merge_with(above);
    proof {
        lemma_vecs_are_concat(
            first0.positions@,
            above.positions@,
            side_model + map_pts(
                crate::transform::spec_translation((0int, 0int, -(s_half(height as int)))),
                cap_positions(mid, 32),
            ),
            map_pts(
                crate::transform::spec_with_translation(
                    crate::transform::spec_rot_x_half(),
                    (0int, 0int, s_half(height as int)),
                ),
                cap_positions(mid, 32),
            ),
        );
        lemma_vecs_are_concat(
            first0.normals@,
            above.normals@,
            smooth_wrap_normals(bottom, top, 32) + map_dirs(
                crate::transform::spec_translation((0int, 0int, -(s_half(height as int)))),
                repeat_t3((0int, 0int, -(ONE as int)), 33),
            ),
            map_dirs(
                crate::transform::spec_with_translation(
                    crate::transform::spec_rot_x_half(),
                    (0int, 0int, s_half(height as int)),
                ),
                repeat_t3((0int, 0int, -(ONE as int)), 33),
            ),
        );
    }
    r
}

/// Fixed-point degrees per radian.
pub const DEG_PER_RAD: i64 = 3754936;

/// The start angle of an arc after normalization: a negative sweep
/// shifts the start backward so the arc is always generated with a
/// positive sweep over the same points.
pub open spec fn arc_start(initial: int, sweep: int) -> int {
    if sweep < 0 {
        initial + sweep
    } else {
        initial
    }
}

/// The sweep of an arc after normalization: always non-negative.
pub open spec fn arc_sweep(sweep: int) -> int {
    if sweep < 0 {
        -sweep
    } else {
        sweep
    }
}

/// How many ring points an arc uses: its sweep in degrees times the
/// vertex density, truncated to a whole count.
pub open spec fn arc_resolution(sweep: int, vertices_per_degree: int) -> int {
    s_mul(s_mul(arc_sweep(sweep), DEG_PER_RAD as int), vertices_per_degree) / (ONE as int)
}

/// The quad-strip index at position `j` of an annulus arc of `res`
/// points per rim, inner rim first.
pub open spec fn arc_idx(res: int, j: int) -> int {
    let g = j / 6;
    let k = j % 6;
    if k == 0 {
        g
    } else if k == 1 {
        res + g
    } else if k == 2 {
        res + 1 + g
    } else if k == 3 {
        g
    } else if k == 4 {
        res + 1 + g
    } else {
        1 + g
    }
}

/// The transform that places a generated arc: a turn to its start angle
/// about the z axis, then a move to its pivot.
pub open spec fn arc_tf(pivot: (int, int, int), a0: int) -> crate::transform::AffineTransform {
    crate::transform::spec_with_translation(
        crate::transform::spec_rot_z(s_cos(a0), s_sin(a0)),
        pivot,
    )
}

/// An annulus sector between an outer radius and that radius less a
/// thickness, swept from a start angle. A negative sweep is normalized
/// by shifting the start angle and negating the sweep, so the same
/// points are generated either way; the point count follows the sweep's
/// size in degrees times `vertices_per_degree`. Too small a sweep
/// yields an empty or triangle-free buffer.
pub fn flat_arc(
    pivot: Vec3,
    outer_radius: i64,
    inner_thickness: i64,
    initial_angle_radians: i64,
    sweep_radians: i64,
    vertices_per_degree: i64,
) -> (r: MeshBuffer)
    requires
        t3_bounded(v3t(pivot), SHAPE_MAX as int),
        0 <= outer_radius <= SHAPE_MAX,
        0 <= inner_thickness <= SHAPE_MAX,
        s_abs(initial_angle_radians as int) <= 0x1_0000_0000,
        s_abs(sweep_radians as int) <= TAU as int,
        0 <= vertices_per_degree <= 0x1000_0000,
        arc_resolution(sweep_radians as int, vertices_per_degree as int) <= 65536,
    ensures
        buf_wf(r),
        buf_in_range(r),
        r.uv is None,
        ({
            let res = arc_resolution(sweep_radians as int, vertices_per_degree as int);
            let a0 = arc_start(initial_angle_radians as int, sweep_radians as int);
            let gap = TAU - arc_sweep(sweep_radians as int);
            let inner = Circle { radius: (outer_radius - inner_thickness) as i64, height: 0i64 };
            let outer = Circle { radius: outer_radius, height: 0i64 };
            &&& r.positions@.len() == 2 * res
            &&& r.indices@.len() == (if res >= 1 {
                6 * (res - 1)
            } else {
                0
            })
            &&& vecs_are(
                r.positions@,
                map_pts(arc_tf(v3t(pivot), a0), rings_model(seq![inner, outer], res, gap)),
            )
            &&& vecs_are(
                r.normals@,
                map_dirs(arc_tf(v3t(pivot), a0), repeat_t3((0int, 0int, ONE as int), 2 * res)),
            )
            &&& (res >= 1 ==> idxs_are(
                r.indices@,
                Seq::new((6 * (res - 1)) as nat, |j: int| arc_idx(res, j)),
            ))
        }),
{
    let (initial_angle, sweep) = if sweep_radians < 0 {
        (initial_angle_radians + sweep_radians, -sweep_radians)
    } else {
        (initial_angle_radians, sweep_radians)
    };
    proof {
        crate::fx::lemma_s_mul_nonneg(sweep as int, DEG_PER_RAD as int);
        crate::fx::lemma_s_mul_bound(sweep as int, DEG_PER_RAD as int, TAU as int, DEG_PER_RAD as int);
        crate::fx::lemma_s_mul_nonneg(
            s_mul(sweep as int, DEG_PER_RAD as int),
            vertices_per_degree as int,
        );
        crate::fx::lemma_s_mul_bound(
            s_mul(sweep as int, DEG_PER_RAD as int),
            vertices_per_degree as int,
            0x2000_0000,
            0x1000_0000,
        );
    }
    let degrees = fp_mul(sweep, DEG_PER_RAD);
    let scaled = fp_mul(degrees, vertices_per_degree);
    let resolution: u32 = ((scaled as u64) / 65536) as u32;
    proof {
        assert(resolution == arc_resolution(sweep_radians as int, vertices_per_degree as int));
    }
    let inner = Circle { radius: outer_radius - inner_thickness, height: 0 };
    let outer = Circle { radius: outer_radius, height: 0 };
    let ring: Vec<Circle> = vec![inner, outer];
    let gap: i64 = TAU - sweep;
    let positions = make_circles(&ring, resolution, gap);
    proof {
        assert(ring@ =~= seq![inner, outer]);
    }
    let ghost pmodel = rings_model(seq![inner, outer], resolution as int, gap as int);
    let normals = repeat_point(Vec3 { x: 0, y: 0, z: ONE }, positions.len());
    let indices: Vec<u32> = if resolution >= 1 {
        let pat: Vec<u32> = vec![0, resolution, resolution + 1, 0, resolution + 1, 1];
        pattern_indices(&pat, resolution - 1)
    } else {
        Vec::new()
    };
    let ghost resi = resolution as int;
    let ghost imodel = Seq::new((6 * (resi - 1)) as nat, |j: int| arc_idx(resi, j));
    proof {
        if resolution >= 1 {
            let pat_s: Seq<u32> = seq![
                0u32,
                resolution,
                (resolution + 1) as u32,
                0u32,
                (resolution + 1) as u32,
                1u32,
            ];
            let pm = pattern_model(pat_s, resi - 1);
            assert(indices@.len() == (resi - 1) * 6) by (nonlinear_arith)
                requires
                    indices@.len() == (resi - 1) * pat_s.len(),
                    pat_s.len() == 6,
            ;
            assert(pm.len() == imodel.len()) by (nonlinear_arith)
                requires
                    pm.len() == (resi - 1) * pat_s.len(),
                    pat_s.len() == 6,
                    imodel.len() == 6 * (resi - 1),
            ;
            assert forall|j: int| 0 <= j < imodel.len() implies pm[j] == #[trigger] imodel[j] by {
                let k = j % 6;
                vstd::arithmetic::div_mod::lemma_mod_division_less_than_divisor(j, 6);
                assert(k == 0 || k == 1 || k == 2 || k == 3 || k == 4 || k == 5);
                assert(pat_s.len() == 6);
            }
            assert(imodel =~= pm);
        }
    }
    let (sn, c) = sin_cos(initial_angle);
    let rot = crate::transform::AffineTransform::from_rotation_z_cos_sin(c, sn);
    let tf = crate::transform::AffineTransform::from_rotation_translation(rot, pivot);
    let base = MeshBuffer { positions, normals, indices, uv: None };
    proof {
        let ghost a0 = arc_start(initial_angle_radians as int, sweep_radians as int);
        assert(initial_angle as int == a0);
        assert(tf == arc_tf(v3t(pivot), a0));
        assert forall|t: int| 0 <= t < base.indices@.len() implies (#[trigger] base.indices@[t])
            < base.positions@.len() by {
            let g = t / 6;
            let k = t % 6;
            vstd::arithmetic::div_mod::lemma_mod_division_less_than_divisor(t, 6);
            vstd::arithmetic::div_mod::lemma_fundamental_div_mod(t, 6);
            assert(base.indices@[t] == imodel[t]);
            assert(g < resi - 1) by (nonlinear_arith)
                requires
                    t == 6 * g + k,
                    0 <= k < 6,
                    t < 6 * (resi - 1),
            ;
        }
        if resolution >= 1 {
            assert(base.indices@.len() % 3 == 0) by {
                assert(6 * (resi - 1) == 3 * (2 * (resi - 1)));
                vstd::arithmetic::div_mod::lemma_mod_multiples_basic(2 * (resi - 1), 3);
            }
        }
    }
    let ghost base0 = base;
    let r = base.transform_by(tf);
    proof {
        let ghost a0 = arc_start(initial_angle_radians as int, sweep_radians as int);
        lemma_transformed_model(
            base0,
            r,
            tf,
            pmodel,
            repeat_t3((0int, 0int, ONE as int), 2 * resi),
        );
    }
    r
}

/// A negative sweep and the matching shifted positive sweep generate
/// the same arc points: the placed position model is identical, ring
/// for ring and point for point.
pub proof fn lemma_arc_reversal(
    pivot: (int, int, int),
    outer_radius: i64,
    inner_thickness: i64,
    initial: i64,
    sweep: i64,
    vertices_per_degree: i64,
)
    requires
        sweep < 0,
        initial + sweep >= i64::MIN,
        -sweep <= i64::MAX,
    ensures
        arc_start(initial as int, sweep as int) == arc_start(
            (initial + sweep) as int,
            (-sweep) as int,
        ),
        arc_sweep(sweep as int) == arc_sweep((-sweep) as int),
        arc_resolution(sweep as int, vertices_per_degree as int) == arc_resolution(
            (-sweep) as int,
            vertices_per_degree as int,
        ),
        ({
            let inner = Circle { radius: (outer_radius - inner_thickness) as i64, height: 0i64 };
            let outer = Circle { radius: outer_radius, height: 0i64 };
            let res_a = arc_resolution(sweep as int, vertices_per_degree as int);
            let gap_a = TAU - arc_sweep(sweep as int);
            let res_b = arc_resolution((-sweep) as int, vertices_per_degree as int);
            let gap_b = TAU - arc_sweep((-sweep) as int);
            map_pts(
                arc_tf(pivot, arc_start(initial as int, sweep as int)),
                rings_model(seq![inner, outer], res_a, gap_a),
            ) == map_pts(
                arc_tf(pivot, arc_start((initial + sweep) as int, (-sweep) as int)),
                rings_model(seq![inner, outer], res_b, gap_b),
            )
        }),
{
}

/// The ring of a lat-long sphere at stack boundary `j` of `stacks`:
/// its radius swings with the sine of the pole angle and its height
/// with the negated cosine, so stack zero sits at the south pole and
/// stack `stacks` at the north pole.
pub open spec fn sphere_circle(radius: i64, stacks: int, j: int) -> Circle {
    let step = (PI as int) / stacks;
    let th = j * step;
    Circle {
        radius: s_mul(radius as int, s_sin(th)) as i64,
        height: (-s_mul(radius as int, s_cos(th))) as i64,
    }
}

/// One band of a lat-long sphere: the smooth wrap between stack rings
/// `i` and `i + 1`, ordered bottom first.
pub open spec fn sphere_band_positions(radius: i64, total: int, res: int, i: int) -> Seq<
    (int, int, int),
> {
    let pair = order_by_height(
        sphere_circle(radius, total, i),
        sphere_circle(radius, total, i + 1),
    );
    rings_model(seq![pair.0, pair.1], res, 0)
}

/// The positions of the first `j` bands of a lat-long sphere, in stack
/// order.
pub open spec fn sphere_positions(radius: i64, total: int, res: int, j: int) -> Seq<
    (int, int, int),
>
    decreases j,
{
    if j <= 0 {
        Seq::empty()
    } else {
        sphere_positions(radius, total, res, j - 1) + sphere_band_positions(
            radius,
            total,
            res,
            j - 1,
        )
    }
}

/// The normals of one band of a lat-long sphere: the smooth wrap's
/// analytic slant normals.
pub open spec fn sphere_band_normals(radius: i64, total: int, res: int, i: int) -> Seq<
    (int, int, int),
> {
    let pair = order_by_height(
        sphere_circle(radius, total, i),
        sphere_circle(radius, total, i + 1),
    );
    smooth_wrap_normals(pair.0, pair.1, res)
}

/// The normals of the first `j` bands of a lat-long sphere.
pub open spec fn sphere_normals(radius: i64, total: int, res: int, j: int) -> Seq<
    (int, int, int),
>
    decreases j,
{
    if j <= 0 {
        Seq::empty()
    } else {
        sphere_normals(radius, total, res, j - 1) + sphere_band_normals(radius, total, res, j - 1)
    }
}

/// The stack ring of a lat-long sphere, computed exactly.
fn sphere_circle_at(radius: i64, stacks: u32, j: u32) -> (c: Circle)
    requires
        0 < radius <= 0x1_0000_0000,
        1 <= stacks <= 64,
        j <= stacks,
    ensures
        c == sphere_circle(radius, stacks as int, j as int),
        circle_bounded(c, SPAN_MAX as int),
{
    let step: i64 = ((PI as u64) / (stacks as u64)) as i64;
    proof {
        assert(step == (PI as int) / (stacks as int));
        vstd::arithmetic::div_mod::lemma_div_pos_is_pos(PI as int, stacks as int);
        vstd::arithmetic::div_mod::lemma_div_nonincreasing(PI as int, stacks as int);
        assert(0 <= (j as int) * (step as int) <= 64 * 205887) by (nonlinear_arith)
            requires
                0 <= j <= 64,
                0 <= step <= 205887,
        ;
    }
    let theta: i64 = (j as i64) * step;
    let (sn, cs) = sin_cos(theta);
    proof {
        lemma_s_mul_unit_bound(radius as int, sn as int, 0x1_0000_0000);
        lemma_s_mul_unit_bound(radius as int, cs as int, 0x1_0000_0000);
    }
    Circle { radius: fp_mul(radius, sn), height: -fp_mul(radius, cs) }
}

/// A lat-long sphere centered at the origin: `stacks` smooth-wrap bands
/// between rings whose radii follow the sine of the pole angle, each
/// band of `resolution` azimuths, merged in stack order.
pub fn make_sphere(radius: i64, resolution: u32, stacks: u32) -> (r: MeshBuffer)
    requires
        0 < radius <= 0x1_0000_0000,
        1 <= resolution <= 65536,
        1 <= stacks <= 64,
    ensures
        buf_wf(r),
        buf_in_range(r),
        r.uv is None,
        r.positions@.len() == stacks * (2 * resolution),
        r.indices@.len() == stacks * (6 * (resolution - 1)),
        vecs_are(
            r.positions@,
            sphere_positions(radius, stacks as int, resolution as int, stacks as int),
        ),
        vecs_are(
            r.normals@,
            sphere_normals(radius, stacks as int, resolution as int, stacks as int),
        ),
{
    let ghost total = stacks as int;
    let ghost resi = resolution as int;
    let mut b = MeshBuffer::empty();
    proof {
        assert(b.positions@ =~= Seq::<Vec3>::empty());
        assert(sphere_positions(radius, total, resi, 0) =~= Seq::<(int, int, int)>::empty());
        assert(sphere_normals(radius, total, resi, 0) =~= Seq::<(int, int, int)>::empty());
    }
    let mut j: u32 = 0;
    while j < stacks
        invariant
            0 < radius <= 0x1_0000_0000,
            1 <= resolution <= 65536,
            1 <= stacks <= 64,
            total == stacks as int,
            resi == resolution as int,
            0 <= j <= stacks,
            buf_wf(b),
            buf_in_range(b),
            b.uv is None,
            b.positions@.len() == j * (2 * resi),
            b.indices@.len() == j * (6 * (resi - 1)),
            vecs_are(b.positions@, sphere_positions(radius, total, resi, j as int)),
            vecs_are(b.normals@, sphere_normals(radius, total, resi, j as int)),
        decreases stacks - j,
    {
        let c0 = sphere_circle_at(radius, stacks, j);
        let c1 = sphere_circle_at(radius, stacks, j + 1);
        let w = make_smooth_wrap([c0, c1], resolution);
        proof {
            assert((j as int) * (2 * resi) <= 64 * 131072) by (nonlinear_arith)
                requires
                    0 <= j <= 64,
                    1 <= resi <= 65536,
            ;
        }
        let ghost b0 = b;
        let merged = b.merge_with(w);
        b = merged;
        proof {
            lemma_vecs_are_concat(
                b0.positions@,
                w.positions@,
                sphere_positions(radius, total, resi, j as int),
                sphere_band_positions(radius, total, resi, j as int),
            );
            lemma_vecs_are_concat(
                b0.normals@,
                w.normals@,
                sphere_normals(radius, total, resi, j as int),
                sphere_band_normals(radius, total, resi, j as int),
            );
            assert((j as int) * (2 * resi) + 2 * resi == (j + 1) * (2 * resi))
                by (nonlinear_arith);
            assert((j as int) * (6 * (resi - 1)) + 6 * (resi - 1) == (j + 1) * (6 * (resi - 1)))
                by (nonlinear_arith);
        }
        j = j + 1;
    }
    b
}

/// An arrow indicator pointing along `+x`, as a renderable mesh: a
/// lat-long pivot sphere at the origin, merged with a cone head, a
/// cylindrical shaft and a neck wrap joining the shaft to the head's
/// base, the three of them proportioned from one radius and turned a
/// quarter turn about the y axis from their upright construction.
pub fn make_cylinder_arrow_mesh(r: i64) -> (m: crate::buffer::Mesh)
    requires
        0 < r <= 0x1_0000_0000,
    ensures
        m.topology == crate::buffer::Topology::TriangleList,
        crate::buffer::mesh_wf(m),
        m.uv is None,
        m.positions matches Some(p) && p@.len() == 704,
        m.indices matches Some(ix) && ix@.len() == 1956,
        ({
            let turn = crate::transform::spec_rot_y_quarter();
            let t = 8 * r as int;
            let l_head = s_mul(r as int, 163840);
            let head_base = Circle { radius: (2 * r) as i64, height: (t - l_head) as i64 };
            let cylinder_top = Circle { radius: r, height: (t - l_head) as i64 };
            let cylinder_bottom = Circle { radius: r, height: 0i64 };
            let tip = (0int, 0int, t);
            let shaft = order_by_height(cylinder_top, cylinder_bottom);
            let neck = order_by_height(head_base, cylinder_top);
            &&& (m.positions matches Some(p) && vecs_are(
                p@,
                sphere_positions(r, 8, 32, 8) + map_pts(turn, cone_positions(head_base, tip, 32))
                    + map_pts(turn, rings_model(seq![shaft.0, shaft.1], 32, 0)) + map_pts(
                    turn,
                    rings_model(seq![neck.0, neck.1], 32, 0),
                ),
            ))
            &&& (m.normals matches Some(n) && vecs_are(
                n@,
                sphere_normals(r, 8, 32, 8) + map_dirs(turn, cone_normals(head_base, tip, 32))
                    + map_dirs(turn, smooth_wrap_normals(shaft.0, shaft.1, 32)) + map_dirs(
                    turn,
                    smooth_wrap_normals(neck.0, neck.1, 32),
                ),
            ))
        }),
{
    let t: i64 = 8 * r;
    proof {
        crate::fx::lemma_s_mul_nonneg(r as int, 163840);
        crate::fx::lemma_s_mul_bound(r as int, 163840, 0x1_0000_0000, 163840);
    }
    let l_head: i64 = fp_mul(r, 163840);
    let head_base = Circle { radius: 2 * r, height: t - l_head };
    let cylinder_top = Circle { radius: r, height: t - l_head };
    let cylinder_bottom = Circle { radius: r, height: 0 };
    let tip = Vec3 { x: 0, y: 0, z: t };
    let turn = crate::transform::AffineTransform::rotation_y_quarter_turn();
    let ghost turn_s = crate::transform::spec_rot_y_quarter();

    let head = make_cone(head_base, tip, 32);
    let ghost head0 = head;
    let head_t = head.transform_by(turn);
    proof {
        lemma_transformed_model(
            head0,
            head_t,
            turn,
            cone_positions(head_base, v3t(tip), 32),
            cone_normals(head_base, v3t(tip), 32),
        );
    }
    let shaft = make_smooth_wrap([cylinder_top, cylinder_bottom], 32);
    let ghost shaft_pair = order_by_height(cylinder_top, cylinder_bottom);
    let ghost shaft0 = shaft;
    let shaft_t = shaft.transform_by(turn);
    proof {
        lemma_transformed_model(
            shaft0,
            shaft_t,
            turn,
            rings_model(seq![shaft_pair.0, shaft_pair.1], 32, 0),
            smooth_wrap_normals(shaft_pair.0, shaft_pair.1, 32),
        );
    }
    let neck = make_smooth_wrap([head_base, cylinder_top], 32);
    let ghost neck_pair = order_by_height(head_base, cylinder_top);
    let ghost neck0 = neck;
    let neck_t = neck.transform_by(turn);
    proof {
        lemma_transformed_model(
            neck0,
            neck_t,
            turn,
            rings_model(seq![neck_pair.0, neck_pair.1], 32, 0),
            smooth_wrap_normals(neck_pair.0, neck_pair.1, 32),
        );
    }
    let pivot = make_sphere(r, 32, 8);
    let ghost pivot0 = pivot;
    let with_head = pivot.merge_with(head_t);
    proof {
        lemma_vecs_are_concat(
            pivot0.positions@,
            head_t.positions@,
            sphere_positions(r, 8, 32, 8),
            map_pts(turn_s, cone_positions(head_base, v3t(tip), 32)),
        );
        lemma_vecs_are_concat(
            pivot0.normals@,
            head_t.normals@,
            sphere_normals(r, 8, 32, 8),
            map_dirs(turn_s, cone_normals(head_base, v3t(tip), 32)),
        );
    }
    let ghost with_head0 = with_head;
    let with_shaft = with_head.merge_with(shaft_t);
    proof {
        lemma_vecs_are_concat(
            with_head0.positions@,
            shaft_t.positions@,
            sphere_positions(r, 8, 32, 8) + map_pts(
                turn_s,
                cone_positions(head_base, v3t(tip), 32),
            ),
            map_pts(turn_s, rings_model(seq![shaft_pair.0, shaft_pair.1], 32, 0)),
        );
        lemma_vecs_are_concat(
            with_head0.normals@,
            shaft_t.normals@,
            sphere_normals(r, 8, 32, 8) + map_dirs(
                turn_s,
                cone_normals(head_base, v3t(tip), 32),
            ),
            map_dirs(turn_s, smooth_wrap_normals(shaft_pair.0, shaft_pair.1, 32)),
        );
    }
    let ghost with_shaft0 = with_shaft;
    let whole = with_shaft.merge_with(neck_t);
    proof {
        lemma_vecs_are_concat(
            with_shaft0.positions@,
            neck_t.positions@,
            sphere_positions(r, 8, 32, 8) + map_pts(
                turn_s,
                cone_positions(head_base, v3t(tip), 32),
            ) + map_pts(turn_s, rings_model(seq![shaft_pair.0, shaft_pair.1], 32, 0)),
            map_pts(turn_s, rings_model(seq![neck_pair.0, neck_pair.1], 32, 0)),
        );
        lemma_vecs_are_concat(
            with_shaft0.normals@,
            neck_t.normals@,
            sphere_normals(r, 8, 32, 8) + map_dirs(
                turn_s,
                cone_normals(head_base, v3t(tip), 32),
            ) + map_dirs(turn_s, smooth_wrap_normals(shaft_pair.0, shaft_pair.1, 32)),
            map_dirs(turn_s, smooth_wrap_normals(neck_pair.0, neck_pair.1, 32)),
        );
    }
    whole.into_mesh()
}

} // verus!






