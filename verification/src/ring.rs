//! Ring sampling: points on horizontal circles at given axial heights.
//!
//! For each circle and a point count `n`, points are spaced by the fixed
//! angle `(TAU - gap) / (n - 1)` starting at angle zero, so a zero gap
//! closes the ring (first and last point coincide) and a positive gap
//! leaves an open arc. Circles concatenate ring by ring, in order.

use vstd::prelude::*;
use crate::fx::{TAU, SPAN_MAX, s_abs, s_mul, fp_mul, lemma_s_mul_unit_bound};
use crate::trig::{s_sin, s_cos, sin_cos};
use crate::vec3::{Vec3, v3t, t3_bounded, vecs_are};

verus! {

/// A horizontal ring: a radius at an axial height. A parameter record,
/// not a rendered entity.
#[derive(Clone, Copy, PartialEq, Eq, Structural, Debug)]
pub struct Circle {
    pub radius: i64,
    pub height: i64,
}

/// Radius and height within `m` in magnitude.
pub open spec fn circle_bounded(c: Circle, m: int) -> bool {
    s_abs(c.radius as int) <= m && s_abs(c.height as int) <= m
}

impl Circle {
    /// A ring at the given radius and height.
    pub fn new(radius: i64, height: i64) -> (r: Circle)
        ensures
            r == (Circle { radius, height }),
    {
        Circle { radius, height }
    }

    /// The same ring mirrored through the ground plane.
    pub fn flip_height(self) -> (r: Circle)
        requires
            self.height > i64::MIN,
        ensures
            r.radius == self.radius,
            r.height == -self.height,
    {
        Circle { radius: self.radius, height: -self.height }
    }
}

/// The angular step between consecutive ring points: the swept span
/// divided evenly among `res - 1` steps; zero when fewer than two points.
pub open spec fn ring_step(res: int, gap: int) -> int {
    if res >= 2 {
        (TAU - gap) / (res - 1)
    } else {
        0
    }
}

/// The angle of the `i`th point of a ring.
pub open spec fn ring_angle(i: int, res: int, gap: int) -> int {
    i * ring_step(res, gap)
}

/// The `i`th point of a ring: the circle's radius swung to that angle, at
/// the circle's height.
pub open spec fn ring_pt(c: Circle, i: int, res: int, gap: int) -> (int, int, int) {
    (
        s_mul(c.radius as int, s_cos(ring_angle(i, res, gap))),
        s_mul(c.radius as int, s_sin(ring_angle(i, res, gap))),
        c.height as int,
    )
}

/// All rings concatenated in order: `res` points for each circle.
pub open spec fn rings_model(cs: Seq<Circle>, res: int, gap: int) -> Seq<(int, int, int)> {
    Seq::new((cs.len() * res) as nat, |j: int| ring_pt(cs[j / res], j % res, res, gap))
}

/// Ring points stay within the bound of their circles' parameters.
pub proof fn lemma_rings_bounded(cs: Seq<Circle>, res: int, gap: int, m: int)
    requires
        forall|k: int| 0 <= k < cs.len() ==> circle_bounded(#[trigger] cs[k], m),
        m >= 0,
        res >= 1,
    ensures
        forall|j: int|
            0 <= j < rings_model(cs, res, gap).len() ==> t3_bounded(
                #[trigger] rings_model(cs, res, gap)[j],
                m,
            ),
{
    assert forall|j: int| 0 <= j < rings_model(cs, res, gap).len() implies t3_bounded(
        #[trigger] rings_model(cs, res, gap)[j],
        m,
    ) by {
        let k = j / res;
        let i = j % res;
        vstd::arithmetic::div_mod::lemma_fundamental_div_mod(j, res);
        vstd::arithmetic::div_mod::lemma_mod_division_less_than_divisor(j, res);
        assert(0 <= k < cs.len()) by (nonlinear_arith)
            requires
                j == res * k + i,
                0 <= i < res,
                0 <= j < cs.len() * res,
                res > 0,
        ;
        let th = ring_angle(i, res, gap);
        crate::trig::lemma_sin_cos_range(th);
        crate::fx::lemma_s_mul_unit_bound(cs[k].radius as int, crate::trig::s_cos(th), m);
        crate::fx::lemma_s_mul_unit_bound(cs[k].radius as int, crate::trig::s_sin(th), m);
    }
}

/// Sample every given circle with `resolution` points each, sweeping a
/// full turn less `gap`.
///
/// Degenerate counts do not fail: zero points yields an empty ring, one
/// point a single point at angle zero.
pub fn make_circles(circles: &Vec<Circle>, resolution: u32, gap: i64) -> (out: Vec<Vec3>)
    requires
        forall|k: int|
            0 <= k < circles@.len() ==> circle_bounded(#[trigger] circles@[k], SPAN_MAX as int),
        0 <= gap <= TAU,
        resolution <= 65536,
        circles@.len() <= 1024,
    ensures
        out@.len() == circles@.len() * resolution,
        vecs_are(out@, rings_model(circles@, resolution as int, gap as int)),
        forall|j: int| 0 <= j < out@.len() ==> t3_bounded(v3t(#[trigger] out@[j]), SPAN_MAX as int),
{
    let ghost res_i = resolution as int;
    let ghost gap_i = gap as int;
    let step: i64 = if resolution >= 2 {
        (((TAU - gap) as u64) / ((resolution - 1) as u64)) as i64
    } else {
        0
    };
    proof {
        assert(step == ring_step(res_i, gap_i));
        assert(0 <= step <= TAU) by {
            if resolution >= 2 {
                vstd::arithmetic::div_mod::lemma_div_pos_is_pos(TAU - gap_i, res_i - 1);
                vstd::arithmetic::div_mod::lemma_div_nonincreasing(TAU - gap_i, res_i - 1);
            }
        }
    }
    let ghost model = rings_model(circles@, res_i, gap_i);
    let mut out: Vec<Vec3> = Vec::new();
    let mut k: usize = 0;
    while k < circles.len()
        invariant
            forall|t: int|
                0 <= t < circles@.len() ==> circle_bounded(#[trigger] circles@[t], SPAN_MAX as int),
            0 <= gap <= TAU,
            resolution <= 65536,
            circles@.len() <= 1024,
            0 <= k <= circles@.len(),
            step == ring_step(res_i, gap_i),
            0 <= step <= TAU,
            res_i == resolution as int,
            gap_i == gap as int,
            model == rings_model(circles@, res_i, gap_i),
            out@.len() == k * resolution,
            forall|j: int| 0 <= j < out@.len() ==> v3t(#[trigger] out@[j]) == model[j],
            forall|j: int|
                0 <= j < out@.len() ==> t3_bounded(v3t(#[trigger] out@[j]), SPAN_MAX as int),
        decreases circles@.len() - k,
    {
        let c = circles[k];
        let mut i: u32 = 0;
        proof {
            assert(k * resolution <= 1024 * 65536) by (nonlinear_arith)
                requires
                    0 <= k <= 1024,
                    0 <= resolution <= 65536,
            ;
        }
        while i < resolution
            invariant
                forall|t: int|
                    0 <= t < circles@.len() ==> circle_bounded(
                        #[trigger] circles@[t],
                        SPAN_MAX as int,
                    ),
                0 <= gap <= TAU,
                resolution <= 65536,
                circles@.len() <= 1024,
                0 <= k < circles@.len(),
                0 <= i <= resolution,
                step == ring_step(res_i, gap_i),
                0 <= step <= TAU,
                res_i == resolution as int,
                gap_i == gap as int,
                model == rings_model(circles@, res_i, gap_i),
                c == circles@[k as int],
                out@.len() == k * resolution + i,
                forall|j: int| 0 <= j < out@.len() ==> v3t(#[trigger] out@[j]) == model[j],
                forall|j: int|
                    0 <= j < out@.len() ==> t3_bounded(v3t(#[trigger] out@[j]), SPAN_MAX as int),
            decreases resolution - i,
        {
            proof {
                assert(0 <= (i as int) * (step as int) <= 65536 * 411775) by (nonlinear_arith)
                    requires
                        0 <= i <= 65536,
                        0 <= step <= 411775,
                ;
            }
            let theta: i64 = (i as i64) * step;
            let (s, cth) = sin_cos(theta);
            proof {
                lemma_s_mul_unit_bound(c.radius as int, cth as int, SPAN_MAX as int);
                lemma_s_mul_unit_bound(c.radius as int, s as int, SPAN_MAX as int);
            }
            let p = Vec3 { x: fp_mul(c.radius, cth), y: fp_mul(c.radius, s), z: c.height };
            proof {
                let j0 = k * res_i + i;
                assert(j0 / res_i == k as int && j0 % res_i == i as int) by {
                    vstd::arithmetic::div_mod::lemma_fundamental_div_mod_converse(
                        j0,
                        res_i,
                        k as int,
                        i as int,
                    );
                }
                assert(0 <= j0 < model.len()) by (nonlinear_arith)
                    requires
                        0 <= k < circles@.len(),
                        0 <= i < res_i,
                        model.len() == circles@.len() * res_i,
                        j0 == k * res_i + i,
                ;
                assert(theta as int == ring_angle(i as int, res_i, gap_i));
                assert(v3t(p) == model[j0]);
            }
            out.push(p);
            i = i + 1;
        }
        k = k + 1;
        proof {
            assert((k - 1) * resolution + resolution == k * resolution) by (nonlinear_arith);
        }
    }
    proof {
        assert(out@.len() == circles@.len() * resolution);
    }
    out
}

} // verus!
