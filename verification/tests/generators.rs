//! Generator output: structure, counts, normals and landmark points.

use crabmesh::buffer::MeshBuffer;
use crabmesh::fx::{ONE, TAU};
use crabmesh::ring::{make_circles, Circle};
use crabmesh::shapes::{
    flat_arc, flat_arrow_mesh, flat_arrow_mesh_between, line_stroke_away_from, line_stroke_mesh,
    make_bottom_circle, make_box, make_boxy_wrap, make_cone, make_cylinder,
    make_cylinder_arrow_mesh, make_diamond, make_flat_disk, make_flat_mesh_for_aabb,
    make_flat_rect_mesh, make_flat_square_mesh, make_pyramid, make_smooth_wrap, make_sphere,
    make_top_circle, make_wall_mesh, Aabb,
};
use crabmesh::vec3::Vec3;

fn f(v: i64) -> f64 {
    v as f64 / ONE as f64
}

fn v(x: i64, y: i64, z: i64) -> Vec3 {
    Vec3 { x, y, z }
}

/// Parallel attribute lengths, whole triangles, and indices in range.
fn check_structure(b: &MeshBuffer) {
    assert_eq!(b.normals.len(), b.positions.len());
    if let Some(uv) = &b.uv {
        assert_eq!(uv.len(), b.positions.len());
    }
    assert_eq!(b.indices.len() % 3, 0);
    for &i in &b.indices {
        assert!((i as usize) < b.positions.len());
    }
}

/// Every stored normal, seam and duplicated vertices included, has
/// unit length within tolerance.
fn check_all_normals_unit(b: &MeshBuffer) {
    for (i, n) in b.normals.iter().enumerate() {
        let len = (f(n.x).powi(2) + f(n.y).powi(2) + f(n.z).powi(2)).sqrt();
        assert!((len - 1.0).abs() < 2e-3, "normal {} has length {}", i, len);
    }
}

#[test]
fn every_generator_is_structurally_sound() {
    let c = Circle { radius: 2 * ONE, height: ONE };
    let c2 = Circle { radius: ONE, height: 3 * ONE };
    let shapes = vec![
        make_boxy_wrap([c, c2], 8),
        make_smooth_wrap([c, c2], 8),
        make_pyramid(c, v(0, 0, 4 * ONE), 6),
        make_cone(c, v(0, 0, 4 * ONE), 6),
        make_box(2 * ONE, 3 * ONE, ONE),
        make_wall_mesh(v(0, 0, 0), v(4 * ONE, 0, 0), ONE / 4, 2 * ONE, None, None),
        make_top_circle(c, 8),
        make_bottom_circle(c, 8),
        make_flat_disk(c, 8),
        make_cylinder(2 * ONE, ONE),
        flat_arrow_mesh(ONE, ONE / 5, ONE / 3, 2 * ONE / 5),
        flat_arrow_mesh_between(v(0, 0, 0), v(3 * ONE, ONE, 0), ONE / 5, ONE / 3, ONE / 2),
        flat_arc(v(0, 0, 0), 2 * ONE, ONE / 2, 0, TAU / 4, 6 * ONE),
        line_stroke_mesh(v(0, 0, 0), v(ONE, ONE, 0), ONE / 10),
        line_stroke_away_from(v(0, 0, 0), TAU / 8, ONE, ONE / 10),
        make_diamond(ONE, ONE / 2),
        make_flat_square_mesh(2 * ONE),
        make_flat_rect_mesh(2 * ONE, ONE),
        make_flat_mesh_for_aabb(Aabb { center: v(ONE, ONE, 0), half_extents: v(ONE, ONE, ONE) }),
    ];
    for b in &shapes {
        check_structure(b);
    }
}

#[test]
fn every_normal_has_unit_length() {
    let c = Circle { radius: 2 * ONE, height: ONE };
    let c2 = Circle { radius: ONE, height: 3 * ONE };
    let shapes = vec![
        make_boxy_wrap([c, c2], 8),
        make_smooth_wrap([c, c2], 8),
        make_pyramid(c, v(0, 0, 4 * ONE), 6),
        make_pyramid(c, v(0, 0, -4 * ONE), 6),
        make_cone(c, v(0, 0, 4 * ONE), 6),
        make_box(2 * ONE, 3 * ONE, ONE),
        make_top_circle(c, 8),
        make_bottom_circle(c, 8),
        make_cylinder(2 * ONE, ONE),
        make_diamond(ONE, ONE / 2),
        make_sphere(ONE, 16, 8),
    ];
    for b in &shapes {
        check_all_normals_unit(b);
    }
}

#[test]
fn box_of_two_units_has_six_axis_normals() {
    let b = make_box(2 * ONE, 2 * ONE, 2 * ONE);
    assert_eq!(b.positions.len(), 24);
    assert_eq!(b.indices.len(), 36);
    let mut distinct: Vec<Vec3> = Vec::new();
    for n in &b.normals {
        if !distinct.contains(n) {
            distinct.push(*n);
        }
    }
    assert_eq!(distinct.len(), 6);
    for axis in [
        v(ONE, 0, 0),
        v(-ONE, 0, 0),
        v(0, ONE, 0),
        v(0, -ONE, 0),
        v(0, 0, ONE),
        v(0, 0, -ONE),
    ] {
        assert!(distinct.contains(&axis));
    }
    // corners sit one unit from the center along each axis
    for p in &b.positions {
        assert_eq!(p.x.abs(), ONE);
        assert_eq!(p.y.abs(), ONE);
        assert_eq!(p.z.abs(), ONE);
    }
}

#[test]
fn cylinder_spans_half_its_height_and_its_radius() {
    let b = make_cylinder(2 * ONE, ONE);
    check_structure(&b);
    let max_abs_z = b.positions.iter().map(|p| p.z.abs()).max().unwrap();
    assert_eq!(max_abs_z, ONE);
    let max_radial = b
        .positions
        .iter()
        .map(|p| (f(p.x).powi(2) + f(p.y).powi(2)).sqrt())
        .fold(0.0f64, f64::max);
    assert!((max_radial - 1.0).abs() < 1e-3);
    assert_eq!(b.indices.len() % 3, 0);
}

#[test]
fn flat_arrow_counts_and_tip() {
    // handle length 1, handle width 0.2, tip length 0.3, tip width 0.4
    let hw = ONE / 5;
    let tl = 3 * ONE / 10;
    let tw = 2 * ONE / 5;
    let b = flat_arrow_mesh(ONE, hw, tl, tw);
    assert_eq!(b.positions.len(), 7);
    assert_eq!(b.indices.len(), 9);
    let tip = b.positions[6];
    assert_eq!(tip.x, ONE + tl);
    assert!((f(tip.x) - 1.3).abs() < 1e-4);
    assert_eq!(tip.y, 0);
    assert_eq!(tip.z, 0);
}

#[test]
fn ring_sampler_starts_on_the_x_axis_with_even_steps() {
    let r = 2 * ONE;
    let h = ONE;
    let n: u32 = 8;
    let pts = make_circles(&vec![Circle { radius: r, height: h }], n, 0);
    assert_eq!(pts.len(), 8);
    assert_eq!(pts[0], v(r, 0, h));
    let mut prev = 0.0f64;
    for (i, p) in pts.iter().enumerate().skip(1) {
        let ang = f(p.y).atan2(f(p.x));
        let ang = if ang < -1e-9 { ang + std::f64::consts::TAU } else { ang };
        let step = ang - prev;
        let expect = std::f64::consts::TAU / (n as f64 - 1.0);
        if i < 7 {
            assert!((step - expect).abs() < 1e-3, "step {} was {}", i, step);
        }
        prev = ang;
    }
    // the closing point returns to the start
    assert!((f(pts[7].y)).abs() < 1e-3);
}

#[test]
fn ring_sampler_degenerate_counts_do_not_fail() {
    let c = Circle { radius: ONE, height: 0 };
    assert_eq!(make_circles(&vec![c], 0, 0).len(), 0);
    let single = make_circles(&vec![c], 1, 0);
    assert_eq!(single.len(), 1);
    assert_eq!(single[0], v(ONE, 0, 0));
}

#[test]
fn arc_with_negative_sweep_matches_shifted_positive_sweep() {
    let pivot = v(ONE, 0, 0);
    let outer = 2 * ONE;
    let thick = ONE / 2;
    let a0 = TAU / 8;
    let sweep = TAU / 4;
    let density = 6 * ONE;
    let negative = flat_arc(pivot, outer, thick, a0, -sweep, density);
    let positive = flat_arc(pivot, outer, thick, a0 - sweep, sweep, density);
    assert_eq!(negative.positions, positive.positions);
    assert_eq!(negative.indices, positive.indices);
    check_structure(&negative);
    assert!(negative.positions.len() > 0);
}

#[test]
fn arc_with_zero_sweep_is_empty_but_valid() {
    let b = flat_arc(v(0, 0, 0), 2 * ONE, ONE / 2, 0, 0, 6 * ONE);
    assert_eq!(b.positions.len(), 0);
    assert_eq!(b.indices.len(), 0);
    check_structure(&b);
}

#[test]
fn caps_share_rim_counts_and_disk_doubles_them() {
    let c = Circle { radius: ONE, height: ONE / 2 };
    let top = make_top_circle(c, 16);
    let bottom = make_bottom_circle(c, 16);
    assert_eq!(top.positions.len(), 17);
    assert_eq!(top.indices.len(), 48);
    assert_eq!(bottom.positions.len(), 17);
    assert_eq!(bottom.indices.len(), 48);
    assert_eq!(top.normals[0], v(0, 0, ONE));
    assert_eq!(bottom.normals[0], v(0, 0, -ONE));
    let disk = make_flat_disk(c, 16);
    assert_eq!(disk.positions.len(), 34);
    assert_eq!(disk.indices.len(), 96);
    // the closing rim vertex is kept: first and last rim points coincide
    assert_eq!(top.positions[0], v(ONE, 0, ONE / 2));
    assert!((f(top.positions[15].y)).abs() < 1e-3);
}

#[test]
fn degenerate_cap_resolutions_yield_empty_buffers() {
    let c = Circle { radius: ONE, height: 0 };
    assert_eq!(make_top_circle(c, 0).positions.len(), 0);
    assert_eq!(make_top_circle(c, 1).positions.len(), 0);
    assert_eq!(make_bottom_circle(c, 1).positions.len(), 0);
    assert_eq!(make_smooth_wrap([c, c], 0).positions.len(), 0);
    assert_eq!(make_cone(c, v(0, 0, ONE), 0).positions.len(), 0);
}

#[test]
fn wrap_counts_follow_resolution() {
    let a = Circle { radius: ONE, height: 0 };
    let b = Circle { radius: 2 * ONE, height: ONE };
    let smooth = make_smooth_wrap([b, a], 8);
    assert_eq!(smooth.positions.len(), 16);
    assert_eq!(smooth.indices.len(), 42);
    let boxy = make_boxy_wrap([b, a], 8);
    assert_eq!(boxy.positions.len(), 36);
    assert_eq!(boxy.indices.len(), 48);
    // order does not matter: the lower circle is always the bottom ring
    let flipped = make_smooth_wrap([a, b], 8);
    assert_eq!(flipped.positions, smooth.positions);
}

#[test]
fn smooth_wrap_of_a_cylinder_has_radial_normals() {
    let a = Circle { radius: ONE, height: 0 };
    let b = Circle { radius: ONE, height: ONE };
    let wrap = make_smooth_wrap([a, b], 8);
    for n in &wrap.normals {
        assert_eq!(n.z, 0);
        let len = (f(n.x).powi(2) + f(n.y).powi(2)).sqrt();
        assert!((len - 1.0).abs() < 2e-3);
    }
    assert_eq!(wrap.normals[0], v(ONE, 0, 0));
}

#[test]
fn pyramid_and_cone_counts() {
    let c = Circle { radius: ONE, height: 0 };
    let p = make_pyramid(c, v(0, 0, ONE), 4);
    assert_eq!(p.positions.len(), 14);
    assert_eq!(p.indices.len(), 12);
    let k = make_cone(c, v(0, 0, ONE), 8);
    assert_eq!(k.positions.len(), 16);
    assert_eq!(k.indices.len(), 24);
}

#[test]
fn diamond_mirrors_a_pyramid() {
    let d = make_diamond(ONE, ONE / 2);
    assert_eq!(d.positions.len(), 28);
    assert_eq!(d.indices.len(), 24);
    // mirrored halves: for every peak at +1 there is one at -1
    let up = d.positions.iter().filter(|p| p.z == ONE).count();
    let down = d.positions.iter().filter(|p| p.z == -ONE).count();
    assert_eq!(up, 4);
    assert_eq!(down, 4);
}

#[test]
fn arrow_mesh_counts() {
    let m = make_cylinder_arrow_mesh(ONE / 10);
    let positions = m.positions.unwrap();
    let indices = m.indices.unwrap();
    assert_eq!(positions.len(), 704);
    assert_eq!(indices.len(), 1956);
    assert_eq!(indices.len() % 3, 0);
    for &i in &indices {
        assert!((i as usize) < positions.len());
    }
    // the arrow points along +x after its quarter turn
    let max_x = positions.iter().map(|p| p.x).max().unwrap();
    assert!((f(max_x) - 0.8).abs() < 1e-3);
    // the pivot sphere wraps the origin: positions reach the stroke
    // radius behind the arrow's base plane
    let min_x = positions.iter().map(|p| p.x).min().unwrap();
    assert!((f(min_x) + 0.1).abs() < 2e-3);
}

#[test]
fn sphere_counts_and_extents() {
    let s = make_sphere(ONE, 16, 8);
    check_structure(&s);
    assert_eq!(s.positions.len(), 8 * 32);
    assert_eq!(s.indices.len(), 8 * 90);
    let max_z = s.positions.iter().map(|p| p.z).max().unwrap();
    let min_z = s.positions.iter().map(|p| p.z).min().unwrap();
    assert!((f(max_z) - 1.0).abs() < 2e-3);
    assert!((f(min_z) + 1.0).abs() < 2e-3);
    // every point lies on the sphere within tolerance
    for p in &s.positions {
        let d = (f(p.x).powi(2) + f(p.y).powi(2) + f(p.z).powi(2)).sqrt();
        assert!((d - 1.0).abs() < 2e-3);
    }
}

#[test]
fn zero_height_wall_is_degenerate_but_valid() {
    let wall = make_wall_mesh(v(0, 0, 0), v(2 * ONE, 0, 0), ONE / 4, 0, None, None);
    check_structure(&wall);
    assert_eq!(wall.positions.len(), 24);
    for p in &wall.positions {
        assert_eq!(p.z, 0);
    }
    let uv = wall.uv.as_ref().unwrap();
    for t in uv {
        assert_eq!(t.v, 0);
    }
}

#[test]
fn wall_scales_texture_by_length_and_height() {
    let wall = make_wall_mesh(
        v(0, 0, 0),
        v(2 * ONE, 0, 0),
        ONE / 4,
        2 * ONE,
        Some(ONE),
        Some(ONE),
    );
    check_structure(&wall);
    assert_eq!(wall.positions.len(), 24);
    let uv = wall.uv.as_ref().unwrap();
    // right face carries (length, height) at its first corner
    assert_eq!(uv[8].u, 2 * ONE);
    assert_eq!(uv[8].v, 2 * ONE);
    // the wall is centered between the endpoints at half height
    let max_z = wall.positions.iter().map(|p| p.z).max().unwrap();
    let min_z = wall.positions.iter().map(|p| p.z).min().unwrap();
    assert_eq!(max_z, 2 * ONE);
    assert_eq!(min_z, 0);
}

#[test]
fn line_stroke_spans_its_segment() {
    let b = line_stroke_mesh(v(0, 0, 0), v(ONE, 0, 0), ONE / 10);
    assert_eq!(b.positions.len(), 4);
    assert_eq!(b.indices, vec![0, 1, 2, 0, 2, 3]);
    assert_eq!(b.positions[0], v(0, -ONE / 20, 0));
    assert_eq!(b.positions[2], v(ONE, ONE / 20, 0));
}

#[test]
fn arrow_between_caps_tip_at_segment_length() {
    let b = flat_arrow_mesh_between(v(0, 0, 0), v(ONE, 0, 0), ONE / 5, 2 * ONE, 2 * ONE / 5);
    assert_eq!(b.positions.len(), 7);
    // the whole arrow is tip: the shaft has zero length and the tip ends at the stop point
    assert_eq!(b.positions[6], v(ONE, 0, 0));
    assert_eq!(b.positions[0].x, 0);
}

#[test]
fn flat_rect_is_double_sided_with_unit_uv() {
    let b = make_flat_rect_mesh(2 * ONE, ONE);
    assert_eq!(b.positions.len(), 8);
    assert_eq!(b.indices.len(), 12);
    assert_eq!(b.positions[0], b.positions[4]);
    assert_eq!(b.normals[0], v(0, 0, ONE));
    assert_eq!(b.normals[4], v(0, 0, -ONE));
    let uv = b.uv.as_ref().unwrap();
    assert_eq!(uv[1].u, ONE);
    assert_eq!(uv[1].v, ONE);
}
