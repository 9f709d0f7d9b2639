//! Buffer construction, transform and merge behavior.

use crabmesh::buffer::{Mesh, MeshBuffer, MeshError, Topology};
use crabmesh::fx::ONE;
use crabmesh::transform::AffineTransform;
use crabmesh::vec3::{UV2, Vec3};

fn v(x: i64, y: i64, z: i64) -> Vec3 {
    Vec3 { x, y, z }
}

fn sample_buffer() -> MeshBuffer {
    MeshBuffer::new(
        vec![v(0, 0, 0), v(ONE, 0, 0), v(0, ONE, 0)],
        vec![v(0, 0, ONE), v(0, 0, ONE), v(0, 0, ONE)],
        vec![0, 1, 2],
    )
    .unwrap()
}

#[test]
fn new_rejects_mismatched_normals() {
    let r = MeshBuffer::new(vec![v(0, 0, 0)], vec![], vec![]);
    assert!(matches!(r, Err(MeshError::NormalCountMismatch)));
}

#[test]
fn new_accepts_parallel_attributes() {
    let b = sample_buffer();
    assert_eq!(b.positions.len(), 3);
    assert_eq!(b.normals.len(), 3);
    assert_eq!(b.indices, vec![0, 1, 2]);
    assert!(b.uv.is_none());
}

#[test]
fn with_uv_rejects_mismatched_count() {
    let b = sample_buffer();
    let r = b.with_uv(vec![UV2 { u: 0, v: 0 }]);
    assert!(matches!(r, Err(MeshError::UvCountMismatch)));
}

#[test]
fn with_uv_accepts_parallel_count() {
    let b = sample_buffer();
    let uv = vec![UV2 { u: 0, v: 0 }, UV2 { u: ONE, v: 0 }, UV2 { u: 0, v: ONE }];
    let r = b.with_uv(uv).unwrap();
    assert_eq!(r.uv.unwrap().len(), 3);
}

#[test]
fn transform_by_identity_changes_nothing() {
    let b = sample_buffer();
    let before_p = b.positions.clone();
    let before_n = b.normals.clone();
    let t = b.transform_by(AffineTransform::identity());
    assert_eq!(t.positions, before_p);
    assert_eq!(t.normals, before_n);
    assert_eq!(t.indices, vec![0, 1, 2]);
}

#[test]
fn transform_by_translation_shifts_positions_only() {
    let b = sample_buffer();
    let before_n = b.normals.clone();
    let shift = v(5 * ONE, -3 * ONE, ONE / 2);
    let t = b.transform_by(AffineTransform::from_translation(shift));
    assert_eq!(t.positions[0], v(5 * ONE, -3 * ONE, ONE / 2));
    assert_eq!(t.positions[1], v(6 * ONE, -3 * ONE, ONE / 2));
    assert_eq!(t.positions[2], v(5 * ONE, -2 * ONE, ONE / 2));
    assert_eq!(t.normals, before_n);
}

#[test]
fn merge_with_offsets_second_buffer_indices() {
    let a = sample_buffer();
    let b = sample_buffer();
    let m = a.merge_with(b);
    assert_eq!(m.positions.len(), 6);
    assert_eq!(m.normals.len(), 6);
    assert_eq!(m.indices, vec![0, 1, 2, 3, 4, 5]);
    assert!(m.uv.is_none());
}

#[test]
fn merge_with_keeps_uv_only_when_both_have_it() {
    let uv3 = || vec![UV2 { u: 0, v: 0 }, UV2 { u: ONE, v: 0 }, UV2 { u: 0, v: ONE }];
    let both = sample_buffer().with_uv(uv3()).unwrap().merge_with(
        sample_buffer().with_uv(uv3()).unwrap(),
    );
    assert_eq!(both.uv.unwrap().len(), 6);
    let left_only = sample_buffer().with_uv(uv3()).unwrap().merge_with(sample_buffer());
    assert!(left_only.uv.is_none());
    let right_only = sample_buffer().merge_with(sample_buffer().with_uv(uv3()).unwrap());
    assert!(right_only.uv.is_none());
}

#[test]
fn into_mesh_owns_triangle_list() {
    let m = sample_buffer().into_mesh();
    assert!(matches!(m.topology, Topology::TriangleList));
    assert_eq!(m.positions.unwrap().len(), 3);
    assert_eq!(m.normals.unwrap().len(), 3);
    assert_eq!(m.indices.unwrap(), vec![0, 1, 2]);
    assert!(m.uv.is_none());
}

#[test]
fn merge_into_empty_mesh_inserts_attributes() {
    let mut m = Mesh::new_triangle_list();
    sample_buffer().merge_into(&mut m).unwrap();
    assert_eq!(m.positions.as_ref().unwrap().len(), 3);
    assert_eq!(m.indices.as_ref().unwrap(), &vec![0, 1, 2]);
}

#[test]
fn merge_into_grown_mesh_offsets_indices() {
    let mut m = sample_buffer().into_mesh();
    sample_buffer().merge_into(&mut m).unwrap();
    assert_eq!(m.positions.as_ref().unwrap().len(), 6);
    assert_eq!(m.normals.as_ref().unwrap().len(), 6);
    assert_eq!(m.indices.as_ref().unwrap(), &vec![0, 1, 2, 3, 4, 5]);
}

#[test]
fn merge_into_rejects_line_list_topology() {
    let mut m = Mesh::new_triangle_list();
    m.topology = Topology::LineList;
    let r = sample_buffer().merge_into(&mut m);
    assert!(matches!(r, Err(MeshError::UnsupportedTopology)));
    assert!(m.positions.is_none());
    assert!(m.indices.is_none());
}

#[test]
fn merge_into_rejects_sink_missing_normals() {
    let mut m = sample_buffer().into_mesh();
    m.normals = None;
    let r = sample_buffer().merge_into(&mut m);
    assert!(matches!(r, Err(MeshError::MissingNormals)));
    assert_eq!(m.positions.as_ref().unwrap().len(), 3);
}

#[test]
fn merge_into_rejects_missing_buffer_uv() {
    let uv3 = vec![UV2 { u: 0, v: 0 }, UV2 { u: ONE, v: 0 }, UV2 { u: 0, v: ONE }];
    let mut m = sample_buffer().with_uv(uv3).unwrap().into_mesh();
    let r = sample_buffer().merge_into(&mut m);
    assert!(matches!(r, Err(MeshError::MissingUv)));
    assert_eq!(m.positions.as_ref().unwrap().len(), 3);
    assert_eq!(m.uv.as_ref().unwrap().len(), 3);
}

#[test]
fn merge_into_drops_unexpected_buffer_uv() {
    let uv3 = vec![UV2 { u: 0, v: 0 }, UV2 { u: ONE, v: 0 }, UV2 { u: 0, v: ONE }];
    let mut m = sample_buffer().into_mesh();
    m.uv = None;
    sample_buffer().with_uv(uv3).unwrap().merge_into(&mut m).unwrap();
    assert!(m.uv.is_none());
    assert_eq!(m.positions.as_ref().unwrap().len(), 6);
}

#[test]
fn empty_buffer_is_structurally_valid() {
    let b = MeshBuffer::empty();
    assert_eq!(b.positions.len(), 0);
    assert_eq!(b.normals.len(), 0);
    assert_eq!(b.indices.len(), 0);
    assert!(b.uv.is_none());
}

#[test]
fn scale_renormalizes_normals() {
    let b = MeshBuffer::new(
        vec![v(ONE, 0, 0)],
        vec![v(0, 0, ONE)],
        vec![],
    )
    .unwrap();
    let squash = AffineTransform::from_scale(v(2 * ONE, ONE, ONE / 4));
    let t = b.transform_by(squash);
    // the normal was squashed to a quarter unit, then scaled back to unit length
    let n = t.normals[0];
    assert_eq!(n, v(0, 0, ONE));
    // positions follow the scale without renormalization
    assert_eq!(t.positions[0], v(2 * ONE, 0, 0));
}
