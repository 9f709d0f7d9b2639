//! The pen vocabulary and the crab defaults.

use crabmesh::crab::Crab;
use crabmesh::fx::ONE;
use crabmesh::pen::{direction_vector, relative_translation, Direction, Stroke};
use crabmesh::vec3::Vec3;

#[test]
fn default_crab_is_unnamed_and_shows_its_arrow() {
    let c = Crab::default();
    assert_eq!(c.name, "");
    assert!(c.show_arrow);
}

#[test]
fn default_stroke_is_a_hundredth_volume() {
    let Stroke::Volume(d) = Stroke::default();
    assert_eq!(d, 655);
}

#[test]
fn direction_vectors_are_unit_axes() {
    assert_eq!(direction_vector(Direction::Forward), Vec3 { x: ONE, y: 0, z: 0 });
    assert_eq!(direction_vector(Direction::Backward), Vec3 { x: -ONE, y: 0, z: 0 });
    assert_eq!(direction_vector(Direction::Left), Vec3 { x: 0, y: ONE, z: 0 });
    assert_eq!(direction_vector(Direction::Right), Vec3 { x: 0, y: -ONE, z: 0 });
    assert_eq!(direction_vector(Direction::Up), Vec3 { x: 0, y: 0, z: ONE });
    assert_eq!(direction_vector(Direction::Down), Vec3 { x: 0, y: 0, z: -ONE });
}

#[test]
fn relative_translation_moves_along_the_axis() {
    let t = relative_translation(3 * ONE, Direction::Left);
    assert_eq!(t.t, Vec3 { x: 0, y: 3 * ONE, z: 0 });
    assert_eq!(t.m00, ONE);
    assert_eq!(t.m11, ONE);
    assert_eq!(t.m22, ONE);
    assert_eq!(t.m01, 0);
    let back = relative_translation(ONE, Direction::Backward);
    assert_eq!(back.t, Vec3 { x: -ONE, y: 0, z: 0 });
}
