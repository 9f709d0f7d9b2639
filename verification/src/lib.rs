//! Procedural mesh-buffer synthesis: triangulated surface geometry for a
//! catalog of parametric solids and flat glyphs, assembled from ring samples
//! into attribute buffers, with affine transform and merge as the two
//! composition primitives.
//!
//! All coordinates, angles and texture parameters are fixed-point
//! values: an `i64` holds the value scaled by `fx::ONE` (65536 to the
//! unit). Contracts state results exactly over that representation.

pub mod buffer;
pub mod crab;
pub mod fx;
pub mod laws;
pub mod pen;
pub mod ring;
pub mod shapes;
pub mod trig;
pub mod transform;
pub mod vec3;
