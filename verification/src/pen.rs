//! Pen drawing vocabulary: stroke styles, the six relative directions,
//! and the translation a relative movement denotes.
//!
//! The interactive layer that queues movements and drives a scene lives
//! with the host; the library only fixes what each direction and stroke
//! means.

use vstd::prelude::*;
use crate::fx::{ONE, COORD_MAX, s_abs};
use crate::vec3::{Vec3, v3t};
use crate::transform::{AffineTransform, spec_translation, t_wf};

verus! {

/// How a pen's trail is rendered: a solid volume of the given
/// fixed-point diameter.
#[derive(Debug, Clone, Copy, PartialEq, Eq, Structural)]
pub enum Stroke {
    Volume(i64),
}

impl Default for Stroke {
    /// A solid stroke one hundredth of a unit across (truncated to the
    /// fixed-point grid).
    fn default() -> (r: Stroke)
        ensures
            r == Stroke::Volume(655i64),
    {
        Stroke::Volume(655)
    }
}

/// A relative direction of pen movement.
#[derive(Debug, Clone, Copy, PartialEq, Eq, Structural)]
pub enum Direction {
    Forward,
    Backward,
    Left,
    Right,
    Up,
    Down,
}

/// The unit axis a direction points along: forward is `+x`, left is
/// `+y`, up is `+z`.
pub open spec fn direction_axis(d: Direction) -> (int, int, int) {
    match d {
        Direction::Forward => (ONE as int, 0, 0),
        Direction::Backward => (-(ONE as int), 0, 0),
        Direction::Left => (0, ONE as int, 0),
        Direction::Right => (0, -(ONE as int), 0),
        Direction::Up => (0, 0, ONE as int),
        Direction::Down => (0, 0, -(ONE as int)),
    }
}

/// The unit vector a direction points along.
pub fn direction_vector(d: Direction) -> (r: Vec3)
    ensures
        v3t(r) == direction_axis(d),
{
    match d {
        Direction::Forward => Vec3 { x: ONE, y: 0, z: 0 },
        Direction::Backward => Vec3 { x: -ONE, y: 0, z: 0 },
        Direction::Left => Vec3 { x: 0, y: ONE, z: 0 },
        Direction::Right => Vec3 { x: 0, y: -ONE, z: 0 },
        Direction::Up => Vec3 { x: 0, y: 0, z: ONE },
        Direction::Down => Vec3 { x: 0, y: 0, z: -ONE },
    }
}

/// A movement a pen can be asked to make: to an absolute point, to a
/// whole pose, or by a relative transform. Interpolating a movement
/// over time is the host's business; the library fixes what each
/// movement means as a transform.
#[derive(Debug, Clone, Copy)]
pub enum Movement {
    ToPoint(Vec3),
    ToPose(AffineTransform),
    Relative(AffineTransform),
}

impl Movement {
    /// The relative movement of the given distance along the given
    /// direction: a pure translation.
    pub fn relative(distance: i64, direction: Direction) -> (r: Movement)
        requires
            s_abs(distance as int) <= COORD_MAX as int,
        ensures
            ({
                match direction {
                    Direction::Forward => r == Movement::Relative(
                        spec_translation((distance as int, 0, 0)),
                    ),
                    Direction::Backward => r == Movement::Relative(
                        spec_translation((-(distance as int), 0, 0)),
                    ),
                    Direction::Left => r == Movement::Relative(
                        spec_translation((0, distance as int, 0)),
                    ),
                    Direction::Right => r == Movement::Relative(
                        spec_translation((0, -(distance as int), 0)),
                    ),
                    Direction::Up => r == Movement::Relative(
                        spec_translation((0, 0, distance as int)),
                    ),
                    Direction::Down => r == Movement::Relative(
                        spec_translation((0, 0, -(distance as int))),
                    ),
                }
            }),
    {
        Movement::Relative(relative_translation(distance, direction))
    }
}

/// The transform a relative movement denotes: a pure translation of the
/// given distance along the given direction.
pub fn relative_translation(distance: i64, direction: Direction) -> (r: AffineTransform)
    requires
        s_abs(distance as int) <= COORD_MAX as int,
    ensures
        t_wf(r),
        ({
            match direction {
                Direction::Forward => r == spec_translation((distance as int, 0, 0)),
                Direction::Backward => r == spec_translation((-(distance as int), 0, 0)),
                Direction::Left => r == spec_translation((0, distance as int, 0)),
                Direction::Right => r == spec_translation((0, -(distance as int), 0)),
                Direction::Up => r == spec_translation((0, 0, distance as int)),
                Direction::Down => r == spec_translation((0, 0, -(distance as int))),
            }
        }),
{
    let v = match direction {
        Direction::Forward => Vec3 { x: distance, y: 0, z: 0 },
        Direction::Backward => Vec3 { x: -distance, y: 0, z: 0 },
        Direction::Left => Vec3 { x: 0, y: distance, z: 0 },
        Direction::Right => Vec3 { x: 0, y: -distance, z: 0 },
        Direction::Up => Vec3 { x: 0, y: 0, z: distance },
        Direction::Down => Vec3 { x: 0, y: 0, z: -distance },
    };
    AffineTransform::from_translation(v)
}

} // verus!
