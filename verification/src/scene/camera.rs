//! The camera's discrete choices.
use vstd::prelude::*;

verus! {

/// Directions relative to the camera.
#[derive(Clone, Copy, Debug, PartialEq, Eq, Structural)]
pub enum Direction {
    /// Along the view direction.
    Forwards,
    /// Against the view direction.
    Backwards,
    /// To the camera's left.
    Left,
    /// To the camera's right.
    Right,
    /// Towards the camera's top.
    Up,
    /// Towards the camera's bottom.
    Down,
}

impl Direction {
    /// The camera-space axis of the direction, as `(x, y, z)`. The camera
    /// looks along negative z, with x to its right and y up.
    pub open spec fn axis_of(self) -> (int, int, int) {
        match self {
            Direction::Forwards => (0, 0, -1),
            Direction::Backwards => (0, 0, 1),
            Direction::Left => (-1, 0, 0),
            Direction::Right => (1, 0, 0),
            Direction::Up => (0, 1, 0),
            Direction::Down => (0, -1, 0),
        }
    }

    /// The camera-space axis of the direction, as `(x, y, z)`.
    pub fn axis(self) -> (axis: (i8, i8, i8))
        ensures
            (axis.0 as int, axis.1 as int, axis.2 as int) == self.axis_of(),
    {
        match self {
            Direction::Forwards => (0, 0, -1),
            Direction::Backwards => (0, 0, 1),
            Direction::Left => (-1, 0, 0),
            Direction::Right => (1, 0, 0),
            Direction::Up => (0, 1, 0),
            Direction::Down => (0, -1, 0),
        }
    }
}

/// How yaw, pitch and roll turn the camera.
#[derive(Clone, Copy, Debug, PartialEq, Eq, Structural)]
pub enum CameraStyle {
    /// Yaw turns around the world's Y axis, pitch around the camera's X
    /// axis and never past straight up or down; roll is ignored.
    FPSLike,
    /// Yaw, pitch and roll turn around the camera's own Y, X and negative
    /// Z axes, without limit.
    Free,
}

impl CameraStyle {
    /// Whether yaw turns around the world's Y axis rather than the
    /// camera's own.
    pub fn yaws_around_world(self) -> (world: bool)
        ensures
            world == (self == CameraStyle::FPSLike),
    {
        match self {
            CameraStyle::FPSLike => true,
            CameraStyle::Free => false,
        }
    }

    /// Whether the camera rolls at all.
    pub fn applies_roll(self) -> (rolls: bool)
        ensures
            rolls == (self == CameraStyle::Free),
    {
        match self {
            CameraStyle::FPSLike => false,
            CameraStyle::Free => true,
        }
    }

    /// Whether the pitch is held within a quarter turn of level.
    pub fn clamps_pitch(self) -> (clamps: bool)
        ensures
            clamps == (self == CameraStyle::FPSLike),
    {
        match self {
            CameraStyle::FPSLike => true,
            CameraStyle::Free => false,
        }
    }
}

} // verus!
