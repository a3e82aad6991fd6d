//! Projection modes and the direction from which each looks at the scene.

use vstd::prelude::*;

verus! {

/// How a point of space is brought to the screen.
#[derive(Clone, Copy, Debug, PartialEq, Eq, Structural)]
pub enum ProjectionType {
    Perspective,
    Stereographic,
    Collapse,
}

impl ProjectionType {
    /// The direction towards the camera as a unit vector along one axis.
    pub open spec fn camera_axis(self) -> (int, int, int) {
        match self {
            ProjectionType::Perspective => (-1, 0, 0),
            ProjectionType::Stereographic => (1, 0, 0),
            ProjectionType::Collapse => (0, 0, 1),
        }
    }

    /// The direction towards the camera: the three coordinates of a unit
    /// vector along one axis, which face shading measures faces against.
    pub fn get_camera_pos(&self) -> (axis: (i8, i8, i8))
        ensures
            (axis.0 as int, axis.1 as int, axis.2 as int) == self.camera_axis(),
    {
        match self {
            ProjectionType::Perspective => (-1, 0, 0),
            ProjectionType::Stereographic => (1, 0, 0),
            ProjectionType::Collapse => (0, 0, 1),
        }
    }
}

} // verus!
