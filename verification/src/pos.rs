//! Rotation planes and axes, and the grid on which positions are identified.

use vstd::prelude::*;

verus! {

/// A coordinate axis of three-dimensional space, about which to rotate.
#[derive(Clone, Copy, Debug)]
pub enum RotationAxis {
    X,
    Y,
    Z,
}

/// An ordered pair of coordinate axes of four-dimensional space: the plane in
/// which to rotate, from the first axis towards the second.
#[derive(Clone, Copy, Debug)]
pub enum RotationPlane {
    XY,
    XZ,
    XW,
    YX,
    YZ,
    YW,
    ZX,
    ZY,
    ZW,
    WX,
    WY,
    WZ,
}

/// One entry of a rotation matrix, as a function of the angle of rotation.
#[derive(Clone, Copy, Debug, PartialEq, Eq, Structural)]
pub enum Term {
    /// The constant 0.
    Zero,
    /// The constant 1.
    One,
    /// The cosine of the angle.
    Cos,
    /// The sine of the angle.
    Sin,
    /// The negated sine of the angle.
    NegSin,
}

/// The entry at `(row, col)` of the matrix that rotates by an angle in the
/// plane of the axes `from` and `to`, in a space of `dim` dimensions: a plane
/// rotation in the two axes, and the identity elsewhere. Where the space lacks
/// one of the axes the matrix is the identity.
pub open spec fn rotation_term(from: int, to: int, dim: int, row: int, col: int) -> Term {
    if from < dim && to < dim && (row == from || row == to) && (col == from || col == to) {
        if row == col {
            Term::Cos
        } else if row == from {
            Term::Sin
        } else {
            Term::NegSin
        }
    } else if row == col {
        Term::One
    } else {
        Term::Zero
    }
}

impl RotationAxis {
    /// The plane in which a rotation about the axis turns.
    pub open spec fn plane(self) -> RotationPlane {
        match self {
            RotationAxis::X => RotationPlane::YZ,
            RotationAxis::Y => RotationPlane::XZ,
            RotationAxis::Z => RotationPlane::XY,
        }
    }
}

impl RotationPlane {
    /// The axis from which the plane turns: 0 for x, 1 for y, 2 for z, 3 for w.
    pub open spec fn from_axis(self) -> int {
        match self {
            RotationPlane::XY | RotationPlane::XZ | RotationPlane::XW => 0,
            RotationPlane::YX | RotationPlane::YZ | RotationPlane::YW => 1,
            RotationPlane::ZX | RotationPlane::ZY | RotationPlane::ZW => 2,
            RotationPlane::WX | RotationPlane::WY | RotationPlane::WZ => 3,
        }
    }

    /// The axis towards which the plane turns.
    pub open spec fn to_axis(self) -> int {
        match self {
            RotationPlane::YX | RotationPlane::ZX | RotationPlane::WX => 0,
            RotationPlane::XY | RotationPlane::ZY | RotationPlane::WY => 1,
            RotationPlane::XZ | RotationPlane::YZ | RotationPlane::WZ => 2,
            RotationPlane::XW | RotationPlane::YW | RotationPlane::ZW => 3,
        }
    }

    /// The entry at `(row, col)` of the rotation matrix of the plane in a
    /// space of `dim` dimensions.
    pub open spec fn term(self, dim: int, row: int, col: int) -> Term {
        rotation_term(self.from_axis(), self.to_axis(), dim, row, col)
    }

    /// The layout of the matrix that rotates three-dimensional space about an
    /// axis.
    pub fn get_rot_layout_3d(axis: RotationAxis) -> (layout: [[Term; 3]; 3])
        ensures
            forall|row: int, col: int|
                0 <= row < 3 && 0 <= col < 3 ==> #[trigger] layout[row][col] == axis.plane().term(
                    3,
                    row,
                    col,
                ),
    {
        match axis {
            RotationAxis::X => [
                [Term::One, Term::Zero, Term::Zero],
                [Term::Zero, Term::Cos, Term::Sin],
                [Term::Zero, Term::NegSin, Term::Cos],
            ],
            RotationAxis::Y => [
                [Term::Cos, Term::Zero, Term::Sin],
                [Term::Zero, Term::One, Term::Zero],
                [Term::NegSin, Term::Zero, Term::Cos],
            ],
            RotationAxis::Z => [
                [Term::Cos, Term::Sin, Term::Zero],
                [Term::NegSin, Term::Cos, Term::Zero],
                [Term::Zero, Term::Zero, Term::One],
            ],
        }
    }

    /// The layout of the matrix that rotates four-dimensional space in a plane.
    pub fn get_rot_layout_4d(plane: RotationPlane) -> (layout: [[Term; 4]; 4])
        ensures
            forall|row: int, col: int|
                0 <= row < 4 && 0 <= col < 4 ==> #[trigger] layout[row][col] == plane.term(
                    4,
                    row,
                    col,
                ),
    {
        match plane {
            RotationPlane::XY => [
                [Term::Cos, Term::Sin, Term::Zero, Term::Zero],
                [Term::NegSin, Term::Cos, Term::Zero, Term::Zero],
                [Term::Zero, Term::Zero, Term::One, Term::Zero],
                [Term::Zero, Term::Zero, Term::Zero, Term::One],
            ],
            RotationPlane::XZ => [
                [Term::Cos, Term::Zero, Term::Sin, Term::Zero],
                [Term::Zero, Term::One, Term::Zero, Term::Zero],
                [Term::NegSin, Term::Zero, Term::Cos, Term::Zero],
                [Term::Zero, Term::Zero, Term::Zero, Term::One],
            ],
            RotationPlane::XW => [
                [Term::Cos, Term::Zero, Term::Zero, Term::Sin],
                [Term::Zero, Term::One, Term::Zero, Term::Zero],
                [Term::Zero, Term::Zero, Term::One, Term::Zero],
                [Term::NegSin, Term::Zero, Term::Zero, Term::Cos],
            ],
            RotationPlane::YX => [
                [Term::Cos, Term::NegSin, Term::Zero, Term::Zero],
                [Term::Sin, Term::Cos, Term::Zero, Term::Zero],
                [Term::Zero, Term::Zero, Term::One, Term::Zero],
                [Term::Zero, Term::Zero, Term::Zero, Term::One],
            ],
            RotationPlane::YZ => [
                [Term::One, Term::Zero, Term::Zero, Term::Zero],
                [Term::Zero, Term::Cos, Term::Sin, Term::Zero],
                [Term::Zero, Term::NegSin, Term::Cos, Term::Zero],
                [Term::Zero, Term::Zero, Term::Zero, Term::One],
            ],
            RotationPlane::YW => [
                [Term::One, Term::Zero, Term::Zero, Term::Zero],
                [Term::Zero, Term::Cos, Term::Zero, Term::Sin],
                [Term::Zero, Term::Zero, Term::One, Term::Zero],
                [Term::Zero, Term::NegSin, Term::Zero, Term::Cos],
            ],
            RotationPlane::ZX => [
                [Term::Cos, Term::Zero, Term::NegSin, Term::Zero],
                [Term::Zero, Term::One, Term::Zero, Term::Zero],
                [Term::Sin, Term::Zero, Term::Cos, Term::Zero],
                [Term::Zero, Term::Zero, Term::Zero, Term::One],
            ],
            RotationPlane::ZY => [
                [Term::One, Term::Zero, Term::Zero, Term::Zero],
                [Term::Zero, Term::Cos, Term::NegSin, Term::Zero],
                [Term::Zero, Term::Sin, Term::Cos, Term::Zero],
                [Term::Zero, Term::Zero, Term::Zero, Term::One],
            ],
            RotationPlane::ZW => [
                [Term::One, Term::Zero, Term::Zero, Term::Zero],
                [Term::Zero, Term::One, Term::Zero, Term::Zero],
                [Term::Zero, Term::Zero, Term::Cos, Term::Sin],
                [Term::Zero, Term::Zero, Term::NegSin, Term::Cos],
            ],
            RotationPlane::WX => [
                [Term::Cos, Term::Zero, Term::Zero, Term::NegSin],
                [Term::Zero, Term::One, Term::Zero, Term::Zero],
                [Term::Zero, Term::Zero, Term::One, Term::Zero],
                [Term::Sin, Term::Zero, Term::Zero, Term::Cos],
            ],
            RotationPlane::WY => [
                [Term::One, Term::Zero, Term::Zero, Term::Zero],
                [Term::Zero, Term::Cos, Term::Zero, Term::NegSin],
                [Term::Zero, Term::Zero, Term::One, Term::Zero],
                [Term::Zero, Term::Sin, Term::Zero, Term::Cos],
            ],
            RotationPlane::WZ => [
                [Term::One, Term::Zero, Term::Zero, Term::Zero],
                [Term::Zero, Term::One, Term::Zero, Term::Zero],
                [Term::Zero, Term::Zero, Term::Cos, Term::NegSin],
                [Term::Zero, Term::Zero, Term::Sin, Term::Cos],
            ],
        }
    }

    /// The layout of the matrix that rotates three-dimensional space in a plane.
    /// A plane that reaches into the fourth dimension gives the identity.
    pub fn plane_layout_3d(plane: RotationPlane) -> (layout: [[Term; 3]; 3])
        ensures
            forall|row: int, col: int|
                0 <= row < 3 && 0 <= col < 3 ==> #[trigger] layout[row][col] == plane.term(
                    3,
                    row,
                    col,
                ),
    {
        match plane {
            RotationPlane::XY => [
                [Term::Cos, Term::Sin, Term::Zero],
                [Term::NegSin, Term::Cos, Term::Zero],
                [Term::Zero, Term::Zero, Term::One],
            ],
            RotationPlane::XZ => [
                [Term::Cos, Term::Zero, Term::Sin],
                [Term::Zero, Term::One, Term::Zero],
                [Term::NegSin, Term::Zero, Term::Cos],
            ],
            RotationPlane::YX => [
                [Term::Cos, Term::NegSin, Term::Zero],
                [Term::Sin, Term::Cos, Term::Zero],
                [Term::Zero, Term::Zero, Term::One],
            ],
            RotationPlane::YZ => [
                [Term::One, Term::Zero, Term::Zero],
                [Term::Zero, Term::Cos, Term::Sin],
                [Term::Zero, Term::NegSin, Term::Cos],
            ],
            RotationPlane::ZX => [
                [Term::Cos, Term::Zero, Term::NegSin],
                [Term::Zero, Term::One, Term::Zero],
                [Term::Sin, Term::Zero, Term::Cos],
            ],
            RotationPlane::ZY => [
                [Term::One, Term::Zero, Term::Zero],
                [Term::Zero, Term::Cos, Term::NegSin],
                [Term::Zero, Term::Sin, Term::Cos],
            ],
            _ => [
                [Term::One, Term::Zero, Term::Zero],
                [Term::Zero, Term::One, Term::Zero],
                [Term::Zero, Term::Zero, Term::One],
            ],
        }
    }

    /// The layout of the matrix that rotates the plane of x and y. A plane that
    /// reaches beyond these two axes gives the identity.
    pub fn plane_layout_2d(plane: RotationPlane) -> (layout: [[Term; 2]; 2])
        ensures
            forall|row: int, col: int|
                0 <= row < 2 && 0 <= col < 2 ==> #[trigger] layout[row][col] == plane.term(
                    2,
                    row,
                    col,
                ),
    {
        match plane {
            RotationPlane::XY => [
                [Term::Cos, Term::Sin],
                [Term::NegSin, Term::Cos],
            ],
            RotationPlane::YX => [
                [Term::Cos, Term::NegSin],
                [Term::Sin, Term::Cos],
            ],
            _ => [
                [Term::One, Term::Zero],
                [Term::Zero, Term::One],
            ],
        }
    }
}

/// A type with a distinguished empty value.
pub trait Empty: Sized {
    /// The empty value.
    spec fn empty_value() -> Self;

    fn empty() -> (e: Self)
        ensures
            e == Self::empty_value(),
    ;
}

/// A cell of the grid of hundredths: the coordinates of a position, each
/// multiplied by 100 and truncated towards zero. Two positions are the same
/// vertex when they fall into the same cell. A position of fewer than four
/// dimensions has zero in the coordinates that it lacks.
#[derive(Clone, Copy, Debug, PartialEq, Eq, Hash, Structural)]
pub struct Cell {
    pub x: i64,
    pub y: i64,
    pub z: i64,
    pub w: i64,
}

impl Empty for Cell {
    open spec fn empty_value() -> Cell {
        Cell { x: 0, y: 0, z: 0, w: 0 }
    }

    fn empty() -> (e: Cell) {
        Cell { x: 0, y: 0, z: 0, w: 0 }
    }
}

/// A position that can be placed on the grid of hundredths.
pub trait Quantize {
    /// The cell that the position falls into.
    spec fn cell(&self) -> Cell;

    fn quantize(&self) -> (c: Cell)
        ensures
            c == self.cell(),
    ;
}

impl Quantize for Cell {
    open spec fn cell(&self) -> Cell {
        *self
    }

    fn quantize(&self) -> (c: Cell) {
        *self
    }
}

} // verus!
