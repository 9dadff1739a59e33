//! Primitive types.

use vstd::prelude::*;

pub mod vec3;

pub use vec3::{Point, Rgb, Vec3};

verus! {

/// One of the three coordinate axes.
#[derive(Clone, Copy, Debug, PartialEq, Eq, Structural)]
pub enum Axis {
    X,
    Y,
    Z,
}

impl Axis {
    /// The axis numbered `n`: 0 is X, 1 is Y, anything else is Z.
    pub open spec fn from_index_spec(n: u8) -> Axis {
        if n == 0 {
            Axis::X
        } else if n == 1 {
            Axis::Y
        } else {
            Axis::Z
        }
    }

    /// The axis numbered `n`: 0 is X, 1 is Y, anything else is Z.
    pub fn from_index(n: u8) -> (axis: Axis)
        ensures
            axis == Self::from_index_spec(n),
    {
        if n == 0 {
            Axis::X
        } else if n == 1 {
            Axis::Y
        } else {
            Axis::Z
        }
    }

    /// The three axes in the order X, Y, Z.
    pub fn all() -> (axes: [Axis; 3])
        ensures
            axes@ == seq![Axis::X, Axis::Y, Axis::Z],
    {
        [Axis::X, Axis::Y, Axis::Z]
    }
}

} // verus!
