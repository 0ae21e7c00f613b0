use vstd::prelude::*;
use crate::scalar::Scalar;

verus! {

/// Three scalars: a position, a direction, or a linear colour.
#[derive(Clone, Copy, Debug, PartialEq, Eq, Structural)]
pub struct Vector3 {
    pub x: Scalar,
    pub y: Scalar,
    pub z: Scalar,
}

impl Vector3 {
    pub fn new(x: Scalar, y: Scalar, z: Scalar) -> (v: Vector3)
        ensures
            v == (Vector3 { x, y, z }),
    {
        Vector3 { x, y, z }
    }

    /// The vector with the given three bit patterns for its components.
    pub open spec fn of_bits(x: u32, y: u32, z: u32) -> Vector3 {
        Vector3 { x: Scalar { bits: x }, y: Scalar { bits: y }, z: Scalar { bits: z } }
    }

    pub fn from_bits(x: u32, y: u32, z: u32) -> (v: Vector3)
        ensures
            v == Vector3::of_bits(x, y, z),
    {
        Vector3 { x: Scalar { bits: x }, y: Scalar { bits: y }, z: Scalar { bits: z } }
    }
}

} // verus!
