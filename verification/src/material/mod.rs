use vstd::prelude::*;
use crate::material::surface_type::Surface;
use crate::vector::Vector3;

pub mod surface_type;

verus! {

/// How a primitive answers light: the law by which it scatters a ray, and the
/// colour by which it tints what it passes on.
#[derive(Clone, Copy, Debug, PartialEq, Eq, Structural)]
pub struct Material {
    pub surface: Surface,
    pub albedo: Vector3,
}

} // verus!
