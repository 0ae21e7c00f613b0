use vstd::prelude::*;
use crate::material::Material;
use crate::ray::Record;
use crate::scalar::Scalar;
use crate::vector::Vector3;

verus! {

/// A sphere and what it is made of.
#[derive(Clone, Copy, Debug, PartialEq, Eq, Structural)]
pub struct Sphere {
    pub material: Material,
    pub center: Vector3,
    pub radius: Scalar,
}

/// Where a ray meets a sphere's surface: the discriminant of the quadratic
/// in the ray parameter, and for each of its two roots the hit that the root
/// would make (parameter, point, normal). `near` belongs to the root with
/// the minus sign and is tried first.
#[derive(Clone, Copy, Debug, PartialEq, Eq, Structural)]
pub struct Crossing {
    pub disc: Scalar,
    pub near: Record,
    pub far: Record,
}

/// Whether the ray parameter `val` lies strictly between `t_min` and `bound`.
pub open spec fn in_reach(val: Scalar, t_min: Scalar, bound: Scalar) -> bool {
    val.gt_spec(t_min) && val.lt_spec(bound)
}

impl Crossing {
    /// Whether the ray meets the sphere at all.
    pub open spec fn meets(self) -> bool {
        !self.disc.lt_spec(Scalar::zero())
    }

    /// Whether some root of a real crossing lies strictly between `t_min` and
    /// `bound`.
    pub open spec fn reaches(self, t_min: Scalar, bound: Scalar) -> bool {
        self.meets() && (in_reach(self.near.t, t_min, bound) || in_reach(self.far.t, t_min, bound))
    }

    /// Whether the root tried first is not the greater one.
    pub open spec fn in_order(self) -> bool {
        !self.far.t.lt_spec(self.near.t)
    }

    /// The hit that the sphere offers to a ray whose closest hit so far lies
    /// at `bound`: that of the first root in reach, or none.
    pub open spec fn offer(self, t_min: Scalar, bound: Scalar) -> Option<Record> {
        if !self.meets() {
            None
        } else if in_reach(self.near.t, t_min, bound) {
            Some(self.near)
        } else if in_reach(self.far.t, t_min, bound) {
            Some(self.far)
        } else {
            None
        }
    }
}

impl Sphere {
    /// Tests the sphere against a ray whose closest hit so far is on record
    /// in `hr`. Where the sphere offers a closer one, the record takes it and
    /// the sphere's material is returned; else the record stays as it is.
    /// The record's parameter never grows.
    pub fn hit(&self, c: &Crossing, t_min: Scalar, hr: &mut Record) -> (mat: Option<&Material>)
        ensures
            match c.offer(t_min, old(hr).t) {
                Some(found) => *final(hr) == found && mat == Some(&self.material),
                None => *final(hr) == *old(hr) && mat is None,
            },
            final(hr).t == old(hr).t || final(hr).t.lt_spec(old(hr).t),
    {
        if c.disc.lt(Scalar::zero()) {
            return None;
        }
        if c.near.t.gt(t_min) && c.near.t.lt(hr.t) {
            *hr = c.near;
            return Some(&self.material);
        }
        if c.far.t.gt(t_min) && c.far.t.lt(hr.t) {
            *hr = c.far;
            return Some(&self.material);
        }
        None
    }
}

} // verus!
