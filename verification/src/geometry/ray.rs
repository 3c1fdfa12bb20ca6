//! Rays: an origin and a direction.

use crate::geometry::vec3::Vec3;
use crate::numeric::fixed::Fixed;
use vstd::prelude::*;

verus! {

/// A ray starting at `origin` and running along `direction`, which need not
/// have unit length.
#[derive(Clone, Copy, Debug, PartialEq, Eq, Structural)]
pub struct Ray {
    pub origin: Vec3,
    pub direction: Vec3,
}

impl Ray {
    /// The point `origin + t * direction`.
    pub open spec fn point_at_parameter_spec(&self, t: Fixed) -> Vec3 {
        self.origin.plus(self.direction.scaled(t))
    }

    /// The ray from `origin` along `direction`.
    pub fn new(origin: Vec3, direction: Vec3) -> (r: Ray)
        ensures
            r == (Ray { origin, direction }),
    {
        Ray { origin, direction }
    }

    /// The point reached after travelling `t` times the direction.
    #[verifier::when_used_as_spec(point_at_parameter_spec)]
    pub fn point_at_parameter(&self, t: Fixed) -> (p: Vec3)
        ensures
            p == self.point_at_parameter_spec(t),
    {
        self.origin + self.direction * t
    }
}

} // verus!
