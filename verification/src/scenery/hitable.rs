//! Intersections and the objects that produce them.

use crate::geometry::ray::Ray;
use crate::geometry::vec3::Vec3;
use crate::materials::Material;
use crate::numeric::fixed::Fixed;
use vstd::prelude::*;

verus! {

/// Where a ray meets a surface: the ray parameter `t`, the point, the normal
/// pointing out of the surface (never flipped towards the ray), and a copy of
/// the material of the surface.
#[derive(Clone, Copy, Debug, PartialEq, Eq, Structural)]
pub struct Hit {
    pub t: Fixed,
    pub point: Vec3,
    pub normal: Vec3,
    pub material: Material,
}

/// Something a ray can hit. A scene is built once and then only read, so
/// what it holds can be shared between threads.
pub trait Hitable: Sync {
    /// The intersection that `hit` reports.
    spec fn hit_spec(&self, ray: &Ray, t_min: Fixed, t_max: Fixed) -> Option<Hit>;

    /// The nearest intersection of `ray` with the object whose parameter lies
    /// strictly between `t_min` and `t_max`, if there is one.
    fn hit(&self, ray: &Ray, t_min: Fixed, t_max: Fixed) -> (r: Option<Hit>)
        ensures
            r == self.hit_spec(ray, t_min, t_max),
            r matches Some(h) ==> t_min@ < h.t@ < t_max@,
    ;
}

} // verus!
