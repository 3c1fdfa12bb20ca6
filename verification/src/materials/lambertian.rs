//! Ideal diffuse surfaces.

use crate::geometry::ray::Ray;
use crate::geometry::vec3::Vec3;
use crate::materials::{is_draw, random_point_in_sphere, Scatter, Scatterable};
use crate::numeric::fixed::{Fixed, SCALE};
use crate::scenery::hitable::Hit;
use vstd::prelude::*;

verus! {

/// A diffuse surface that reflects the fraction `albedo` of each colour.
#[derive(Clone, Copy, Debug, PartialEq, Eq, Structural)]
pub struct Lambertian {
    pub albedo: Vec3,
}

impl Scatterable for Lambertian {
    /// The ray leaves the hit point towards `normal + sample`, whatever the
    /// incoming direction, and is attenuated by the albedo. It is never absorbed.
    open spec fn scatter_spec(&self, ray: &Ray, hit: &Hit, sample: Vec3, chance: Fixed) -> Option<Scatter> {
        Some(
            Scatter {
                ray: Ray { origin: hit.point, direction: hit.normal.plus(sample) },
                attenuation: self.albedo,
            },
        )
    }

    fn scatter_with(&self, ray: &Ray, hit: &Hit, sample: Vec3, chance: Fixed) -> (r: Option<Scatter>) {
        let target: Vec3 = hit.normal + sample;
        Some(Scatter { ray: Ray::new(hit.point, target), attenuation: self.albedo })
    }

    fn scatter(&self, ray: &Ray, hit: &Hit) -> (r: Option<Scatter>)
        ensures
            r is Some,
    {
        let sample: Vec3 = random_point_in_sphere();
        let chance: Fixed = Fixed::zero();
        assert(is_draw(sample, chance)) by {
            assert(SCALE == 0x1_0000_0000);
        }
        self.scatter_with(ray, hit, sample, chance)
    }
}

} // verus!
