//! Specular reflectors with an optional blur.

use crate::geometry::ray::Ray;
use crate::geometry::vec3::Vec3;
use crate::materials::reflection::{reflect, reflect_spec};
use crate::materials::{is_draw, random_point_in_sphere, Scatter, Scatterable};
use crate::numeric::fixed::{Fixed, SCALE};
use crate::scenery::hitable::Hit;
use vstd::prelude::*;

verus! {

/// A mirror of colour `albedo` whose reflections are blurred by `fuzz`.
#[derive(Clone, Copy, Debug, PartialEq, Eq, Structural)]
pub struct Metal {
    pub albedo: Vec3,
    pub fuzz: Fixed,
}

impl Metal {
    /// The direction in which the ray leaves: the normalized incoming
    /// direction, reflected about the normal and perturbed by `fuzz * sample`.
    pub open spec fn outgoing(&self, ray: &Ray, hit: &Hit, sample: Vec3) -> Vec3 {
        reflect_spec(ray.direction.normalize_spec(), hit.normal).plus(sample.scaled(self.fuzz))
    }
}

/// A metal without fuzz is a mirror: the outcome does not depend on the
/// point that is drawn.
pub proof fn lemma_mirror_ignores_sample(metal: Metal, ray: &Ray, hit: &Hit, sample: Vec3, other: Vec3)
    requires
        metal.fuzz@ == 0,
    ensures
        metal.outgoing(ray, hit, sample) == metal.outgoing(ray, hit, other),
{
    crate::numeric::fixed::lemma_times_zero(sample.x);
    crate::numeric::fixed::lemma_times_zero(sample.y);
    crate::numeric::fixed::lemma_times_zero(sample.z);
    crate::numeric::fixed::lemma_times_zero(other.x);
    crate::numeric::fixed::lemma_times_zero(other.y);
    crate::numeric::fixed::lemma_times_zero(other.z);
    assert(sample.scaled(metal.fuzz) == other.scaled(metal.fuzz));
}

impl Scatterable for Metal {
    /// The ray is scattered along the perturbed reflection if that direction
    /// points away from the surface, and absorbed otherwise.
    open spec fn scatter_spec(&self, ray: &Ray, hit: &Hit, sample: Vec3, chance: Fixed) -> Option<Scatter> {
        let direction = self.outgoing(ray, hit, sample);
        if direction.dot_spec(&hit.normal)@ > 0 {
            Some(Scatter { ray: Ray { origin: hit.point, direction }, attenuation: self.albedo })
        } else {
            None
        }
    }

    fn scatter_with(&self, ray: &Ray, hit: &Hit, sample: Vec3, chance: Fixed) -> (r: Option<Scatter>) {
        let reflected: Vec3 = reflect(&ray.direction.normalize(), &hit.normal);
        let direction: Vec3 = reflected + self.fuzz * sample;
        if direction.dot(&hit.normal).is_positive() {
            Some(Scatter { ray: Ray::new(hit.point, direction), attenuation: self.albedo })
        } else {
            None
        }
    }

    fn scatter(&self, ray: &Ray, hit: &Hit) -> (r: Option<Scatter>) {
        let sample: Vec3 = random_point_in_sphere();
        let chance: Fixed = Fixed::zero();
        assert(is_draw(sample, chance)) by {
            assert(SCALE == 0x1_0000_0000);
        }
        self.scatter_with(ray, hit, sample, chance)
    }
}

} // verus!
