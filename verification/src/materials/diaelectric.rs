//! Transparent surfaces that refract or reflect.

use crate::geometry::ray::Ray;
use crate::geometry::vec3::Vec3;
use crate::materials::reflection::{reflect, reflect_spec};
use crate::materials::{is_draw, Scatter, Scatterable};
use crate::numeric::fixed::{Fixed, SCALE};
use crate::random::random_fraction;
use crate::scenery::hitable::Hit;
use core::ops::Neg;
use vstd::prelude::*;

verus! {

/// Colourless glass with the given index of refraction relative to vacuum.
#[derive(Clone, Copy, Debug, PartialEq, Eq, Structural)]
pub struct Diaelectric {
    pub refraction_index: Fixed,
}

/// `x` raised to the fifth power, each product rounded: `((x^2)^2) * x`.
pub open spec fn fifth_power_spec(x: Fixed) -> Fixed {
    let x2 = x.times(x);
    let x4 = x2.times(x2);
    x4.times(x)
}

/// The reflectance at normal incidence: `((1 - n) / (1 + n))^2`.
pub open spec fn base_reflectance(refraction_index: Fixed) -> Fixed {
    let one = Fixed::from_int_spec(1);
    let q = one.minus(refraction_index).over(one.plus(refraction_index));
    q.times(q)
}

/// Schlick's approximation of the probability of reflection:
/// `r0 + (1 - r0) * (1 - cosine)^5`.
pub open spec fn shlick_spec(cosine: Fixed, refraction_index: Fixed) -> Fixed {
    let one = Fixed::from_int_spec(1);
    let r0 = base_reflectance(refraction_index);
    r0.plus(one.minus(r0).times(fifth_power_spec(one.minus(cosine))))
}

/// The discriminant of Snell's law for the unit direction `uv`:
/// `1 - ni_over_nt^2 * (1 - (uv . normal)^2)`.
pub open spec fn snell_discriminant(uv: Vec3, normal: Vec3, ni_over_nt: Fixed) -> Fixed {
    let one = Fixed::from_int_spec(1);
    let dt = uv.dot_spec(&normal);
    one.minus(ni_over_nt.times(ni_over_nt).times(one.minus(dt.times(dt))))
}

/// The refracted direction by Snell's law, or `None` when the discriminant is
/// negative (total internal reflection).
pub open spec fn refract_spec(v: Vec3, normal: Vec3, ni_over_nt: Fixed) -> Option<Vec3> {
    let uv = v.normalize_spec();
    let dt = uv.dot_spec(&normal);
    let discriminant = snell_discriminant(uv, normal, ni_over_nt);
    if discriminant@ >= 0 {
        Some(uv.minus(normal.scaled(dt)).scaled(ni_over_nt).minus(normal.scaled(discriminant.sqrt_spec())))
    } else {
        None
    }
}

/// Raises `x` to the fifth power.
pub fn fifth_power(x: Fixed) -> (r: Fixed)
    ensures
        r == fifth_power_spec(x),
{
    let x2: Fixed = x * x;
    let x4: Fixed = x2 * x2;
    x4 * x
}

/// The probability of reflection at the given cosine of the angle of incidence.
pub fn shlick(cosine: Fixed, refraction_index: Fixed) -> (r: Fixed)
    ensures
        r == shlick_spec(cosine, refraction_index),
        cosine@ == SCALE ==> r == base_reflectance(refraction_index),
        cosine@ == 0 ==> r@ == SCALE,
{
    proof {
        if cosine@ == SCALE {
            lemma_shlick_at_normal_incidence(refraction_index);
        }
        if cosine@ == 0 {
            lemma_shlick_at_grazing_incidence(refraction_index);
        }
    }
    let one: Fixed = Fixed::from_int(1);
    let q: Fixed = (one - refraction_index) / (one + refraction_index);
    let r0: Fixed = q * q;
    r0 + (one - r0) * fifth_power(one - cosine)
}

/// Refracts `v` at a surface with the given normal and ratio of indices.
pub fn refract(v: &Vec3, normal: &Vec3, ni_over_nt: Fixed) -> (r: Option<Vec3>)
    ensures
        r == refract_spec(*v, *normal, ni_over_nt),
{
    let one: Fixed = Fixed::from_int(1);
    let unit_vector: Vec3 = v.normalize();
    let dt: Fixed = unit_vector.dot(normal);
    let discriminant: Fixed = one - ni_over_nt * ni_over_nt * (one - dt * dt);
    if discriminant.ge(Fixed::zero()) {
        Some(ni_over_nt * (unit_vector - *normal * dt) - *normal * discriminant.sqrt())
    } else {
        None
    }
}

impl Diaelectric {
    /// The normal facing the incoming ray, the ratio of refraction indices
    /// across the surface, and the cosine used for the reflectance. A ray with
    /// `direction . normal > 0` is leaving the medium.
    pub open spec fn interface(&self, ray: &Ray, hit: &Hit) -> (Vec3, Fixed, Fixed) {
        let along = ray.direction.dot_spec(&hit.normal);
        let length = ray.direction.length_spec();
        if along@ > 0 {
            (
                hit.normal.negated(),
                self.refraction_index,
                self.refraction_index.times(along).over(length),
            )
        } else {
            (
                hit.normal,
                Fixed::from_int_spec(1).over(self.refraction_index),
                along.negated().over(length),
            )
        }
    }

    /// The direction of the outgoing ray: the reflection when refraction is
    /// impossible or when `chance` is below the reflectance, else the refraction.
    pub open spec fn outgoing(&self, ray: &Ray, hit: &Hit, chance: Fixed) -> Vec3 {
        let (outward, ni_over_nt, cosine) = self.interface(ray, hit);
        match refract_spec(ray.direction, outward, ni_over_nt) {
            Some(refracted) => if chance@ < shlick_spec(cosine, self.refraction_index)@ {
                reflect_spec(ray.direction, hit.normal)
            } else {
                refracted
            },
            None => reflect_spec(ray.direction, hit.normal),
        }
    }
}

impl Scatterable for Diaelectric {
    /// The ray always continues, unattenuated, along `outgoing`.
    open spec fn scatter_spec(&self, ray: &Ray, hit: &Hit, sample: Vec3, chance: Fixed) -> Option<Scatter> {
        Some(
            Scatter {
                ray: Ray { origin: hit.point, direction: self.outgoing(ray, hit, chance) },
                attenuation: Vec3 {
                    x: Fixed::from_int_spec(1),
                    y: Fixed::from_int_spec(1),
                    z: Fixed::from_int_spec(1),
                },
            },
        )
    }

    fn scatter_with(&self, ray: &Ray, hit: &Hit, sample: Vec3, chance: Fixed) -> (r: Option<Scatter>) {
        let attenuation: Vec3 = Vec3::new(Fixed::from_int(1), Fixed::from_int(1), Fixed::from_int(1));
        let refraction_index: Fixed = self.refraction_index;
        let along: Fixed = ray.direction.dot(&hit.normal);
        let length: Fixed = ray.direction.length();

        let params: (Vec3, Fixed, Fixed) = if along.is_positive() {
            (hit.normal.neg(), refraction_index, refraction_index * along / length)
        } else {
            (hit.normal, Fixed::from_int(1) / refraction_index, along.neg() / length)
        };

        let direction: Vec3 = match refract(&ray.direction, &params.0, params.1) {
            Some(refracted) => {
                if chance.lt(shlick(params.2, refraction_index)) {
                    reflect(&ray.direction, &hit.normal)
                } else {
                    refracted
                }
            },
            None => reflect(&ray.direction, &hit.normal),
        };

        Some(Scatter { ray: Ray::new(hit.point, direction), attenuation })
    }

    fn scatter(&self, ray: &Ray, hit: &Hit) -> (r: Option<Scatter>)
        ensures
            r is Some,
    {
        let sample: Vec3 = Vec3::new(Fixed::zero(), Fixed::zero(), Fixed::zero());
        let chance: Fixed = random_fraction();
        assert(is_draw(sample, chance)) by {
            crate::materials::lemma_centre_is_cube_point();
        }
        self.scatter_with(ray, hit, sample, chance)
    }
}

/// At normal incidence (cosine one) the reflectance is exactly the base
/// reflectance.
pub proof fn lemma_shlick_at_normal_incidence(refraction_index: Fixed)
    ensures
        shlick_spec(Fixed::from_int_spec(1), refraction_index) == base_reflectance(refraction_index),
{
    let one = Fixed::from_int_spec(1);
    let r0 = base_reflectance(refraction_index);
    assert(SCALE == 0x1_0000_0000);
    assert(one.minus(one)@ == 0);
    assert(0int * 0int == 0) by (nonlinear_arith);
    assert(fifth_power_spec(one.minus(one))@ == 0);
    assert(one.minus(r0)@ * 0 == 0) by (nonlinear_arith);
}

/// At grazing incidence (cosine zero) the reflectance is exactly one,
/// whatever the index of refraction.
pub proof fn lemma_shlick_at_grazing_incidence(refraction_index: Fixed)
    ensures
        shlick_spec(Fixed::from_int_spec(0), refraction_index) == Fixed::from_int_spec(1),
{
    let one = Fixed::from_int_spec(1);
    let zero = Fixed::from_int_spec(0);
    let r0 = base_reflectance(refraction_index);
    assert(SCALE == 0x1_0000_0000);
    lemma_base_reflectance_nonnegative(refraction_index);
    assert(one.minus(zero) == one);
    assert(one@ * one@ / (SCALE as int) == SCALE) by (nonlinear_arith)
        requires
            one@ == SCALE,
            SCALE == 0x1_0000_0000,
    ;
    assert(one.times(one) == one);
    assert(fifth_power_spec(one) == one);
    let rest = one.minus(r0);
    assert(rest@ == SCALE - r0@);
    assert(rest@ * one@ / (SCALE as int) == rest@) by (nonlinear_arith)
        requires
            one@ == SCALE,
            SCALE == 0x1_0000_0000,
    ;
}

/// The base reflectance is a square and so not negative.
pub proof fn lemma_base_reflectance_nonnegative(refraction_index: Fixed)
    ensures
        base_reflectance(refraction_index)@ >= 0,
{
    let one = Fixed::from_int_spec(1);
    let q = one.minus(refraction_index).over(one.plus(refraction_index));
    assert(q@ * q@ >= 0) by (nonlinear_arith);
    crate::numeric::fixed::lemma_quotient_bounded(q@ * q@, SCALE as int);
}

/// For a cosine between zero and one and a base reflectance of at most one,
/// the reflectance lies between the base reflectance and one.
pub proof fn lemma_shlick_bounded(cosine: Fixed, refraction_index: Fixed)
    requires
        0 <= cosine@ <= SCALE,
        base_reflectance(refraction_index)@ <= SCALE,
    ensures
        base_reflectance(refraction_index)@ <= shlick_spec(cosine, refraction_index)@ <= SCALE,
{
    let one = Fixed::from_int_spec(1);
    let r0 = base_reflectance(refraction_index);
    assert(SCALE == 0x1_0000_0000);
    lemma_base_reflectance_nonnegative(refraction_index);
    let x = one.minus(cosine);
    assert(0 <= x@ <= SCALE);
    crate::numeric::fixed::lemma_fraction_product(x, x);
    let x2 = x.times(x);
    crate::numeric::fixed::lemma_fraction_product(x2, x2);
    let x4 = x2.times(x2);
    crate::numeric::fixed::lemma_fraction_product(x4, x);
    let x5 = x4.times(x);
    assert(x5 == fifth_power_spec(x));
    let rest = one.minus(r0);
    assert(0 <= rest@ <= SCALE);
    crate::numeric::fixed::lemma_fraction_product(rest, x5);
}

} // verus!
