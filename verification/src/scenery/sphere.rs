//! Spheres.

use crate::geometry::ray::Ray;
use crate::geometry::vec3::Vec3;
use crate::materials::Material;
use crate::numeric::fixed::{lemma_quotient_monotone, Fixed, SCALE};
use crate::scenery::hitable::{Hit, Hitable};
use core::ops::Neg;
use vstd::prelude::*;

verus! {

/// A sphere with its own material. The radius is meant to be positive, but
/// every operation is defined for every radius.
#[derive(Clone, Copy, Debug, PartialEq, Eq, Structural)]
pub struct Sphere {
    pub centre: Vec3,
    pub radius: Fixed,
    pub material: Material,
}

impl Sphere {
    /// The vector from the centre to the origin of the ray.
    pub open spec fn offset(&self, ray: &Ray) -> Vec3 {
        ray.origin.minus(self.centre)
    }

    /// The leading coefficient of the quadratic in `t`: `direction . direction`.
    pub open spec fn quadratic_a(&self, ray: &Ray) -> Fixed {
        ray.direction.dot_spec(&ray.direction)
    }

    /// Half the linear coefficient: `offset . direction`.
    pub open spec fn quadratic_b(&self, ray: &Ray) -> Fixed {
        self.offset(ray).dot_spec(&ray.direction)
    }

    /// The constant coefficient: `offset . offset - radius^2`.
    pub open spec fn quadratic_c(&self, ray: &Ray) -> Fixed {
        let oc = self.offset(ray);
        oc.dot_spec(&oc).minus(self.radius.times(self.radius))
    }

    /// The discriminant `b^2 - a * c` of the quadratic.
    pub open spec fn discriminant(&self, ray: &Ray) -> Fixed {
        let a = self.quadratic_a(ray);
        let b = self.quadratic_b(ray);
        let c = self.quadratic_c(ray);
        b.times(b).minus(a.times(c))
    }

    /// Whether the line of the ray crosses the sphere: the discriminant is
    /// positive and the direction has positive squared length.
    pub open spec fn crosses(&self, ray: &Ray) -> bool {
        self.discriminant(ray)@ > 0 && self.quadratic_a(ray)@ > 0
    }

    /// The smaller root `(-b - sqrt(discriminant)) / a`.
    pub open spec fn near_root(&self, ray: &Ray) -> Fixed {
        let a = self.quadratic_a(ray);
        let b = self.quadratic_b(ray);
        b.negated().minus(self.discriminant(ray).sqrt_spec()).over(a)
    }

    /// The larger root `(-b + sqrt(discriminant)) / a`.
    pub open spec fn far_root(&self, ray: &Ray) -> Fixed {
        let a = self.quadratic_a(ray);
        let b = self.quadratic_b(ray);
        b.negated().plus(self.discriminant(ray).sqrt_spec()).over(a)
    }

    /// The intersection record for the ray parameter `t`: the normal is the
    /// vector from the centre to the point, divided by the radius.
    pub open spec fn hit_at(&self, ray: &Ray, t: Fixed) -> Hit {
        let point = ray.point_at_parameter_spec(t);
        Hit { t, point, normal: point.minus(self.centre).over(self.radius), material: self.material }
    }

    /// The first of the two roots, nearer one first, that lies strictly
    /// between `t_min` and `t_max`.
    #[verifier::opaque]
    pub open spec fn first_root_within(&self, ray: &Ray, t_min: Fixed, t_max: Fixed) -> Option<Fixed> {
        let near = self.near_root(ray);
        let far = self.far_root(ray);
        if !self.crosses(ray) {
            None
        } else if t_min@ < near@ < t_max@ {
            Some(near)
        } else if t_min@ < far@ < t_max@ {
            Some(far)
        } else {
            None
        }
    }

    /// The sphere around `centre` with the given radius and material.
    pub fn new(centre: Vec3, radius: Fixed, material: Material) -> (s: Sphere)
        ensures
            s == (Sphere { centre, radius, material }),
    {
        Sphere { centre, radius, material }
    }

    /// Builds the intersection record for the ray parameter `t`.
    pub fn hit_from(&self, ray: &Ray, t: Fixed) -> (h: Hit)
        ensures
            h == self.hit_at(ray, t),
    {
        let point: Vec3 = ray.point_at_parameter(t);
        Hit { t, point, normal: (point - self.centre) / self.radius, material: self.material }
    }

    /// The nearer root is never larger than the farther one.
    pub proof fn lemma_roots_ordered(&self, ray: &Ray)
        requires
            self.quadratic_a(ray)@ > 0,
        ensures
            self.near_root(ray)@ <= self.far_root(ray)@,
    {
        let a = self.quadratic_a(ray);
        let nb = self.quadratic_b(ray).negated();
        let s = self.discriminant(ray).sqrt_spec();
        let lo = nb.minus(s);
        let hi = nb.plus(s);
        if self.discriminant(ray)@ > 0 {
            crate::numeric::root::lemma_floor_sqrt_nonnegative(self.discriminant(ray)@ * SCALE);
        }
        assert(s@ >= 0);
        assert(lo@ <= hi@);
        assert(lo@ * SCALE <= hi@ * SCALE) by (nonlinear_arith)
            requires
                lo@ <= hi@,
                SCALE > 0,
        ;
        lemma_quotient_monotone(lo@ * SCALE, hi@ * SCALE, a@);
    }

    /// Lowering the upper bound keeps a hit that is still below the bound and
    /// loses any other; it never produces a different hit.
    pub proof fn lemma_tighter_bound(&self, ray: &Ray, t_min: Fixed, t_max: Fixed, bound: Fixed)
        requires
            bound@ <= t_max@,
        ensures
            self.hit_spec(ray, t_min, bound) == match self.hit_spec(ray, t_min, t_max) {
                Some(h) => if h.t@ < bound@ {
                    Some(h)
                } else {
                    None
                },
                None => None,
            },
    {
        reveal(Sphere::first_root_within);
        if self.crosses(ray) {
            self.lemma_roots_ordered(ray);
        }
    }

    /// A hit lies strictly inside the interval it was asked for.
    pub proof fn lemma_hit_within(&self, ray: &Ray, t_min: Fixed, t_max: Fixed)
        ensures
            self.hit_spec(ray, t_min, t_max) matches Some(h) ==> t_min@ < h.t@ < t_max@,
    {
        reveal(Sphere::first_root_within);
    }
}

impl Hitable for Sphere {
    /// A ray whose line does not cross the sphere hits nothing; otherwise the
    /// hit is at the first root within the interval, if there is one.
    open spec fn hit_spec(&self, ray: &Ray, t_min: Fixed, t_max: Fixed) -> Option<Hit> {
        match self.first_root_within(ray, t_min, t_max) {
            Some(t) => Some(self.hit_at(ray, t)),
            None => None,
        }
    }

    fn hit(&self, ray: &Ray, t_min: Fixed, t_max: Fixed) -> (r: Option<Hit>)
        ensures
            !self.crosses(ray) ==> r is None,
            r matches Some(h) ==> {
                &&& h.t == self.near_root(ray) || h.t == self.far_root(ray)
                &&& h.point == ray.point_at_parameter_spec(h.t)
                &&& h.normal == h.point.minus(self.centre).over(self.radius)
                &&& h.material == self.material
            },
    {
        proof {
            reveal(Sphere::first_root_within);
        }
        let oc: Vec3 = ray.origin - self.centre;
        let a: Fixed = ray.direction.dot(&ray.direction);
        let b: Fixed = oc.dot(&ray.direction);
        let c: Fixed = oc.dot(&oc) - self.radius * self.radius;
        let discriminant: Fixed = b * b - a * c;

        if discriminant.is_positive() && a.is_positive() {
            let root: Fixed = discriminant.sqrt();
            let near: Fixed = (b.neg() - root) / a;
            let far: Fixed = (b.neg() + root) / a;
            if near.lt(t_max) && near.gt(t_min) {
                Some(self.hit_from(ray, near))
            } else if far.lt(t_max) && far.gt(t_min) {
                Some(self.hit_from(ray, far))
            } else {
                None
            }
        } else {
            None
        }
    }
}

} // verus!
