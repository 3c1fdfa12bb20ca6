//! Surface materials: how a ray that hits a surface is scattered.
//!
//! Scattering is random. Each material states its outcome as a function of the
//! random values it consumes (`scatter_spec`), computes that function from given
//! values (`scatter_with`), and draws the values itself (`scatter`).
//!
//! The normal of a hit always points out of the surface; a material that cares
//! from which side the ray arrives looks at the sign of `direction . normal`.

pub mod diaelectric;
pub mod lambertian;
pub mod metal;
pub mod reflection;

use crate::geometry::ray::Ray;
use crate::geometry::vec3::Vec3;
use crate::materials::diaelectric::Diaelectric;
use crate::materials::lambertian::Lambertian;
use crate::materials::metal::Metal;
use crate::numeric::fixed::{Fixed, SCALE};
use crate::random::{is_fraction, random_fraction, SAMPLING_ATTEMPTS};
use crate::scenery::hitable::Hit;
use vstd::prelude::*;

verus! {

/// The outcome of scattering: the outgoing ray and the colour by which the
/// light it carries is multiplied, component by component.
#[derive(Clone, Copy, Debug, PartialEq, Eq, Structural)]
pub struct Scatter {
    pub ray: Ray,
    pub attenuation: Vec3,
}

/// The material of a surface.
#[derive(Clone, Copy, Debug, PartialEq, Eq, Structural)]
pub enum Material {
    Lambertian(Lambertian),
    Metal(Metal),
    Diaelectric(Diaelectric),
}

/// The point lies strictly inside the unit ball.
pub open spec fn in_unit_ball(p: Vec3) -> bool {
    p.squared_length_spec()@ < SCALE
}

/// `sample` and `chance` are values that scattering may draw: a point of the
/// cube `[-1, 1)^3` that lies inside the unit ball, and a number in `[0, 1)`.
pub open spec fn is_draw(sample: Vec3, chance: Fixed) -> bool {
    in_unit_ball(sample) && is_cube_point(sample) && is_fraction(chance)
}

/// Each component lies between zero and one.
pub open spec fn is_color(c: Vec3) -> bool {
    &&& 0 <= c.x@ <= SCALE
    &&& 0 <= c.y@ <= SCALE
    &&& 0 <= c.z@ <= SCALE
}

/// The material never reflects more light than arrives: its albedo, if it has
/// one, is a colour.
pub open spec fn is_passive(material: Material) -> bool {
    match material {
        Material::Lambertian(m) => is_color(m.albedo),
        Material::Metal(m) => is_color(m.albedo),
        Material::Diaelectric(_) => true,
    }
}

/// A passive material attenuates by a colour.
pub proof fn lemma_passive_attenuation(material: Material, ray: &Ray, hit: &Hit, sample: Vec3, chance: Fixed)
    requires
        is_passive(material),
    ensures
        material.scatter_spec(ray, hit, sample, chance) matches Some(s) ==> is_color(s.attenuation),
{
    assert(SCALE == 0x1_0000_0000);
}

/// The component-wise product of two colours is a colour, and no brighter
/// than the first.
pub proof fn lemma_color_product(a: Vec3, b: Vec3)
    requires
        is_color(a),
        is_color(b),
    ensures
        is_color(a.times(b)),
        a.times(b).x@ <= a.x@,
        a.times(b).y@ <= a.y@,
        a.times(b).z@ <= a.z@,
{
    crate::numeric::fixed::lemma_fraction_product(a.x, b.x);
    crate::numeric::fixed::lemma_fraction_product(a.y, b.y);
    crate::numeric::fixed::lemma_fraction_product(a.z, b.z);
}

/// A surface that scatters light. Materials are never changed after they are
/// made and can be shared between threads.
pub trait Scatterable: Sync {
    /// The outcome of scattering `ray` at `hit` when the random point drawn is
    /// `sample` and the random number drawn is `chance`. `None` means that the
    /// ray is absorbed.
    spec fn scatter_spec(&self, ray: &Ray, hit: &Hit, sample: Vec3, chance: Fixed) -> Option<Scatter>;

    /// Scatters `ray` at `hit` with the given random values.
    fn scatter_with(&self, ray: &Ray, hit: &Hit, sample: Vec3, chance: Fixed) -> (r: Option<Scatter>)
        ensures
            r == self.scatter_spec(ray, hit, sample, chance),
    ;

    /// Scatters `ray` at `hit`, drawing the random values it needs. The result
    /// is the outcome for some point inside the unit ball and some number in
    /// `[0, 1)`.
    fn scatter(&self, ray: &Ray, hit: &Hit) -> (r: Option<Scatter>)
        ensures
            exists|sample: Vec3, chance: Fixed|
                is_draw(sample, chance) && r == #[trigger] self.scatter_spec(ray, hit, sample, chance),
    ;
}

/// The point `(2a - 1, 2b - 1, 2c - 1)` of the cube `[-1, 1)^3`.
pub open spec fn cube_point(a: Fixed, b: Fixed, c: Fixed) -> Vec3 {
    Vec3 { x: a, y: b, z: c }.scaled(Fixed::from_int_spec(2)).minus(
        Vec3 { x: Fixed::from_int_spec(1), y: Fixed::from_int_spec(1), z: Fixed::from_int_spec(1) },
    )
}

/// Maps three fractions to a point of the cube `[-1, 1)^3` and tells whether
/// the point lies inside the unit ball.
pub fn ball_candidate(a: Fixed, b: Fixed, c: Fixed) -> (r: (Vec3, bool))
    ensures
        r.0 == cube_point(a, b, c),
        r.1 == in_unit_ball(r.0),
{
    let p: Vec3 = Fixed::from_int(2) * Vec3::new(a, b, c) - Vec3::new(
        Fixed::from_int(1),
        Fixed::from_int(1),
        Fixed::from_int(1),
    );
    (p, p.squared_length().lt(Fixed::one()))
}

/// The point is a point of the cube `[-1, 1)^3` that sampling can draw: the
/// image of three fractions.
pub open spec fn is_cube_point(p: Vec3) -> bool {
    exists|a: Fixed, b: Fixed, c: Fixed|
        is_fraction(a) && is_fraction(b) && is_fraction(c) && p == #[trigger] cube_point(a, b, c)
}

/// The centre of the ball is the cube point of three halves.
pub proof fn lemma_centre_is_cube_point()
    ensures
        is_cube_point(Vec3 { x: Fixed::from_int_spec(0), y: Fixed::from_int_spec(0), z: Fixed::from_int_spec(0) }),
        in_unit_ball(Vec3 { x: Fixed::from_int_spec(0), y: Fixed::from_int_spec(0), z: Fixed::from_int_spec(0) }),
{
    assert(SCALE == 0x1_0000_0000);
    let half = Fixed { raw: 0x8000_0000 };
    assert(half@ * (2 * SCALE) / (SCALE as int) == SCALE) by (nonlinear_arith)
        requires
            half@ == 0x8000_0000,
            SCALE == 0x1_0000_0000,
    ;
    let centre = cube_point(half, half, half);
    assert(centre.x@ == 0 && centre.y@ == 0 && centre.z@ == 0);
    assert(is_fraction(half));
    assert(0int * 0int == 0) by (nonlinear_arith);
}

/// A random point inside the unit ball, found by drawing points of the cube
/// `[-1, 1)^3` until one lies inside the ball. After `SAMPLING_ATTEMPTS`
/// failures the centre of the ball is returned.
pub fn random_point_in_sphere() -> (p: Vec3)
    ensures
        in_unit_ball(p),
        is_cube_point(p),
{
    let mut attempt: u32 = 0;
    while attempt < SAMPLING_ATTEMPTS
        invariant
            attempt <= SAMPLING_ATTEMPTS,
        decreases SAMPLING_ATTEMPTS - attempt,
    {
        let a: Fixed = random_fraction();
        let b: Fixed = random_fraction();
        let c: Fixed = random_fraction();
        let candidate: (Vec3, bool) = ball_candidate(a, b, c);
        if candidate.1 {
            assert(is_fraction(a) && is_fraction(b) && is_fraction(c) && candidate.0 == cube_point(a, b, c));
            return candidate.0;
        }
        attempt += 1;
    }
    proof {
        lemma_centre_is_cube_point();
    }
    Vec3::new(Fixed::zero(), Fixed::zero(), Fixed::zero())
}

impl Scatterable for Material {
    open spec fn scatter_spec(&self, ray: &Ray, hit: &Hit, sample: Vec3, chance: Fixed) -> Option<Scatter> {
        match self {
            Material::Lambertian(m) => m.scatter_spec(ray, hit, sample, chance),
            Material::Metal(m) => m.scatter_spec(ray, hit, sample, chance),
            Material::Diaelectric(m) => m.scatter_spec(ray, hit, sample, chance),
        }
    }

    fn scatter_with(&self, ray: &Ray, hit: &Hit, sample: Vec3, chance: Fixed) -> (r: Option<Scatter>) {
        match self {
            Material::Lambertian(m) => m.scatter_with(ray, hit, sample, chance),
            Material::Metal(m) => m.scatter_with(ray, hit, sample, chance),
            Material::Diaelectric(m) => m.scatter_with(ray, hit, sample, chance),
        }
    }

    fn scatter(&self, ray: &Ray, hit: &Hit) -> (r: Option<Scatter>) {
        match self {
            Material::Lambertian(m) => {
                let r = m.scatter(ray, hit);
                proof {
                    let (sample, chance) = choose|sample: Vec3, chance: Fixed|
                        is_draw(sample, chance) && r == #[trigger] m.scatter_spec(ray, hit, sample, chance);
                    assert(r == self.scatter_spec(ray, hit, sample, chance));
                }
                r
            },
            Material::Metal(m) => {
                let r = m.scatter(ray, hit);
                proof {
                    let (sample, chance) = choose|sample: Vec3, chance: Fixed|
                        is_draw(sample, chance) && r == #[trigger] m.scatter_spec(ray, hit, sample, chance);
                    assert(r == self.scatter_spec(ray, hit, sample, chance));
                }
                r
            },
            Material::Diaelectric(m) => {
                let r = m.scatter(ray, hit);
                proof {
                    let (sample, chance) = choose|sample: Vec3, chance: Fixed|
                        is_draw(sample, chance) && r == #[trigger] m.scatter_spec(ray, hit, sample, chance);
                    assert(r == self.scatter_spec(ray, hit, sample, chance));
                }
                r
            },
        }
    }
}

} // verus!
