//! A thin-lens camera.

use crate::geometry::ray::Ray;
use crate::geometry::vec3::Vec3;
use crate::numeric::fixed::{Fixed, SCALE};
use crate::random::{is_fraction, random_fraction, SAMPLING_ATTEMPTS};
use vstd::prelude::*;

verus! {

/// A camera: the eye, the corner and the two edges of the screen in the plane
/// of focus, the radius of the lens, and the basis `w` (from the target back
/// to the eye), `u` (right) and `v` (up), which is orthonormal up to rounding.
#[derive(Clone, Copy, Debug, PartialEq, Eq, Structural)]
pub struct Camera {
    pub lower_left_corner: Vec3,
    pub horizontal_offset: Vec3,
    pub vertical_offset: Vec3,
    pub origin: Vec3,
    pub lens_radius: Fixed,
    pub w: Vec3,
    pub u: Vec3,
    pub v: Vec3,
}

/// Each component has a magnitude of at most `2^28`, so that sums and
/// differences of a few such vectors do not saturate.
pub open spec fn is_moderate(p: Vec3) -> bool {
    &&& -0x1000_0000_0000_0000 <= p.x@ <= 0x1000_0000_0000_0000
    &&& -0x1000_0000_0000_0000 <= p.y@ <= 0x1000_0000_0000_0000
    &&& -0x1000_0000_0000_0000 <= p.z@ <= 0x1000_0000_0000_0000
}

/// The point lies in the plane `z = 0`, strictly inside the unit disk.
pub open spec fn in_unit_disk(p: Vec3) -> bool {
    p.z@ == 0 && p.dot_spec(&p)@ < SCALE
}

/// The point `(2a - 1, 2b - 1, 0)` of the square `[-1, 1)^2`.
pub open spec fn square_point(a: Fixed, b: Fixed) -> Vec3 {
    Vec3 { x: a, y: b, z: Fixed { raw: 0 } }.scaled(Fixed::from_int_spec(2)).minus(
        Vec3 { x: Fixed::from_int_spec(1), y: Fixed::from_int_spec(1), z: Fixed { raw: 0 } },
    )
}

/// Maps two fractions to a point of the square `[-1, 1)^2` and tells whether
/// the point lies inside the unit disk.
pub fn disk_candidate(a: Fixed, b: Fixed) -> (r: (Vec3, bool))
    ensures
        r.0 == square_point(a, b),
        r.1 == in_unit_disk(r.0),
{
    let p: Vec3 = Fixed::from_int(2) * Vec3::new(a, b, Fixed::zero()) - Vec3::new(
        Fixed::from_int(1),
        Fixed::from_int(1),
        Fixed::zero(),
    );
    proof {
        assert(2 * SCALE * 0 / (SCALE as int) == 0) by (nonlinear_arith)
            requires
                SCALE == 0x1_0000_0000,
        ;
    }
    (p, p.dot(&p).lt(Fixed::one()))
}

/// The point is a point of the square `[-1, 1)^2` that sampling can draw: the
/// image of two fractions.
pub open spec fn is_square_point(p: Vec3) -> bool {
    exists|a: Fixed, b: Fixed| is_fraction(a) && is_fraction(b) && p == #[trigger] square_point(a, b)
}

/// The centre of the disk is the square point of two halves.
pub proof fn lemma_centre_is_square_point()
    ensures
        is_square_point(Vec3 { x: Fixed::from_int_spec(0), y: Fixed::from_int_spec(0), z: Fixed::from_int_spec(0) }),
        in_unit_disk(Vec3 { x: Fixed::from_int_spec(0), y: Fixed::from_int_spec(0), z: Fixed::from_int_spec(0) }),
{
    assert(SCALE == 0x1_0000_0000);
    let half = Fixed { raw: 0x8000_0000 };
    assert(half@ * (2 * SCALE) / (SCALE as int) == SCALE) by (nonlinear_arith)
        requires
            half@ == 0x8000_0000,
            SCALE == 0x1_0000_0000,
    ;
    assert(0 * (2 * SCALE) / (SCALE as int) == 0) by (nonlinear_arith)
        requires
            SCALE == 0x1_0000_0000,
    ;
    let centre = square_point(half, half);
    assert(centre.x@ == 0 && centre.y@ == 0 && centre.z@ == 0);
    assert(is_fraction(half));
    assert(0int * 0int == 0) by (nonlinear_arith);
}

/// A random point inside the unit disk, found by drawing points of the square
/// `[-1, 1)^2` until one lies inside the disk. After `SAMPLING_ATTEMPTS`
/// failures the centre of the disk is returned.
pub fn random_point_in_unit_disk() -> (p: Vec3)
    ensures
        in_unit_disk(p),
        is_square_point(p),
{
    let mut attempt: u32 = 0;
    while attempt < SAMPLING_ATTEMPTS
        invariant
            attempt <= SAMPLING_ATTEMPTS,
        decreases SAMPLING_ATTEMPTS - attempt,
    {
        let a: Fixed = random_fraction();
        let b: Fixed = random_fraction();
        let candidate: (Vec3, bool) = disk_candidate(a, b);
        if candidate.1 {
            assert(is_fraction(a) && is_fraction(b) && candidate.0 == square_point(a, b));
            return candidate.0;
        }
        attempt += 1;
    }
    proof {
        lemma_centre_is_square_point();
    }
    Vec3::new(Fixed::zero(), Fixed::zero(), Fixed::zero())
}

impl Camera {
    /// The camera at `look_from` that looks at `look_at` with `view_up`
    /// pointing up on the screen.
    ///
    /// `half_height` is the tangent of half the vertical field of view and
    /// `aspect` the width of the screen divided by its height. The lens has
    /// diameter `aperture` and is focused at `focus_distance`.
    pub open spec fn new_spec(
        look_from: Vec3,
        look_at: Vec3,
        view_up: Vec3,
        half_height: Fixed,
        aspect: Fixed,
        aperture: Fixed,
        focus_distance: Fixed,
    ) -> Camera {
        let two = Fixed::from_int_spec(2);
        let half_width = aspect.times(half_height);
        let w = look_from.minus(look_at).normalize_spec();
        let u = view_up.cross_spec(&w).normalize_spec();
        let v = w.cross_spec(&u);
        Camera {
            lower_left_corner: look_from.minus(u.scaled(half_width).scaled(focus_distance)).minus(
                v.scaled(half_height).scaled(focus_distance),
            ).minus(w.scaled(focus_distance)),
            horizontal_offset: u.scaled(two.times(half_width)).scaled(focus_distance),
            vertical_offset: v.scaled(two.times(half_height)).scaled(focus_distance),
            origin: look_from,
            lens_radius: aperture.over(two),
            w,
            u,
            v,
        }
    }

    /// The displacement of the ray origin on the lens for the point `lens` of
    /// the unit disk.
    pub open spec fn lens_offset(&self, lens: Vec3) -> Vec3 {
        let scaled = lens.scaled(self.lens_radius);
        self.u.scaled(scaled.x).plus(self.v.scaled(scaled.y))
    }

    /// The point of the plane of focus seen at the screen coordinates `(s, t)`.
    pub open spec fn screen_point(&self, s: Fixed, t: Fixed) -> Vec3 {
        self.lower_left_corner.plus(self.horizontal_offset.scaled(s)).plus(self.vertical_offset.scaled(t))
    }

    /// The ray through the screen coordinates `(s, t)` that leaves the lens at
    /// the point `lens` of the unit disk: it starts at the eye displaced by the
    /// lens offset and aims at the screen point.
    pub open spec fn ray_through(&self, s: Fixed, t: Fixed, lens: Vec3) -> Ray {
        let offset = self.lens_offset(lens);
        Ray {
            origin: self.origin.plus(offset),
            direction: self.screen_point(s, t).minus(self.origin).minus(offset),
        }
    }

    /// Without a lens (radius zero) every ray starts at the eye and aims at
    /// the screen point, whatever point of the lens is drawn.
    pub proof fn lemma_pinhole(&self, s: Fixed, t: Fixed, lens: Vec3)
        requires
            self.lens_radius@ == 0,
        ensures
            self.ray_through(s, t, lens) == (Ray {
                origin: self.origin,
                direction: self.screen_point(s, t).minus(self.origin),
            }),
    {
        crate::numeric::fixed::lemma_times_zero(lens.x);
        crate::numeric::fixed::lemma_times_zero(lens.y);
        let scaled = lens.scaled(self.lens_radius);
        assert(scaled.x@ == 0 && scaled.y@ == 0);
        crate::numeric::fixed::lemma_times_zero(self.u.x);
        crate::numeric::fixed::lemma_times_zero(self.u.y);
        crate::numeric::fixed::lemma_times_zero(self.u.z);
        crate::numeric::fixed::lemma_times_zero(self.v.x);
        crate::numeric::fixed::lemma_times_zero(self.v.y);
        crate::numeric::fixed::lemma_times_zero(self.v.z);
        let offset = self.lens_offset(lens);
        assert(offset.x@ == 0 && offset.y@ == 0 && offset.z@ == 0);
    }

    /// Focus is exact: whatever point of the lens a ray leaves from, at
    /// parameter one it passes through the screen point, as long as the eye,
    /// the lens offset and the screen point are small enough for their sums
    /// and differences not to saturate.
    pub proof fn lemma_focus_is_exact(&self, s: Fixed, t: Fixed, lens: Vec3)
        requires
            is_moderate(self.origin),
            is_moderate(self.lens_offset(lens)),
            is_moderate(self.screen_point(s, t)),
        ensures
            self.ray_through(s, t, lens).point_at_parameter_spec(Fixed::from_int_spec(1)) == self.screen_point(
                s,
                t,
            ),
    {
        let ray = self.ray_through(s, t, lens);
        crate::numeric::fixed::lemma_times_one(ray.direction.x);
        crate::numeric::fixed::lemma_times_one(ray.direction.y);
        crate::numeric::fixed::lemma_times_one(ray.direction.z);
    }

    /// Builds a camera. `half_height` is the tangent of half the vertical
    /// field of view. If `look_from` equals `look_at`, or if the viewing
    /// direction is parallel to `view_up`, the basis degenerates to zero vectors.
    #[verifier::when_used_as_spec(new_spec)]
    pub fn new(
        look_from: Vec3,
        look_at: Vec3,
        view_up: Vec3,
        half_height: Fixed,
        aspect: Fixed,
        aperture: Fixed,
        focus_distance: Fixed,
    ) -> (camera: Camera)
        ensures
            camera == Camera::new_spec(
                look_from,
                look_at,
                view_up,
                half_height,
                aspect,
                aperture,
                focus_distance,
            ),
    {
        let two: Fixed = Fixed::from_int(2);
        let lens_radius: Fixed = aperture / two;
        let half_width: Fixed = aspect * half_height;

        let w: Vec3 = (look_from - look_at).normalize();
        let u: Vec3 = view_up.cross(&w).normalize();
        let v: Vec3 = w.cross(&u);

        Camera {
            lower_left_corner: look_from - half_width * u * focus_distance - half_height * v
                * focus_distance - w * focus_distance,
            horizontal_offset: two * half_width * u * focus_distance,
            vertical_offset: two * half_height * v * focus_distance,
            origin: look_from,
            lens_radius,
            w,
            u,
            v,
        }
    }

    /// The ray through the screen coordinates `(s, t)` that leaves the lens at
    /// the point `lens` of the unit disk.
    pub fn cast_ray_through(&self, s: Fixed, t: Fixed, lens: Vec3) -> (r: Ray)
        ensures
            r == self.ray_through(s, t, lens),
    {
        let random_point: Vec3 = self.lens_radius * lens;
        let offset: Vec3 = self.u * random_point.x + self.v * random_point.y;
        Ray::new(
            self.origin + offset,
            self.lower_left_corner + s * self.horizontal_offset + t * self.vertical_offset - self.origin
                - offset,
        )
    }

    /// The ray through the screen coordinates `(s, t)`, where `(0, 0)` is the
    /// lower left corner of the screen and `(1, 1)` the upper right one. The
    /// ray leaves the lens at a random point.
    pub fn cast_ray(&self, s: Fixed, t: Fixed) -> (r: Ray)
        ensures
            exists|lens: Vec3|
                in_unit_disk(lens) && is_square_point(lens) && r == #[trigger] self.ray_through(s, t, lens),
            self.lens_radius@ == 0 ==> r == (Ray {
                origin: self.origin,
                direction: self.screen_point(s, t).minus(self.origin),
            }),
    {
        let lens: Vec3 = random_point_in_unit_disk();
        proof {
            if self.lens_radius@ == 0 {
                self.lemma_pinhole(s, t, lens);
            }
        }
        self.cast_ray_through(s, t, lens)
    }
}

} // verus!
