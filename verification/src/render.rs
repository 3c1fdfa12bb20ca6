//! The colour estimator: follows one ray through the scene, bounce by bounce.
//!
//! The colour of a ray is a function of the scene, the ray, the depth and the
//! random values that the materials draw along the way ([`color_along`]).
//! [`color_for_ray_with`] computes that function from given draws;
//! [`color_for_ray`] draws the values itself.

use crate::geometry::ray::Ray;
use crate::geometry::vec3::Vec3;
use crate::materials::{
    is_color, is_draw, is_passive, lemma_color_product, lemma_passive_attenuation, Scatter, Scatterable,
};
use crate::numeric::fixed::{Fixed, SCALE};
use crate::scenery::hitable::Hitable;
use crate::scenery::scene::{is_first_closest, lemma_closest_hit_is_closest, Scene};
use crate::scenery::sphere::Sphere;
use vstd::prelude::*;

verus! {

/// The number of bounces after which a ray that still hits something is black.
pub const MAX_DEPTH: u8 = 50;

/// The random values consumed by one bounce: a point inside the unit ball and
/// a number in `[0, 1)`.
#[derive(Clone, Copy, Debug, PartialEq, Eq, Structural)]
pub struct Draw {
    pub sample: Vec3,
    pub chance: Fixed,
}

/// The smallest ray parameter at which a hit counts: `1 / 1000`. It keeps a
/// scattered ray from hitting the surface it starts on.
pub open spec fn shadow_bias() -> Fixed {
    Fixed::from_int_spec(1).over(Fixed::from_int_spec(1000))
}

/// The colour `(0, 0, 0)`.
pub open spec fn black() -> Vec3 {
    Vec3 { x: Fixed { raw: 0 }, y: Fixed { raw: 0 }, z: Fixed { raw: 0 } }
}

/// The colour of the horizon: `(1, 1, 1)`.
pub open spec fn horizon() -> Vec3 {
    Vec3 { x: Fixed::from_int_spec(1), y: Fixed::from_int_spec(1), z: Fixed::from_int_spec(1) }
}

/// The colour of the zenith: `(1/2, 7/10, 1)`.
pub open spec fn zenith() -> Vec3 {
    Vec3 {
        x: Fixed::from_int_spec(1).over(Fixed::from_int_spec(2)),
        y: Fixed::from_int_spec(7).over(Fixed::from_int_spec(10)),
        z: Fixed::from_int_spec(1),
    }
}

/// How far up the sky a direction points, from 0 (straight down) to 1
/// (straight up): `(y + 1) / 2` for the `y` of the normalized direction.
pub open spec fn elevation(direction: Vec3) -> Fixed {
    Fixed::from_int_spec(1).over(Fixed::from_int_spec(2)).times(
        direction.normalize_spec().y.plus(Fixed::from_int_spec(1)),
    )
}

/// The colour of the sky in the given direction:
/// `(1 - t) * horizon + t * zenith` for `t = elevation(direction)`.
pub open spec fn background_spec(direction: Vec3) -> Vec3 {
    let t = elevation(direction);
    horizon().scaled(Fixed::from_int_spec(1).minus(t)).plus(zenith().scaled(t))
}

/// Whether `c` lies between the colour of the zenith and the colour of the
/// horizon, component by component.
pub open spec fn is_within_gradient(c: Vec3) -> bool {
    &&& zenith().x@ <= c.x@ <= horizon().x@
    &&& zenith().y@ <= c.y@ <= horizon().y@
    &&& zenith().z@ <= c.z@ <= horizon().z@
}

/// Every draw of the sequence is a point inside the unit ball with a number
/// in `[0, 1)`.
pub open spec fn are_draws(draws: Seq<Draw>) -> bool {
    forall|i: int| 0 <= i < draws.len() ==> is_draw(#[trigger] draws[i].sample, draws[i].chance)
}

/// The colour that arrives along `ray` when the bounces consume `draws` in
/// order.
///
/// A ray that hits nothing has the colour of the sky. A ray that hits a
/// surface after `MAX_DEPTH` bounces is black, and so is a ray whose draws have
/// run out. Otherwise the material of the surface scatters the ray with the
/// first draw: an absorbed ray is black, and a scattered one has the colour
/// of the scattered ray, one bounce deeper, attenuated by the material.
pub open spec fn color_along(scene: &Scene, ray: Ray, depth: u8, draws: Seq<Draw>) -> Vec3
    decreases MAX_DEPTH - depth,
{
    match scene.hit_spec(&ray, shadow_bias(), Fixed::top()) {
        None => background_spec(ray.direction),
        Some(hit) => {
            if depth >= MAX_DEPTH || draws.len() == 0 {
                black()
            } else {
                match hit.material.scatter_spec(&ray, &hit, draws[0].sample, draws[0].chance) {
                    None => black(),
                    Some(scatter) => scatter.attenuation.times(
                        color_along(scene, scatter.ray, (depth + 1) as u8, draws.skip(1)),
                    ),
                }
            }
        },
    }
}

/// Every material of the scene is passive.
pub open spec fn is_passive_scene(scene: &Scene) -> bool {
    forall|i: int| 0 <= i < scene@.len() ==> is_passive(#[trigger] scene@[i].material)
}

/// `count` draws of the centre of the ball and the number zero.
pub open spec fn idle_draws(count: nat) -> Seq<Draw> {
    Seq::new(count, |i: int| Draw { sample: black(), chance: Fixed { raw: 0 } })
}

/// The elevation of every direction lies between zero and one; only a
/// direction whose `y` is the smallest representable number can fall short of
/// zero, by one unit of the grid.
pub proof fn lemma_elevation_bounded(direction: Vec3)
    ensures
        -1 <= elevation(direction)@ <= SCALE,
        direction.y@ > i64::MIN ==> 0 <= elevation(direction)@,
        direction.normalize_spec().y@ == SCALE ==> elevation(direction)@ == SCALE,
        direction.normalize_spec().y@ == -SCALE ==> elevation(direction)@ == 0,
{
    assert(SCALE == 0x1_0000_0000);
    crate::geometry::vec3::lemma_normalize_bounded(direction);
    let y = direction.normalize_spec().y;
    let half = Fixed::from_int_spec(1).over(Fixed::from_int_spec(2));
    assert(half@ == 0x8000_0000);
    let w = y.plus(Fixed::from_int_spec(1));
    assert(w@ == y@ + SCALE);
    assert(half@ * w@ / (SCALE as int) == w@ / 2) by (nonlinear_arith)
        requires
            half@ == 0x8000_0000,
            SCALE == 0x1_0000_0000,
    ;
}

/// The colour of the sky lies between the colour of the zenith and the
/// colour of the horizon, component by component, whatever the direction.
pub proof fn lemma_background_within_gradient(direction: Vec3)
    ensures
        is_within_gradient(background_spec(direction)),
{
    assert(SCALE == 0x1_0000_0000);
    lemma_elevation_bounded(direction);
    let t = elevation(direction);
    let rest = Fixed::from_int_spec(1).minus(t);
    assert(rest@ == SCALE - t@);
    crate::numeric::fixed::lemma_times_one(rest);
    assert(horizon().scaled(rest) == (Vec3 { x: rest, y: rest, z: rest }));
    assert(zenith().x@ == 0x8000_0000);
    assert(zenith().y@ == 3006477107);
    assert(zenith().z@ == SCALE);
    lemma_blend_bounded(zenith().x@, t@);
    lemma_blend_bounded(zenith().y@, t@);
    lemma_blend_bounded(zenith().z@, t@);
}

/// Blending one with a value `c` between zero and one, in the proportion `t`,
/// gives a value between `c` and one.
pub proof fn lemma_blend_bounded(c: int, t: int)
    requires
        0 < c <= SCALE,
        -1 <= t <= SCALE,
    ensures
        c <= (SCALE - t) + (c * t) / (SCALE as int) <= SCALE,
{
    assert(SCALE == 0x1_0000_0000);
    let s = SCALE as int;
    if t >= 0 {
        assert(c * t <= s * t) by (nonlinear_arith)
            requires
                0 <= t,
                c <= s,
        ;
        crate::numeric::fixed::lemma_quotient_monotone(c * t, s * t, s);
        vstd::arithmetic::div_mod::lemma_div_multiples_vanish(t, s);
    } else {
        assert(c * t == -c) by (nonlinear_arith)
            requires
                t == -1,
        ;
    }
    let n = c + t - s;
    assert(s * n <= c * t) by (nonlinear_arith)
        requires
            n == c + t - s,
            c <= s,
            t <= s,
    ;
    crate::numeric::fixed::lemma_quotient_monotone(s * n, c * t, s);
    vstd::arithmetic::div_mod::lemma_div_multiples_vanish(n, s);
}

/// A direction that points straight up has the colour of the zenith.
pub proof fn lemma_background_at_zenith(direction: Vec3)
    requires
        direction.normalize_spec().y@ == SCALE,
    ensures
        background_spec(direction) == zenith(),
{
    assert(SCALE == 0x1_0000_0000);
    lemma_elevation_bounded(direction);
    let t = elevation(direction);
    assert(t == Fixed::from_int_spec(1));
    let rest = Fixed::from_int_spec(1).minus(t);
    assert(rest@ == 0);
    crate::numeric::fixed::lemma_times_zero(Fixed::from_int_spec(1));
    crate::numeric::fixed::lemma_times_one(zenith().x);
    crate::numeric::fixed::lemma_times_one(zenith().y);
    crate::numeric::fixed::lemma_times_one(zenith().z);
    assert(zenith().x@ == 0x8000_0000);
    assert(zenith().y@ == 3006477107);
}

/// A direction that points straight down has the colour of the horizon.
pub proof fn lemma_background_at_horizon(direction: Vec3)
    requires
        direction.normalize_spec().y@ == -SCALE,
    ensures
        background_spec(direction) == horizon(),
{
    assert(SCALE == 0x1_0000_0000);
    lemma_elevation_bounded(direction);
    let t = elevation(direction);
    assert(t@ == 0);
    let rest = Fixed::from_int_spec(1).minus(t);
    assert(rest == Fixed::from_int_spec(1));
    crate::numeric::fixed::lemma_times_one(Fixed::from_int_spec(1));
    crate::numeric::fixed::lemma_times_zero(zenith().x);
    crate::numeric::fixed::lemma_times_zero(zenith().y);
    crate::numeric::fixed::lemma_times_zero(zenith().z);
}

/// A hit of the scene carries the material of one of its spheres.
pub proof fn lemma_hit_material(scene: &Scene, ray: &Ray, t_min: Fixed, t_max: Fixed)
    ensures
        scene.hit_spec(ray, t_min, t_max) matches Some(h) ==> exists|i: int|
            0 <= i < scene@.len() && h.material == #[trigger] scene@[i].material,
{
    lemma_closest_hit_is_closest(scene@, *ray, t_min, t_max);
    if let Some(h) = scene.hit_spec(ray, t_min, t_max) {
        let i = choose|i: int| is_first_closest(scene@, *ray, t_min, t_max, h, i);
        reveal(Sphere::first_root_within);
        assert(scene@[i].hit_spec(ray, t_min, t_max) == Some(h));
        assert(h.material == scene@[i].material);
    }
}

/// In a scene of passive materials every ray has a colour: each component of
/// the result lies between zero and one, whatever is drawn.
pub proof fn lemma_color_is_color(scene: &Scene, ray: Ray, depth: u8, draws: Seq<Draw>)
    requires
        is_passive_scene(scene),
    ensures
        is_color(color_along(scene, ray, depth, draws)),
    decreases MAX_DEPTH - depth,
{
    assert(SCALE == 0x1_0000_0000);
    match scene.hit_spec(&ray, shadow_bias(), Fixed::top()) {
        None => {
            lemma_background_within_gradient(ray.direction);
            assert(zenith().x@ == 0x8000_0000);
            assert(zenith().y@ == 3006477107);
        },
        Some(hit) => {
            if depth >= MAX_DEPTH || draws.len() == 0 {
            } else {
                lemma_hit_material(scene, &ray, shadow_bias(), Fixed::top());
                lemma_passive_attenuation(hit.material, &ray, &hit, draws[0].sample, draws[0].chance);
                match hit.material.scatter_spec(&ray, &hit, draws[0].sample, draws[0].chance) {
                    None => {},
                    Some(scatter) => {
                        lemma_color_is_color(scene, scatter.ray, (depth + 1) as u8, draws.skip(1));
                        lemma_color_product(
                            scatter.attenuation,
                            color_along(scene, scatter.ray, (depth + 1) as u8, draws.skip(1)),
                        );
                    },
                }
            }
        },
    }
}

/// The colour of the sky in the given direction: a blend of the colours of
/// the horizon and of the zenith, by the height of the normalized direction.
pub fn background(direction: &Vec3) -> (c: Vec3)
    ensures
        c == background_spec(*direction),
        is_within_gradient(c),
        direction.normalize_spec().y@ == SCALE ==> c == zenith(),
        direction.normalize_spec().y@ == -SCALE ==> c == horizon(),
{
    proof {
        lemma_background_within_gradient(*direction);
        if direction.normalize_spec().y@ == SCALE {
            lemma_background_at_zenith(*direction);
        }
        if direction.normalize_spec().y@ == -SCALE {
            lemma_background_at_horizon(*direction);
        }
    }
    let base_color: Vec3 = Vec3::new(
        Fixed::from_int(1) / Fixed::from_int(2),
        Fixed::from_int(7) / Fixed::from_int(10),
        Fixed::from_int(1),
    );
    let unit_vector: Vec3 = Vec3::new(Fixed::from_int(1), Fixed::from_int(1), Fixed::from_int(1));
    let unit_direction: Vec3 = direction.normalize();
    let t: Fixed = Fixed::from_int(1) / Fixed::from_int(2) * (unit_direction.y + Fixed::from_int(1));
    (Fixed::from_int(1) - t) * unit_vector + t * base_color
}

/// The colour that arrives along `ray`, with the random values of the
/// bounces taken from `draws`, starting at index `next`.
fn color_from(ray: &Ray, scene: &Scene, depth: u8, draws: &Vec<Draw>, next: usize) -> (c: Vec3)
    requires
        next <= draws.len(),
    ensures
        c == color_along(scene, *ray, depth, draws@.skip(next as int)),
    decreases MAX_DEPTH - depth,
{
    let t_min: Fixed = Fixed::from_int(1) / Fixed::from_int(1000);
    match scene.hit(ray, t_min, Fixed::max_value()) {
        None => background(&ray.direction),
        Some(hit) => {
            if depth >= MAX_DEPTH || next >= draws.len() {
                Vec3::new(Fixed::zero(), Fixed::zero(), Fixed::zero())
            } else {
                let draw: Draw = draws[next];
                proof {
                    assert(draws@.skip(next as int)[0] == draws@[next as int]);
                    assert(draws@.skip(next as int).skip(1) =~= draws@.skip(next + 1));
                }
                match hit.material.scatter_with(ray, &hit, draw.sample, draw.chance) {
                    None => Vec3::new(Fixed::zero(), Fixed::zero(), Fixed::zero()),
                    Some(scatter) => scatter.attenuation * color_from(
                        &scatter.ray,
                        scene,
                        depth + 1,
                        draws,
                        next + 1,
                    ),
                }
            }
        },
    }
}

/// The colour that arrives along `ray` when the bounces consume `draws` in
/// order. A ray whose draws have run out is black.
pub fn color_for_ray_with(ray: &Ray, scene: &Scene, depth: u8, draws: &Vec<Draw>) -> (c: Vec3)
    ensures
        c == color_along(scene, *ray, depth, draws@),
        scene.hit_spec(ray, shadow_bias(), Fixed::top()) is None ==> c == background_spec(ray.direction)
            && is_within_gradient(c),
        scene.hit_spec(ray, shadow_bias(), Fixed::top()) is Some && depth >= MAX_DEPTH ==> c == black(),
        is_passive_scene(scene) ==> is_color(c),
{
    proof {
        lemma_background_within_gradient(ray.direction);
        assert(draws@.skip(0) =~= draws@);
        if is_passive_scene(scene) {
            lemma_color_is_color(scene, *ray, depth, draws@);
        }
    }
    color_from(ray, scene, depth, draws, 0)
}

/// The centre of the ball with the number zero is a draw.
pub proof fn lemma_idle_draws(count: nat)
    ensures
        are_draws(idle_draws(count)),
        idle_draws(count).len() == count,
{
    crate::materials::lemma_centre_is_cube_point();
    assert(SCALE == 0x1_0000_0000);
    assert(is_draw(black(), Fixed { raw: 0 }));
}

/// The colour that arrives along `ray`, each material drawing its random
/// values as the ray reaches it. The result is the colour along the ray for
/// some sequence of draws, one for each bounce that is left.
pub fn color_for_ray(ray: &Ray, scene: &Scene, depth: u8) -> (c: Vec3)
    ensures
        exists|draws: Seq<Draw>|
            are_draws(draws) && draws.len() + depth >= MAX_DEPTH && c == #[trigger] color_along(
                scene,
                *ray,
                depth,
                draws,
            ),
        scene.hit_spec(ray, shadow_bias(), Fixed::top()) is None ==> c == background_spec(ray.direction)
            && is_within_gradient(c),
        scene.hit_spec(ray, shadow_bias(), Fixed::top()) is Some && depth >= MAX_DEPTH ==> c == black(),
        is_passive_scene(scene) ==> is_color(c),
    decreases MAX_DEPTH - depth,
{
    proof {
        lemma_background_within_gradient(ray.direction);
        if is_passive_scene(scene) {
            assert forall|draws: Seq<Draw>| is_color(#[trigger] color_along(scene, *ray, depth, draws)) by {
                lemma_color_is_color(scene, *ray, depth, draws);
            }
        }
    }
    let t_min: Fixed = Fixed::from_int(1) / Fixed::from_int(1000);
    let ghost filler: Seq<Draw> = idle_draws(MAX_DEPTH as nat);
    proof {
        lemma_idle_draws(MAX_DEPTH as nat);
    }
    match scene.hit(ray, t_min, Fixed::max_value()) {
        None => {
            let c: Vec3 = background(&ray.direction);
            assert(c == color_along(scene, *ray, depth, filler));
            c
        },
        Some(hit) => {
            if depth >= MAX_DEPTH {
                let c: Vec3 = Vec3::new(Fixed::zero(), Fixed::zero(), Fixed::zero());
                assert(c == color_along(scene, *ray, depth, filler));
                c
            } else {
                let scattered: Option<Scatter> = hit.material.scatter(ray, &hit);
                let ghost (sample, chance) = choose|sample: Vec3, chance: Fixed|
                    is_draw(sample, chance) && scattered == #[trigger] hit.material.scatter_spec(
                        ray,
                        &hit,
                        sample,
                        chance,
                    );
                let ghost first: Draw = Draw { sample, chance };
                match scattered {
                    None => {
                        let c: Vec3 = Vec3::new(Fixed::zero(), Fixed::zero(), Fixed::zero());
                        proof {
                            let draws = seq![first].add(filler);
                            assert(draws[0] == first);
                            assert(are_draws(draws));
                            assert(c == color_along(scene, *ray, depth, draws));
                        }
                        c
                    },
                    Some(scatter) => {
                        let inner: Vec3 = color_for_ray(&scatter.ray, scene, depth + 1);
                        let c: Vec3 = scatter.attenuation * inner;
                        proof {
                            let rest = choose|rest: Seq<Draw>|
                                are_draws(rest) && rest.len() + (depth + 1) >= MAX_DEPTH && inner
                                    == #[trigger] color_along(scene, scatter.ray, (depth + 1) as u8, rest);
                            let draws = seq![first].add(rest);
                            assert(draws[0] == first);
                            assert(draws.skip(1) =~= rest);
                            assert(are_draws(draws)) by {
                                assert forall|i: int| 0 <= i < draws.len() implies is_draw(
                                    #[trigger] draws[i].sample,
                                    draws[i].chance,
                                ) by {
                                    if i > 0 {
                                        assert(draws[i] == rest[i - 1]);
                                    }
                                }
                            }
                            assert(c == color_along(scene, *ray, depth, draws));
                        }
                        c
                    },
                }
            }
        },
    }
}

} // verus!
