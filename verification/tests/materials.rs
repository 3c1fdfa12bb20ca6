use pathtracer::geometry::ray::Ray;
use pathtracer::geometry::vec3::Vec3;
use pathtracer::materials::diaelectric::{fifth_power, refract, shlick, Diaelectric};
use pathtracer::materials::lambertian::Lambertian;
use pathtracer::materials::metal::Metal;
use pathtracer::materials::reflection::reflect;
use pathtracer::materials::{ball_candidate, random_point_in_sphere, Material, Scatter, Scatterable};
use pathtracer::numeric::fixed::Fixed;
use pathtracer::scenery::hitable::Hit;

fn fixed(x: f64) -> Fixed {
    Fixed::from_raw((x * 4294967296.0).round() as i64)
}

fn vec3(x: f64, y: f64, z: f64) -> Vec3 {
    Vec3::new(fixed(x), fixed(y), fixed(z))
}

fn raw(x: i64, y: i64, z: i64) -> Vec3 {
    Vec3::new(Fixed::from_raw(x), Fixed::from_raw(y), Fixed::from_raw(z))
}

fn grey() -> Lambertian {
    Lambertian { albedo: vec3(0.5, 0.5, 0.5) }
}

fn gold(fuzz: f64) -> Metal {
    Metal { albedo: vec3(0.7, 0.6, 0.5), fuzz: fixed(fuzz) }
}

fn glass() -> Diaelectric {
    Diaelectric { refraction_index: fixed(1.5) }
}

/// A hit at (0, 0, -1) on a surface whose normal is `normal`.
fn hit_with_normal(normal: Vec3, material: Material) -> Hit {
    Hit { t: fixed(1.0), point: vec3(0.0, 0.0, -1.0), normal, material }
}

fn incoming(direction: Vec3) -> Ray {
    Ray::new(vec3(0.0, 0.0, 0.0), direction)
}

#[test]
fn reflect_mirrors_about_the_normal() {
    assert_eq!(reflect(&vec3(1.0, -1.0, 0.0), &vec3(0.0, 1.0, 0.0)), vec3(1.0, 1.0, 0.0));
    assert_eq!(reflect(&vec3(0.5, -0.25, 2.0), &vec3(0.0, 0.0, 1.0)), vec3(0.5, -0.25, -2.0));
    assert_eq!(reflect(&vec3(0.5, -0.25, 2.0), &vec3(0.0, 0.0, -1.0)), vec3(0.5, -0.25, -2.0));
    assert_eq!(reflect(&vec3(0.0, 0.0, 0.0), &vec3(1.0, 0.0, 0.0)), vec3(0.0, 0.0, 0.0));
}

#[test]
fn reflect_negates_the_component_along_a_unit_normal() {
    let normals = [
        vec3(1.0, 0.0, 0.0),
        vec3(-1.0, 0.0, 0.0),
        vec3(0.0, 1.0, 0.0),
        vec3(0.0, -1.0, 0.0),
        vec3(0.0, 0.0, 1.0),
        vec3(0.0, 0.0, -1.0),
    ];
    let vectors = [
        vec3(0.6, -0.8, 0.0),
        vec3(0.123456789, 0.987654321, -0.5),
        raw(1, -1, 3),
        raw(2576980377, 3435973836, 0),
        vec3(1e6, -2e6, 3e6),
        raw((1 << 62) - 1, -(1 << 62) + 1, 0),
    ];
    for n in normals.iter() {
        for v in vectors.iter() {
            assert_eq!(reflect(v, n).dot(n), -v.dot(n));
        }
    }
}

#[test]
fn reflect_about_a_rounded_normal_is_off_by_a_unit_of_the_grid() {
    let n = vec3(3.0, 4.0, 0.0).normalize();
    let v = vec3(1.0, -2.0, 0.5).normalize();
    assert_eq!(reflect(&v, &n).dot(&n), Fixed::from_raw(1874477404));
    assert_eq!(-v.dot(&n), Fixed::from_raw(1874477405));
}

#[test]
fn normalized_vectors_are_unit_up_to_nine_units_of_the_grid() {
    let one: i128 = 1 << 32;
    for i in -6..=6 {
        for j in -6..=6 {
            for k in 1..=6 {
                let n = vec3(i as f64 * 0.37, j as f64 * 1.3, k as f64 * 0.61).normalize();
                let (x, y, z) = (n.x.raw as i128, n.y.raw as i128, n.z.raw as i128);
                let excess = x * x + y * y + z * z - one * one;
                assert!(-9 * one <= excess && excess <= 9 * one);
            }
        }
    }
}

#[test]
fn reflect_about_rounded_normals_is_off_by_a_few_units_of_the_grid() {
    for i in -6..=6 {
        for j in -6..=6 {
            for k in 1..=6 {
                let n = vec3(i as f64 * 0.37, j as f64 * 1.3, k as f64 * 0.61).normalize();
                let v = vec3(k as f64 * 0.21, i as f64 * 0.9 + 0.1, j as f64 * 0.43).normalize();
                let difference = reflect(&v, &n).dot(&n).raw - (-v.dot(&n)).raw;
                assert!(-58 <= difference && difference <= 58);
            }
        }
    }
}

#[test]
fn lambertian_scatters_towards_normal_plus_sample() {
    let hit = hit_with_normal(vec3(0.0, 0.0, 1.0), Material::Lambertian(grey()));
    let scatter = grey()
        .scatter_with(&incoming(vec3(0.0, 0.0, -1.0)), &hit, vec3(0.25, -0.5, 0.125), fixed(0.9))
        .unwrap();
    assert_eq!(
        scatter,
        Scatter { ray: Ray::new(vec3(0.0, 0.0, -1.0), vec3(0.25, -0.5, 1.125)), attenuation: vec3(0.5, 0.5, 0.5) }
    );
}

#[test]
fn lambertian_ignores_the_incoming_direction() {
    let hit = hit_with_normal(vec3(0.0, 0.0, 1.0), Material::Lambertian(grey()));
    let sample = vec3(0.25, -0.5, 0.125);
    let a = grey().scatter_with(&incoming(vec3(0.0, 0.0, -1.0)), &hit, sample, fixed(0.0));
    let b = grey().scatter_with(&incoming(vec3(5.0, 3.0, 1.0)), &hit, sample, fixed(0.5));
    assert_eq!(a, b);
}

#[test]
fn lambertian_scatter_draws_a_point_of_the_unit_ball() {
    let hit = hit_with_normal(vec3(0.0, 0.0, 1.0), Material::Lambertian(grey()));
    for _ in 0..200 {
        let scatter = grey().scatter(&incoming(vec3(0.0, 0.0, -1.0)), &hit).unwrap();
        assert_eq!(scatter.ray.origin, hit.point);
        assert_eq!(scatter.attenuation, vec3(0.5, 0.5, 0.5));
        let sample = scatter.ray.direction - hit.normal;
        assert!(sample.squared_length().lt(Fixed::one()));
    }
}

#[test]
fn metal_without_fuzz_is_a_mirror() {
    let hit = hit_with_normal(vec3(0.0, 0.0, 1.0), Material::Metal(gold(0.0)));
    let scatter = gold(0.0)
        .scatter_with(&incoming(vec3(1.0, 0.0, -1.0)), &hit, vec3(0.3, 0.3, 0.3), fixed(0.0))
        .unwrap();
    // The normalized direction (1, 0, -1) / sqrt(2), with z negated.
    assert_eq!(scatter.ray, Ray::new(vec3(0.0, 0.0, -1.0), raw(3037000500, 0, 3037000501)));
    assert_eq!(scatter.attenuation, vec3(0.7, 0.6, 0.5));
}

#[test]
fn metal_with_fuzz_perturbs_the_reflection() {
    let hit = hit_with_normal(vec3(0.0, 0.0, 1.0), Material::Metal(gold(0.5)));
    let scatter = gold(0.5)
        .scatter_with(&incoming(vec3(1.0, 0.0, -1.0)), &hit, vec3(0.5, 0.25, -0.5), fixed(0.0))
        .unwrap();
    assert_eq!(scatter.ray, Ray::new(vec3(0.0, 0.0, -1.0), raw(4110742324, 536870912, 1963258677)));
    assert_eq!(scatter.attenuation, vec3(0.7, 0.6, 0.5));
}

#[test]
fn metal_absorbs_when_fuzz_pushes_the_reflection_below_the_surface() {
    let hit = hit_with_normal(vec3(0.0, 0.0, 1.0), Material::Metal(gold(1.0)));
    let ray = incoming(vec3(1.0, 0.0, -1.0));
    assert!(gold(1.0).scatter_with(&ray, &hit, vec3(0.0, 0.0, -0.9), fixed(0.0)).is_none());
    // The same ray with a sample that keeps it above the surface is scattered.
    assert!(gold(1.0).scatter_with(&ray, &hit, vec3(0.0, 0.0, -0.5), fixed(0.0)).is_some());
}

#[test]
fn metal_absorbs_a_ray_that_arrives_from_behind_the_surface() {
    let hit = hit_with_normal(vec3(0.0, 0.0, 1.0), Material::Metal(gold(0.0)));
    assert!(gold(0.0).scatter_with(&incoming(vec3(0.0, 0.0, 1.0)), &hit, vec3(0.0, 0.0, 0.0), fixed(0.0)).is_none());
    // A ray that grazes the surface is absorbed too: the component is zero, not positive.
    assert!(gold(0.0).scatter_with(&incoming(vec3(1.0, 0.0, 0.0)), &hit, vec3(0.0, 0.0, 0.0), fixed(0.0)).is_none());
}

#[test]
fn metal_scatter_matches_some_draw() {
    let hit = hit_with_normal(vec3(0.0, 0.0, 1.0), Material::Metal(gold(0.25)));
    let ray = incoming(vec3(1.0, 0.0, -1.0));
    let mirror = gold(0.0).scatter_with(&ray, &hit, vec3(0.0, 0.0, 0.0), fixed(0.0)).unwrap();
    for _ in 0..200 {
        // With fuzz 1/4 the perturbation stays within a ball of radius 1/4.
        let scatter = gold(0.25).scatter(&ray, &hit).unwrap();
        let offset = scatter.ray.direction - mirror.ray.direction;
        assert!(offset.squared_length().le(fixed(0.0626)));
        assert_eq!(scatter.ray.origin, hit.point);
        assert_eq!(scatter.attenuation, vec3(0.7, 0.6, 0.5));
    }
}

#[test]
fn fifth_power_multiplies_four_times() {
    assert_eq!(fifth_power(fixed(0.5)), fixed(0.03125));
    assert_eq!(fifth_power(fixed(-2.0)), fixed(-32.0));
    assert_eq!(fifth_power(fixed(1.0)), fixed(1.0));
    assert_eq!(fifth_power(fixed(0.0)), fixed(0.0));
    assert_eq!(fifth_power(fixed(0.3)), Fixed::from_raw(10436770));
}

#[test]
fn shlick_at_normal_incidence_is_the_base_reflectance() {
    // ((1 - 1.5) / (1 + 1.5))^2 = 0.04
    assert_eq!(shlick(fixed(1.0), fixed(1.5)), Fixed::from_raw(171798692));
    assert_eq!(shlick(fixed(1.0), fixed(1.0)), fixed(0.0));
    assert_eq!(shlick(fixed(1.0), fixed(3.0)), fixed(0.25));
}

#[test]
fn shlick_at_grazing_incidence_is_one() {
    assert_eq!(shlick(fixed(0.0), fixed(1.5)), fixed(1.0));
    assert_eq!(shlick(fixed(0.0), fixed(1.0)), fixed(1.0));
    assert_eq!(shlick(fixed(0.0), fixed(0.3)), fixed(1.0));
    assert_eq!(shlick(fixed(0.0), fixed(-1.0)), fixed(1.0));
    assert_eq!(shlick(fixed(0.0), Fixed::max_value()), fixed(1.0));
}

#[test]
fn shlick_in_between() {
    // 0.04 + 0.96 * 0.5^5 = 0.07
    assert_eq!(shlick(fixed(0.5), fixed(1.5)), Fixed::from_raw(300647710));
    let mut previous = shlick(fixed(0.0), fixed(1.5));
    for step in 1..=10 {
        let next = shlick(fixed(step as f64 / 10.0), fixed(1.5));
        assert!(next.le(previous));
        assert!(next.ge(shlick(fixed(1.0), fixed(1.5))));
        previous = next;
    }
}

#[test]
fn refract_passes_straight_through_along_the_normal() {
    let n = vec3(0.0, 0.0, 1.0);
    assert_eq!(refract(&vec3(0.0, 0.0, -1.0), &n, fixed(1.0)), Some(vec3(0.0, 0.0, -1.0)));
    assert_eq!(refract(&vec3(0.0, 0.0, -2.0), &n, fixed(1.0) / fixed(1.5)), Some(vec3(0.0, 0.0, -1.0)));
}

#[test]
fn refract_bends_towards_the_normal_when_entering_glass() {
    let refracted = refract(&vec3(1.0, 0.0, -1.0), &vec3(0.0, 0.0, 1.0), fixed(1.0) / fixed(1.5)).unwrap();
    // sin = (1 / sqrt 2) / 1.5 = 0.4714, cos = 0.8819
    assert_eq!(refracted, raw(2024666999, 0, -3787805119));
}

#[test]
fn refract_fails_on_total_internal_reflection() {
    assert_eq!(refract(&vec3(1.0, 0.0, 0.1), &vec3(0.0, 0.0, -1.0), fixed(1.5)), None);
}

#[test]
fn refract_succeeds_when_the_discriminant_is_zero() {
    assert_eq!(refract(&vec3(1.0, 0.0, 0.0), &vec3(0.0, 0.0, 1.0), fixed(1.0)), Some(vec3(1.0, 0.0, 0.0)));
}

#[test]
fn diaelectric_reflects_below_the_reflectance_and_refracts_from_it_on() {
    let hit = hit_with_normal(vec3(0.0, 0.0, 1.0), Material::Diaelectric(glass()));
    let ray = incoming(vec3(0.0, 0.0, -1.0));
    let ones = vec3(1.0, 1.0, 1.0);
    let reflected = Scatter { ray: Ray::new(hit.point, vec3(0.0, 0.0, 1.0)), attenuation: ones };
    let refracted = Scatter { ray: Ray::new(hit.point, vec3(0.0, 0.0, -1.0)), attenuation: ones };
    let zero = vec3(0.0, 0.0, 0.0);

    // At normal incidence the reflectance is the base reflectance, 171798692 units.
    assert_eq!(glass().scatter_with(&ray, &hit, zero, fixed(0.0)), Some(reflected));
    assert_eq!(glass().scatter_with(&ray, &hit, zero, Fixed::from_raw(171798691)), Some(reflected));
    assert_eq!(glass().scatter_with(&ray, &hit, zero, Fixed::from_raw(171798692)), Some(refracted));
    assert_eq!(glass().scatter_with(&ray, &hit, zero, fixed(0.5)), Some(refracted));
}

#[test]
fn diaelectric_flips_the_normal_for_a_ray_that_leaves() {
    // The normal points along the ray: the ray is leaving the glass.
    let hit = hit_with_normal(vec3(0.0, 0.0, -1.0), Material::Diaelectric(glass()));
    let zero = vec3(0.0, 0.0, 0.0);
    let straight = glass().scatter_with(&incoming(vec3(0.0, 0.0, -1.0)), &hit, zero, fixed(0.999)).unwrap();
    assert_eq!(straight.ray, Ray::new(hit.point, vec3(0.0, 0.0, -1.0)));

    // A shallow ray cannot leave: total internal reflection, whatever is drawn.
    let shallow = incoming(vec3(1.0, 0.0, -0.1));
    let bounced = glass().scatter_with(&shallow, &hit, zero, fixed(0.999)).unwrap();
    assert_eq!(bounced.ray, Ray::new(hit.point, raw(4294967296, 0, 429496730)));
    assert_eq!(bounced.attenuation, vec3(1.0, 1.0, 1.0));
}

#[test]
fn diaelectric_at_forty_five_degrees() {
    let hit = hit_with_normal(vec3(0.0, 0.0, 1.0), Material::Diaelectric(glass()));
    let ray = incoming(vec3(1.0, 0.0, -1.0));
    let zero = vec3(0.0, 0.0, 0.0);
    let refracted = glass().scatter_with(&ray, &hit, zero, fixed(0.9)).unwrap();
    assert_eq!(refracted.ray.direction, raw(2024666999, 0, -3787805119));
    // The reflection is of the direction as it is, not normalized.
    let reflected = glass().scatter_with(&ray, &hit, zero, fixed(0.0)).unwrap();
    assert_eq!(reflected.ray.direction, vec3(1.0, 0.0, 1.0));
    // The reflectance at this angle is 180686152 units.
    assert_eq!(glass().scatter_with(&ray, &hit, zero, Fixed::from_raw(180686151)), Some(reflected));
    assert_eq!(glass().scatter_with(&ray, &hit, zero, Fixed::from_raw(180686152)), Some(refracted));
}

#[test]
fn diaelectric_scatter_never_absorbs() {
    let hit = hit_with_normal(vec3(0.0, 0.0, 1.0), Material::Diaelectric(glass()));
    let ray = incoming(vec3(1.0, 0.0, -1.0));
    let mut reflections = 0;
    for _ in 0..400 {
        let scatter = glass().scatter(&ray, &hit).unwrap();
        assert_eq!(scatter.attenuation, vec3(1.0, 1.0, 1.0));
        assert_eq!(scatter.ray.origin, hit.point);
        if scatter.ray.direction == vec3(1.0, 0.0, 1.0) {
            reflections += 1;
        } else {
            assert_eq!(scatter.ray.direction, raw(2024666999, 0, -3787805119));
        }
    }
    // The reflectance is about 4.2 %.
    assert!(reflections < 100);
}

#[test]
fn material_dispatches_to_its_variant() {
    let ray = incoming(vec3(1.0, 0.0, -1.0));
    let sample = vec3(0.25, -0.5, 0.125);
    let chance = fixed(0.5);
    let normal = vec3(0.0, 0.0, 1.0);

    let material = Material::Lambertian(grey());
    let hit = hit_with_normal(normal, material);
    assert_eq!(material.scatter_with(&ray, &hit, sample, chance), grey().scatter_with(&ray, &hit, sample, chance));

    let material = Material::Metal(gold(0.5));
    let hit = hit_with_normal(normal, material);
    assert_eq!(
        material.scatter_with(&ray, &hit, sample, chance),
        gold(0.5).scatter_with(&ray, &hit, sample, chance)
    );

    let material = Material::Diaelectric(glass());
    let hit = hit_with_normal(normal, material);
    assert_eq!(
        material.scatter_with(&ray, &hit, sample, chance),
        glass().scatter_with(&ray, &hit, sample, chance)
    );
    assert!(material.scatter(&ray, &hit).is_some());
    assert!(Material::Lambertian(grey()).scatter(&ray, &hit).is_some());
}

#[test]
fn ball_candidate_maps_fractions_to_the_cube() {
    assert_eq!(ball_candidate(fixed(0.5), fixed(0.5), fixed(0.5)), (vec3(0.0, 0.0, 0.0), true));
    assert_eq!(ball_candidate(fixed(0.0), fixed(0.0), fixed(0.0)), (vec3(-1.0, -1.0, -1.0), false));
    assert_eq!(ball_candidate(fixed(0.75), fixed(0.25), fixed(0.5)), (vec3(0.5, -0.5, 0.0), true));
    // A point on the surface of the ball is not inside it.
    assert_eq!(ball_candidate(fixed(1.0), fixed(0.5), fixed(0.5)), (vec3(1.0, 0.0, 0.0), false));
    let corner = Fixed::from_raw(4294967295);
    assert_eq!(ball_candidate(corner, corner, corner), (raw(4294967294, 4294967294, 4294967294), false));
}

#[test]
fn random_point_in_sphere_lies_inside_the_unit_ball() {
    let mut distinct = 0;
    let first = random_point_in_sphere();
    for _ in 0..1000 {
        let p = random_point_in_sphere();
        assert!(p.squared_length().lt(Fixed::one()));
        for c in [p.x, p.y, p.z] {
            assert!(c.ge(fixed(-1.0)) && c.lt(fixed(1.0)));
        }
        if p != first {
            distinct += 1;
        }
    }
    assert!(distinct > 900);
}
