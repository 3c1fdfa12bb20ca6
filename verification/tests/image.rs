use pathtracer::geometry::camera::Camera;
use pathtracer::geometry::ray::Ray;
use pathtracer::geometry::vec3::Vec3;
use pathtracer::image::{pixel_index, quantize, sample_color, screen_coordinate, to_pixel};
use pathtracer::materials::diaelectric::Diaelectric;
use pathtracer::materials::lambertian::Lambertian;
use pathtracer::materials::metal::Metal;
use pathtracer::materials::Material;
use pathtracer::numeric::fixed::Fixed;
use pathtracer::random::random_fraction;
use pathtracer::scenery::hitable::Hitable;
use pathtracer::scenery::scene::Scene;
use pathtracer::scenery::sphere::Sphere;
use pathtracer::showcase::{draw_lot, make_scene, make_scene_with, small_sphere, Lot, CELLS};

fn fixed(x: f64) -> Fixed {
    Fixed::from_raw((x * 4294967296.0).round() as i64)
}

fn vec3(x: f64, y: f64, z: f64) -> Vec3 {
    Vec3::new(fixed(x), fixed(y), fixed(z))
}

fn lot(chooser: f64, shift_x: f64, shift_z: f64) -> Lot {
    Lot {
        chooser: fixed(chooser),
        shift_x: fixed(shift_x),
        shift_z: fixed(shift_z),
        tint: vec3(0.25, 0.5, 0.75),
        fuzz: fixed(0.125),
        index: fixed(0.625),
    }
}

#[test]
fn quantize_applies_gamma_and_rounds_down() {
    // sqrt(0.25) * 255.99 = 127.995
    assert_eq!(quantize(fixed(0.25)), 127);
    // sqrt(0.5) * 255.99 = 181.01
    assert_eq!(quantize(fixed(0.5)), 181);
    assert_eq!(quantize(fixed(0.1)), 80);
    assert_eq!(quantize(fixed(0.0001)), 2);
    assert_eq!(quantize(fixed(0.999)), 255);
}

#[test]
fn quantize_clamps() {
    assert_eq!(quantize(fixed(0.0)), 0);
    assert_eq!(quantize(Fixed::from_raw(1)), 0);
    assert_eq!(quantize(fixed(-1.0)), 0);
    assert_eq!(quantize(Fixed::min_value()), 0);
    assert_eq!(quantize(fixed(1.0)), 255);
    assert_eq!(quantize(fixed(2.0)), 255);
    assert_eq!(quantize(Fixed::max_value()), 255);
}

#[test]
fn quantize_is_monotone() {
    let mut previous = 0;
    for step in 0..=1000 {
        let byte = quantize(fixed(step as f64 / 1000.0));
        assert!(byte >= previous);
        previous = byte;
    }
    assert_eq!(previous, 255);
}

#[test]
fn to_pixel_averages_then_quantizes() {
    assert_eq!(to_pixel(vec3(25.0, 50.0, 100.0), 100), (127, 181, 255));
    assert_eq!(to_pixel(vec3(0.5, 0.7, 1.0), 1), (181, 214, 255));
    assert_eq!(to_pixel(vec3(-1.0, 0.0, 200.0), 100), (0, 0, 255));
}

#[test]
fn to_pixel_without_samples_saturates() {
    assert_eq!(to_pixel(vec3(1.0, 1.0, 1.0), 0), (255, 255, 255));
    assert_eq!(to_pixel(vec3(0.0, 0.0, 0.0), 0), (0, 0, 0));
}

#[test]
fn screen_coordinate_divides_by_the_extent() {
    assert_eq!(screen_coordinate(0, 640, fixed(0.0)), fixed(0.0));
    assert_eq!(screen_coordinate(320, 640, fixed(0.0)), fixed(0.5));
    assert_eq!(screen_coordinate(3, 640, fixed(0.5)), Fixed::from_raw(23488102));
    assert_eq!(screen_coordinate(639, 640, Fixed::from_raw(4294967295)), Fixed::from_raw(4294967295));
    assert_eq!(screen_coordinate(5, 0, fixed(0.25)), Fixed::max_value());
}

#[test]
fn pixel_index_counts_rows_from_the_top() {
    // The bottom row of the picture is the last row of the buffer.
    assert_eq!(pixel_index(0, 0, 640, 360), 359 * 640);
    assert_eq!(pixel_index(639, 0, 640, 360), 360 * 640 - 1);
    assert_eq!(pixel_index(0, 359, 640, 360), 0);
    assert_eq!(pixel_index(5, 358, 640, 360), 645);
    assert_eq!(pixel_index(65534, 0, 65535, 65535), 65534 + 65534 * 65535);
}

#[test]
fn pixel_index_visits_every_place_once() {
    let (width, height) = (7u16, 5u16);
    let mut seen = vec![false; 35];
    for y in 0..height {
        for x in 0..width {
            let index = pixel_index(x, y, width, height);
            assert!(!seen[index]);
            seen[index] = true;
        }
    }
    assert!(seen.iter().all(|&s| s));
}

#[test]
fn random_fraction_lies_in_the_unit_interval() {
    let mut low = 0;
    for _ in 0..2000 {
        let f = random_fraction();
        assert!(f.ge(Fixed::zero()) && f.lt(Fixed::one()));
        if f.lt(fixed(0.5)) {
            low += 1;
        }
    }
    assert!(low > 700 && low < 1300);
}

#[test]
fn sample_color_of_the_open_sky() {
    let camera = Camera::new(
        vec3(0.0, 0.0, 0.0),
        vec3(0.0, 0.0, -1.0),
        vec3(0.0, 1.0, 0.0),
        fixed(1.0),
        fixed(2.0),
        fixed(0.0),
        fixed(1.0),
    );
    let scene = Scene::new();
    for _ in 0..50 {
        let c = sample_color(&camera, &scene, 100, 50, 200, 100);
        // The blue channel of the sky is one everywhere.
        assert_eq!(c.z, fixed(1.0));
        assert!(c.x.ge(fixed(0.5)) && c.x.le(fixed(1.0)));
        // The pixel lies just above the middle of the screen: the ray points
        // slightly upwards and the sky is a little bluer than halfway.
        assert!(c.x.le(fixed(0.75)) && c.x.ge(fixed(0.74)));
    }
}

#[test]
fn sample_color_of_a_matte_wall() {
    let camera = Camera::new(
        vec3(0.0, 0.0, 0.0),
        vec3(0.0, 0.0, -1.0),
        vec3(0.0, 1.0, 0.0),
        fixed(1.0),
        fixed(2.0),
        fixed(0.0),
        fixed(1.0),
    );
    let mut scene = Scene::new();
    scene.add_object(Sphere::new(
        vec3(0.0, 0.0, -1002.0),
        fixed(1000.0),
        Material::Lambertian(Lambertian { albedo: vec3(0.5, 0.25, 0.0) }),
    ));
    for _ in 0..50 {
        let c = sample_color(&camera, &scene, 100, 50, 200, 100);
        // One bounce at least: the red channel is at most half, the green at
        // most a quarter, and the blue is gone.
        assert!(c.x.ge(fixed(0.0)) && c.x.le(fixed(0.5)));
        assert!(c.y.ge(fixed(0.0)) && c.y.le(fixed(0.25)));
        assert_eq!(c.z, fixed(0.0));
    }
}

#[test]
fn small_sphere_is_matte_below_four_fifths() {
    let sphere = small_sphere(3, -2, lot(0.5, 0.5, 0.25)).unwrap();
    assert_eq!(sphere.radius, fixed(1.0) / fixed(5.0));
    assert_eq!(sphere.centre.x, fixed(3.0) + fixed(9.0) / fixed(10.0) * fixed(0.5));
    assert_eq!(sphere.centre.y, fixed(1.0) / fixed(5.0));
    assert_eq!(sphere.centre.z, fixed(-2.0) + fixed(9.0) / fixed(10.0) * fixed(0.25));
    assert_eq!(sphere.centre.x.raw, 3 * 4294967296 + 1932735283);
    assert_eq!(sphere.material, Material::Lambertian(Lambertian { albedo: vec3(0.25, 0.5, 0.75) }));
}

#[test]
fn small_sphere_material_thresholds() {
    let four_fifths = fixed(4.0) / fixed(5.0);
    let nineteen_twentieths = fixed(19.0) / fixed(20.0);
    let with_chooser = |chooser: Fixed| {
        let mut l = lot(0.0, 0.5, 0.5);
        l.chooser = chooser;
        small_sphere(5, 5, l).unwrap().material
    };
    let matte = Material::Lambertian(Lambertian { albedo: vec3(0.25, 0.5, 0.75) });
    let metal = Material::Metal(Metal { albedo: vec3(0.625, 0.75, 0.875), fuzz: fixed(0.125) });
    let glass = Material::Diaelectric(Diaelectric { refraction_index: fixed(0.625) });
    assert_eq!(with_chooser(fixed(0.0)), matte);
    assert_eq!(with_chooser(Fixed::from_raw(four_fifths.raw - 1)), matte);
    assert_eq!(with_chooser(four_fifths), metal);
    assert_eq!(with_chooser(Fixed::from_raw(nineteen_twentieths.raw - 1)), metal);
    assert_eq!(with_chooser(nineteen_twentieths), glass);
    assert_eq!(with_chooser(Fixed::from_raw(4294967295)), glass);
}

#[test]
fn small_sphere_keeps_clear_of_the_middle() {
    // Cell (0, 0) with no shift: the centre (0, 0.2, 0) is 0.4 from (0.4, 0.2, 0).
    assert_eq!(small_sphere(0, 0, lot(0.5, 0.0, 0.0)), None);
    // Cell (1, 0): the centre (1, 0.2, 0) is 0.6 away.
    assert_eq!(small_sphere(1, 0, lot(0.5, 0.0, 0.0)), None);
    // Cell (-1, 0): the centre (-1, 0.2, 0) is 1.4 away.
    assert!(small_sphere(-1, 0, lot(0.5, 0.0, 0.0)).is_some());
    // Cell (1, 0) shifted to (1.45, 0.2, 0): 1.05 away.
    assert!(small_sphere(1, 0, lot(0.5, 0.5, 0.0)).is_some());
}

#[test]
fn draw_lot_draws_fractions() {
    for _ in 0..200 {
        let l = draw_lot();
        for f in [l.chooser, l.shift_x, l.shift_z, l.tint.x, l.tint.y, l.tint.z, l.fuzz, l.index] {
            assert!(f.ge(Fixed::zero()) && f.lt(Fixed::one()));
        }
    }
}

#[test]
fn make_scene_with_fills_the_cells_row_by_row() {
    assert_eq!(CELLS, 484);
    // No lots: the ground and the three large spheres.
    assert_eq!(make_scene_with(&vec![]).len(), 4);

    // Three lots fill the cells (-11, -11), (-11, -10) and (-11, -9).
    let scene = make_scene_with(&vec![lot(0.5, 0.0, 0.0), lot(0.9, 0.0, 0.0), lot(0.99, 0.0, 0.0)]);
    assert_eq!(scene.len(), 7);
    let matte = Material::Lambertian(Lambertian { albedo: vec3(0.25, 0.5, 0.75) });
    let metal = Material::Metal(Metal { albedo: vec3(0.625, 0.75, 0.875), fuzz: fixed(0.125) });
    let glass = Material::Diaelectric(Diaelectric { refraction_index: fixed(0.625) });
    for (z, material) in [(-11.0, matte), (-10.0, metal), (-9.0, glass)] {
        let down = Ray::new(vec3(-11.0, 10.0, z), vec3(0.0, -1.0, 0.0));
        let hit = scene.hit(&down, fixed(0.001), Fixed::max_value()).unwrap();
        assert_eq!(hit.material, material);
        assert_eq!(hit.point.x, fixed(-11.0));
        assert_eq!(hit.point.z, fixed(z));
        // The top of a sphere of radius 1/5 around y = 1/5.
        assert!((hit.point.y.raw - fixed(0.4).raw).abs() <= 4);
    }
    // The next cell is empty: the ray reaches the ground.
    let down = Ray::new(vec3(-11.0, 10.0, -8.0), vec3(0.0, -1.0, 0.0));
    let hit = scene.hit(&down, fixed(0.001), Fixed::max_value()).unwrap();
    assert_eq!(hit.material, Material::Lambertian(Lambertian { albedo: vec3(0.5, 0.5, 0.5) }));
}

#[test]
fn make_scene_with_skips_cells_near_the_middle_and_ignores_extra_lots() {
    // With no shift, the cells (0, 0) and (1, 0) are too close to (0.4, 0.2, 0).
    let scene = make_scene_with(&vec![lot(0.5, 0.0, 0.0); 484]);
    assert_eq!(scene.len(), 4 + 484 - 2);
    let scene = make_scene_with(&vec![lot(0.5, 0.0, 0.0); 600]);
    assert_eq!(scene.len(), 4 + 484 - 2);
    // The cell (0, 0) has the number 11 * 22 + 11 = 253.
    assert_eq!(make_scene_with(&vec![lot(0.5, 0.0, 0.0); 253]).len(), 4 + 253);
    assert_eq!(make_scene_with(&vec![lot(0.5, 0.0, 0.0); 254]).len(), 4 + 253);
    // The row of x = 0 ends with the cell 263; the cell (1, 0) has the number 275.
    assert_eq!(make_scene_with(&vec![lot(0.5, 0.0, 0.0); 275]).len(), 4 + 274);
    assert_eq!(make_scene_with(&vec![lot(0.5, 0.0, 0.0); 276]).len(), 4 + 274);
    assert_eq!(make_scene_with(&vec![lot(0.5, 0.0, 0.0); 277]).len(), 4 + 275);
}

#[test]
fn make_scene_has_the_ground_the_field_and_three_large_spheres() {
    let scene = make_scene();
    let n = scene.len();
    assert!(n >= 4 && n <= 488);
    // Most cells are clear of the middle.
    assert!(n > 400);

    // A ray straight down from high above the origin hits the glass sphere.
    let down = Ray::new(vec3(0.0, 10.0, 0.0), vec3(0.0, -1.0, 0.0));
    let hit = scene.hit(&down, fixed(0.001), Fixed::max_value()).unwrap();
    assert_eq!(hit.t, fixed(8.0));
    assert_eq!(hit.material, Material::Diaelectric(Diaelectric { refraction_index: fixed(1.0) }));

    let down = Ray::new(vec3(-4.0, 10.0, 0.0), vec3(0.0, -1.0, 0.0));
    let hit = scene.hit(&down, fixed(0.001), Fixed::max_value()).unwrap();
    assert_eq!(hit.t, fixed(8.0));
    assert_eq!(
        hit.material,
        Material::Lambertian(Lambertian {
            albedo: Vec3::new(fixed(2.0) / fixed(5.0), fixed(2.0) / fixed(5.0), fixed(1.0) / fixed(5.0))
        })
    );

    let down = Ray::new(vec3(4.0, 10.0, 0.0), vec3(0.0, -1.0, 0.0));
    let hit = scene.hit(&down, fixed(0.001), Fixed::max_value()).unwrap();
    assert_eq!(hit.t, fixed(8.0));
    assert_eq!(
        hit.material,
        Material::Metal(Metal {
            albedo: Vec3::new(fixed(7.0) / fixed(10.0), fixed(3.0) / fixed(5.0), fixed(1.0) / fixed(2.0)),
            fuzz: fixed(0.0)
        })
    );

    // Far from the field a ray straight down hits the ground.
    let down = Ray::new(vec3(100.0, 10.0, 100.0), vec3(0.0, -1.0, 0.0));
    let hit = scene.hit(&down, fixed(0.001), Fixed::max_value()).unwrap();
    assert_eq!(
        hit.material,
        Material::Lambertian(Lambertian {
            albedo: Vec3::new(fixed(1.0) / fixed(2.0), fixed(1.0) / fixed(2.0), fixed(1.0) / fixed(2.0))
        })
    );
}
