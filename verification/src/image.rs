//! From colours to pixels: screen coordinates, averaging, gamma correction and
//! quantization to eight bits.

use crate::geometry::camera::{in_unit_disk, is_square_point, Camera};
use crate::geometry::ray::Ray;
use crate::geometry::vec3::Vec3;
use crate::materials::is_color;
use crate::numeric::fixed::{lemma_quotient_bounded, lemma_quotient_monotone, Fixed, SCALE};
use crate::numeric::root::{floor_sqrt, lemma_floor_root_monotone, lemma_floor_sqrt_nonnegative};
use crate::random::{is_fraction, random_fraction};
use crate::render::{are_draws, color_along, color_for_ray, is_passive_scene, Draw, MAX_DEPTH};
use crate::scenery::scene::Scene;
use vstd::prelude::*;

verus! {

/// The factor `255.99` that maps a gamma-corrected channel in `[0, 1]` to the
/// range of a byte.
pub open spec fn byte_range() -> Fixed {
    Fixed::from_int_spec(25599).over(Fixed::from_int_spec(100))
}

/// The byte of a colour channel: the square root of the channel (gamma
/// correction), times `255.99`, rounded down and clamped to `0 ..= 255`.
pub open spec fn quantize_spec(channel: Fixed) -> u8 {
    let whole = byte_range().times(channel.sqrt_spec())@ / (SCALE as int);
    if whole > 255 {
        255u8
    } else if whole < 0 {
        0u8
    } else {
        whole as u8
    }
}

/// The position `(pixel + jitter) / extent` of a sample on the screen.
pub open spec fn screen_coordinate_spec(pixel: u16, extent: u16, jitter: Fixed) -> Fixed {
    Fixed::from_int_spec(pixel as i32).plus(jitter).over(Fixed::from_int_spec(extent as i32))
}

/// The pixel of a sum of `samples` colours: the average, channel by channel,
/// gamma-corrected and quantized.
pub open spec fn to_pixel_spec(sum: Vec3, samples: u16) -> (u8, u8, u8) {
    let average = sum.over(Fixed::from_int_spec(samples as i32));
    (quantize_spec(average.x), quantize_spec(average.y), quantize_spec(average.z))
}

/// The place of the pixel `(x, y)` in a buffer that stores the rows from top
/// to bottom, where `y = 0` is the bottom row of the picture.
pub open spec fn pixel_index_spec(x: u16, y: u16, width: u16, height: u16) -> int {
    x + (height - 1 - y) * width
}

/// A channel that is not positive quantizes to 0, and a channel of at least
/// one to 255.
pub proof fn lemma_quantize_extremes(channel: Fixed)
    ensures
        channel@ <= 0 ==> quantize_spec(channel) == 0,
        channel@ >= SCALE ==> quantize_spec(channel) == 255,
{
    assert(SCALE == 0x1_0000_0000);
    let k = byte_range();
    assert(k@ == 1099468678103);
    if channel@ <= 0 {
        crate::numeric::fixed::lemma_times_zero(k);
    }
    if channel@ >= SCALE {
        let n = channel@ * SCALE;
        assert(n >= SCALE * SCALE) by (nonlinear_arith)
            requires
                channel@ >= SCALE,
                SCALE == 0x1_0000_0000,
                n == channel@ * SCALE,
        ;
        lemma_floor_sqrt_nonnegative(n);
        crate::numeric::root::lemma_floor_root_of_square(SCALE as int);
        lemma_floor_root_monotone(SCALE * SCALE, SCALE as int, n, floor_sqrt(n));
        let root = channel.sqrt_spec();
        assert(root@ >= SCALE);
        assert(k@ * root@ >= k@ * SCALE) by (nonlinear_arith)
            requires
                root@ >= SCALE,
                k@ == 1099468678103,
        ;
        lemma_quotient_monotone(k@ * SCALE, k@ * root@, SCALE as int);
        assert(k@ * SCALE / (SCALE as int) == k@) by (nonlinear_arith)
            requires
                SCALE == 0x1_0000_0000,
        ;
    }
}

/// A brighter channel never quantizes to a smaller byte.
pub proof fn lemma_quantize_monotone(darker: Fixed, brighter: Fixed)
    requires
        darker@ <= brighter@,
    ensures
        quantize_spec(darker) <= quantize_spec(brighter),
{
    assert(SCALE == 0x1_0000_0000);
    let s = SCALE as int;
    let k = byte_range();
    assert(k@ == 1099468678103);
    let low = darker.sqrt_spec();
    let high = brighter.sqrt_spec();
    if darker@ > 0 {
        assert(darker@ * s <= brighter@ * s) by (nonlinear_arith)
            requires
                darker@ <= brighter@,
                s > 0,
        ;
        lemma_floor_sqrt_nonnegative(darker@ * s);
        lemma_floor_sqrt_nonnegative(brighter@ * s);
        lemma_floor_root_monotone(
            darker@ * s,
            floor_sqrt(darker@ * s),
            brighter@ * s,
            floor_sqrt(brighter@ * s),
        );
    } else if brighter@ > 0 {
        lemma_floor_sqrt_nonnegative(brighter@ * s);
    }
    assert(0 <= low@ <= high@);
    assert(0 <= k@ * low@ <= k@ * high@) by (nonlinear_arith)
        requires
            0 <= low@ <= high@,
            k@ > 0,
    ;
    lemma_quotient_monotone(k@ * low@, k@ * high@, s);
    lemma_quotient_bounded(k@ * low@, s);
    lemma_quotient_bounded(k@ * high@, s);
    let a = k.times(low);
    let b = k.times(high);
    assert(0 <= a@ <= b@);
    lemma_quotient_monotone(a@, b@, s);
    lemma_quotient_bounded(a@, s);
}

/// A sample inside a pixel of the picture has a screen coordinate in `[0, 1)`.
pub proof fn lemma_screen_coordinate_is_fraction(pixel: u16, extent: u16, jitter: Fixed)
    requires
        pixel < extent,
        is_fraction(jitter),
    ensures
        is_fraction(screen_coordinate_spec(pixel, extent, jitter)),
{
    assert(SCALE == 0x1_0000_0000);
    let s = SCALE as int;
    let p = Fixed::from_int_spec(pixel as i32);
    let e = Fixed::from_int_spec(extent as i32);
    assert(p@ == pixel * s);
    assert(e@ == extent * s);
    let n = p.plus(jitter);
    assert(n@ == pixel * s + jitter@);
    assert(0 <= n@ < e@);
    assert(0 <= n@ * s < e@ * s) by (nonlinear_arith)
        requires
            0 <= n@ < e@,
            s > 0,
    ;
    lemma_quotient_bounded(n@ * s, e@);
    vstd::arithmetic::div_mod::lemma_fundamental_div_mod(n@ * s, e@);
    vstd::arithmetic::div_mod::lemma_mod_bound(n@ * s, e@);
    let q = (n@ * s) / e@;
    assert(q < s) by (nonlinear_arith)
        requires
            n@ * s == e@ * q + (n@ * s) % e@,
            0 <= (n@ * s) % e@,
            n@ * s < e@ * s,
            e@ > 0,
    ;
}

/// Different pixels of a picture have different places in the buffer, and
/// every place lies inside the buffer.
pub proof fn lemma_pixel_index_injective(x1: u16, y1: u16, x2: u16, y2: u16, width: u16, height: u16)
    requires
        x1 < width,
        y1 < height,
        x2 < width,
        y2 < height,
    ensures
        0 <= pixel_index_spec(x1, y1, width, height) < width * height,
        pixel_index_spec(x1, y1, width, height) == pixel_index_spec(x2, y2, width, height) ==> x1 == x2 && y1
            == y2,
{
    let r1 = height - 1 - y1;
    let r2 = height - 1 - y2;
    assert(0 <= x1 + r1 * width < width * height) by (nonlinear_arith)
        requires
            0 <= x1 < width,
            0 <= r1 < height,
    ;
    assert(x1 + r1 * width == x2 + r2 * width ==> r1 == r2) by (nonlinear_arith)
        requires
            0 <= x1 < width,
            0 <= x2 < width,
            0 <= r1,
            0 <= r2,
    ;
}

/// Quantizes one colour channel to a byte, with gamma correction.
pub fn quantize(channel: Fixed) -> (byte: u8)
    ensures
        byte == quantize_spec(channel),
        channel@ <= 0 ==> byte == 0,
        channel@ >= SCALE ==> byte == 255,
{
    proof {
        lemma_quantize_extremes(channel);
    }
    let factor: Fixed = Fixed::from_int(25599) / Fixed::from_int(100);
    let scaled: Fixed = factor * channel.sqrt();
    let whole: i64 = crate::numeric::fixed::floor_div(scaled.raw as i128, 0x1_0000_0000) as i64;
    proof {
        lemma_quotient_bounded(scaled@, SCALE as int);
    }
    if whole > 255 {
        255
    } else if whole < 0 {
        0
    } else {
        whole as u8
    }
}

/// The position on the screen, between 0 and 1, of a sample that lies
/// `jitter` pixels into the pixel with the given number.
pub fn screen_coordinate(pixel: u16, extent: u16, jitter: Fixed) -> (r: Fixed)
    ensures
        r == screen_coordinate_spec(pixel, extent, jitter),
        pixel < extent && is_fraction(jitter) ==> is_fraction(r),
{
    proof {
        if pixel < extent && is_fraction(jitter) {
            lemma_screen_coordinate_is_fraction(pixel, extent, jitter);
        }
    }
    (Fixed::from_int(pixel as i32) + jitter) / Fixed::from_int(extent as i32)
}

/// The pixel for the sum of the colours of `samples` samples.
pub fn to_pixel(sum: Vec3, samples: u16) -> (pixel: (u8, u8, u8))
    ensures
        pixel == to_pixel_spec(sum, samples),
{
    let average: Vec3 = sum / Fixed::from_int(samples as i32);
    (quantize(average.x), quantize(average.y), quantize(average.z))
}

/// The place of the pixel `(x, y)` in the buffer of a picture.
pub fn pixel_index(x: u16, y: u16, width: u16, height: u16) -> (index: usize)
    requires
        x < width,
        y < height,
    ensures
        index == pixel_index_spec(x, y, width, height),
        index < width * height,
{
    proof {
        lemma_pixel_index_injective(x, y, x, y, width, height);
    }
    let row: usize = (height - 1 - y) as usize;
    assert(row * width <= 0xffff * 0xffff) by (nonlinear_arith)
        requires
            row <= 0xffff,
            width <= 0xffff,
    ;
    x as usize + row * (width as usize)
}

/// The colour of one sample of the pixel `(x, y)`: a ray is cast through a
/// random position inside the pixel and followed through the scene.
pub fn sample_color(camera: &Camera, scene: &Scene, x: u16, y: u16, width: u16, height: u16) -> (c: Vec3)
    ensures
        exists|jitter_x: Fixed, jitter_y: Fixed, lens: Vec3, draws: Seq<Draw>|
            is_fraction(jitter_x) && is_fraction(jitter_y) && in_unit_disk(lens) && is_square_point(lens)
                && are_draws(draws)
                && draws.len() >= MAX_DEPTH && c == #[trigger] color_along(
                scene,
                camera.ray_through(
                    screen_coordinate_spec(x, width, jitter_x),
                    screen_coordinate_spec(y, height, jitter_y),
                    lens,
                ),
                0,
                draws,
            ),
        is_passive_scene(scene) ==> is_color(c),
{
    let jitter_x: Fixed = random_fraction();
    let jitter_y: Fixed = random_fraction();
    let u: Fixed = screen_coordinate(x, width, jitter_x);
    let v: Fixed = screen_coordinate(y, height, jitter_y);
    let ray: Ray = camera.cast_ray(u, v);
    let c: Vec3 = color_for_ray(&ray, scene, 0);
    proof {
        let lens = choose|lens: Vec3|
            in_unit_disk(lens) && is_square_point(lens) && ray == #[trigger] camera.ray_through(u, v, lens);
        let draws = choose|draws: Seq<Draw>|
            are_draws(draws) && draws.len() + 0 >= MAX_DEPTH && c == #[trigger] color_along(
                scene,
                ray,
                0,
                draws,
            );
        assert(c == color_along(
            scene,
            camera.ray_through(
                screen_coordinate_spec(x, width, jitter_x),
                screen_coordinate_spec(y, height, jitter_y),
                lens,
            ),
            0,
            draws,
        ));
    }
    c
}

} // verus!
