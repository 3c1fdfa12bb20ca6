//! A stochastic path tracer over saturating fixed-point arithmetic.
//!
//! Given a scene of spheres with surface materials and a camera, the library
//! estimates the colour of the light that arrives along a ray by following the
//! ray from bounce to bounce, each material scattering it at random.
//!
//! Every quantity (coordinates, ray parameters, colours) is a
//! [`numeric::fixed::Fixed`] number with 32 fractional bits. All arithmetic is
//! total: results that do not fit saturate, every rounding is towards negative
//! infinity, and dividing by zero saturates by the sign of the dividend. The
//! contracts state the exact value that each operation produces, and the
//! lemmas beside them bound what rounding can do.
//!
//! * [`numeric`]: integer square roots and the fixed-point scalar.
//! * [`geometry`]: vectors, rays and the thin-lens camera.
//! * [`scenery`]: spheres, scenes and the closest hit of a ray.
//! * [`materials`]: diffuse, metallic and glass surfaces.
//! * [`render`]: the colour of a ray.
//! * [`image`]: from colours to pixels.
//! * [`showcase`]: an example scene.
//! * [`random`]: the source of random numbers.
//!
//! Whatever is random is split in two: a function that computes the outcome
//! from given random values, with an exact contract, and a function that draws
//! the values and states that its result is the outcome for some values that
//! can be drawn.

pub mod geometry;
pub mod image;
pub mod materials;
pub mod numeric;
pub mod random;
pub mod render;
pub mod scenery;
pub mod showcase;
