//! Vectors, rays and the camera.

pub mod camera;
pub mod ray;
pub mod unit;
pub mod vec3;
