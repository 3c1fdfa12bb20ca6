//! The objects a ray can hit.

pub mod clearance;
pub mod hitable;
pub mod scene;
pub mod sphere;
