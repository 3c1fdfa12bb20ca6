//! Integer square roots and the fixed-point scalar built on them.

pub mod fixed;
pub mod root;
