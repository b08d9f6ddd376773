//! Fixed-point math for the deterministic core.

pub mod fx;
pub mod rng;
pub mod vector;
