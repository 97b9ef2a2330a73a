//! Riemann problems at cell faces.
pub mod roe_shallow_water;
