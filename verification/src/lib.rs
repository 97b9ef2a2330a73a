//! Structured-grid finite-volume kernel for hyperbolic conservation laws.
//!
//! The crate manages cell-centred fields on a padded two-dimensional grid,
//! hands out rectangular region views over them, and drives the sweeps that
//! convert between primitive and conserved variables, reconstruct face states
//! and evaluate face fluxes. Every sweep is generic in the scalar type: the
//! per-cell arithmetic is supplied by the caller, while the addressing, the
//! alignment of stencil windows and the data movement are stated in contracts
//! and proved.
pub mod utils;
pub mod block;
pub mod eos;
pub mod hydro;
pub mod riemann;
