//! Conversion between primitive and conserved variables.
pub mod eos;
