//! Shared definitions and small helpers.
pub mod common;
pub mod defs;
