//! Field storage on padded grids and the region views over it.
pub mod block1d;
pub mod block2d;
pub mod iterator1d;
pub mod iterator2d;
