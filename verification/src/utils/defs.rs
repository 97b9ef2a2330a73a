//! Compile-time parameters of the solver.
use vstd::prelude::*;

verus! {

/// Spatial dimension of the problem.
pub const DIMENSION: usize = 2;

/// Number of ghost zones surrounding the active domain.
pub const NGHOST: usize = 3;

/// Number of hydrodynamic variables: density, three velocities, pressure.
pub const NHYDRO: usize = 5;

/// Number of vapor species carried along with the flow.
pub const NVAPOR: usize = 0;

/// First spatial direction.
pub const X1DIR: usize = 0;

/// Second spatial direction.
pub const X2DIR: usize = 1;

/// Third spatial direction (reserved).
pub const X3DIR: usize = 2;

/// A parameter of a sweep that is outside what the solver supports.
#[derive(Clone, Copy, Debug, PartialEq, Eq, Structural)]
pub enum InvalidParameter {
    /// The reconstruction order is none of 1, 3 and 5.
    Order,
    /// The direction is neither `X1DIR` nor `X2DIR`.
    Direction,
}

} // verus!
