//! Face states and fluxes of the hydrodynamic variables.
pub mod hydro;
pub mod hydro_reconstruct;
pub mod hydro_riemann;

