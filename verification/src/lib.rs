//! Discrete-time lattice simulations: lattice-gas automata on square and
//! hexagonal periodic grids with per-site node types (fluid, reflecting
//! boundary, inflow, sink), together with two simpler cellular automata.

pub mod automata;
pub mod bits;
pub mod collision;
pub mod counting;
pub mod driver;
pub mod geometry;
pub mod hpp;
pub mod rng;
