//! Flocking simulation on a torus, in fixed-point arithmetic.
//!
//! Positions are integers in sub-pixel units and headings are integers in
//! binary angle units, so every step of the simulation is exact and its
//! contracts are stated over mathematical integers.

pub mod angle;
pub mod boid;
pub mod spawner;
