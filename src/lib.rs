//! A toroidal cellular-automaton engine: a fixed-size grid of integer cell
//! states, local update rules over the Moore neighbourhood, and a driver that
//! advances whole generations and reports which cells changed.

pub mod grid;
pub mod laws;
mod random;
pub mod rule;
pub mod sim;

pub use grid::{wrap_coord, ConfigError, Grid, GridModel};
pub use rule::Rule;
pub use sim::{Simulation, SimulationModel};
