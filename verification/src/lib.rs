//! A bounded two-dimensional cellular automaton (Conway's Game of Life)
//! with a fixed-timestep tick scheduler, both verified.

pub mod grid;
pub mod driver;
