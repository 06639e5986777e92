//! Conway's Game of Life on an unbounded, sparsely populated grid.
//!
//! - [`lattice`] is the mathematical model: cells of the integer lattice,
//!   neighbourhoods, the rule, and the laws that follow from them.
//! - [`tile_set`] is the container that holds the live cells.
//! - [`game_of_life`] is the engine: query a cell, flip a cell, advance one
//!   generation.

pub mod game_of_life;
pub mod lattice;
pub mod tile_set;
