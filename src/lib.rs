//! Conway's Game of Life on a fixed-size toroidal grid, with a text save
//! format and a controller for an interactive driving loop.

pub mod grid;
pub mod laws;
pub mod random;
pub mod render;
pub mod rules;
pub mod save;
pub mod session;
pub mod text;
