//! Conway's Game of Life on a torus: a grid of cells that wraps at its edges
//! and advances one generation at a time under the rule B3/S23.
pub mod grid;
pub mod universe;
mod coin;
