//! Conway's Game of Life on a bounded square grid, with a pacing rule for
//! the loop that shows one generation after another.

pub mod cell;
pub mod board;
pub mod grid;
pub mod screen;
