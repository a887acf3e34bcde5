//! A verified core for Conway's Game of Life on a bounded square grid.
//!
//! The library owns the grid state, the generation-advance rule and the
//! generation/throttle bookkeeping; rendering, windowing and camera control
//! are left to the surrounding application shell.

pub mod laws;
pub mod life;
