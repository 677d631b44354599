//! A verified simulation engine for Conway's Game of Life on a fixed-size
//! toroidal grid.
//!
//! The engine owns the grid, applies user edits (toggling cells, clearing),
//! computes synchronous whole-grid generations, and gates stepping on a
//! configurable rate while the simulation is running.  Rendering and input
//! handling are callers' concerns: they feed integer coordinates and elapsed
//! time into the engine and read cell states back out.

pub mod engine;
pub mod laws;
pub mod life;
