//! The first generation of the song model, still used by its own tools:
//! chord grids without repeats or time signatures, and column/row counts
//! for the grid layout.
pub mod config;
pub mod input_model;
pub mod model;
