//! Conway's Game of Life on a fixed, bounded grid: construction, the
//! transition rule, stepping, text rendering and a flat codec, and the state
//! of an application that shows one board.
pub mod app;
pub mod grid;

pub use app::{ConwayApp, GRID_SIZE};
pub use grid::{DecodeError, Grid, GridIter};
