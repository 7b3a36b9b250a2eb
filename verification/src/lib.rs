//! A generalized Game of Life engine: double-buffered grids of cells over a
//! 2D or 3D Moore neighborhood, with a wrapping or clamped boundary, the
//! classical B3/S23 transition rule, and optional stochastic "spark" revival.

pub mod board;
pub mod cell;
pub mod laws;
mod rng;
pub mod universe;

pub use board::Axes;
pub use board::Board;
pub use board::Topology;
pub use cell::Cell;
pub use cell::Live;
pub use universe::Seed;
pub use universe::Spark;
pub use universe::Universe;
pub use universe::grim_reaper;
