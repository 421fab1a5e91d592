//! Lloyd's k-means clustering on a fixed-point grid.
//!
//! Coordinates are signed 32-bit integers. A caller with fractional data
//! scales it onto a grid of its choosing; distances, means and the
//! convergence tolerance are then exact integer quantities, and the
//! executable functions of this crate are verified against a mathematical
//! model of them. Two calls into the `rand` crate, which draw the first
//! centroids, are taken on trust; they stand in `sampler`.

pub mod assign;
pub mod converge;
pub mod engine;
pub mod error;
pub mod laws;
pub mod objective;
pub mod points;
pub mod rolling_mean;
pub mod sampler;
pub mod update;
