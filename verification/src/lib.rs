//! Per-class bivariate Gaussian models over labeled 2-D observations.
//!
//! The library parses a line-oriented stream of `<id> <x> <y>` observations
//! into classes, validates and installs per-axis normal-distribution
//! parameters for each class, and answers lookups by class id.  Coordinates
//! and fitted parameters are carried as IEEE-754 double-precision bit
//! patterns (`u64`); the floating-point computations themselves (statistics,
//! cumulative distribution functions, logarithms) are performed by the
//! caller, which hands their results back for validation and storage.

pub mod bits;
pub mod model;
pub mod parse;
pub mod registry;
