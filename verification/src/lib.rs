//! A small multi-criteria decision engine: named criteria are normalized
//! onto a common scale and the alternative whose normalized criteria vector
//! is closest to the ideal point is selected.
//!
//! Floating-point observations are handled throughout as IEEE 754 bit
//! patterns, so that every step of the pipeline carries an exact contract.
pub mod ieee;
pub mod solver;
pub mod variables;
pub mod vector;
