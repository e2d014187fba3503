//! Pointer acceleration for relative-motion input streams.
//!
//! Quantities that the curve and the frame accumulator work with are held in
//! fixed point: one unit is `fixed::ONE` micro-units.
pub mod fixed;
pub mod curve;
pub mod event;
pub mod engine;
pub mod stream;
pub mod parse;
