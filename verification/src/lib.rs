//! Plane geometry and axis grids in exact arithmetic.
//!
//! - [`scalar`]: fixed-point scalars, interpolation and clamping.
//! - [`vec2`]: a vector in the plane.
//! - [`rect`]: an axis-aligned rectangle.
//! - [`grid`]: the tick marks of a logarithmic axis.
//!
//! Every result is stated exactly, in integers, by the contract of the
//! function that computes it.

pub mod grid;
pub mod rect;
pub mod scalar;
pub mod vec2;
