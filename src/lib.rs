//! Turns vector outlines (move / line / quadratic / cubic drawing commands)
//! into a binary inside/outside bitmap or a single-channel signed distance
//! field.

pub mod scalar;
pub mod math;
pub mod shape;
pub mod scanline;
pub mod raster;
