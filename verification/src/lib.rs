//! Radial image compositing: pixels inside a circular mask keep the main
//! image, pixels outside take a resized background image, and a linear
//! fuzz band blends the two across the mask boundary.
//!
//! All geometry and blending is done in fixed-point arithmetic: one unit
//! of normalized distance or blend weight is `SCALE`.

pub mod blend;
pub mod compose;
pub mod laws;
pub mod math;
pub mod raster;

use vstd::prelude::*;

verus! {

/// Fixed-point scale: normalized distances and blend factors are integers
/// carrying six decimal places (`SCALE` stands for the real value 1.0).
pub const SCALE: u32 = 1_000_000;

} // verus!
