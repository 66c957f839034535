//! A single positioned pixel update: an (x, y) position and the color it is
//! set to.

use crate::color::Color;
use vstd::prelude::*;

verus! {

/// One pixel update. Positions are relative to the raster that owns the
/// pixel: `x` below its width and `y` below its height.
#[derive(Debug, PartialEq, Eq, Structural, Clone, Copy, Hash)]
pub struct Pixel {
    pub x: usize,
    pub y: usize,
    pub color: Color,
}

} // verus!
