//! Default image dimensions and sampling parameters.

use vstd::prelude::*;

verus! {

/// Default output width in pixels.
pub const IMAGE_WIDTH: u32 = 400;

/// Default output height in pixels.
pub const IMAGE_HEIGHT: u32 = 200;

/// Default samples per pixel.
pub const SAMPLES: u32 = 500;

/// Default bounce budget per ray.
pub const MAX_DEPTH: u32 = 50;

} // verus!
