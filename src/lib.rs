//! The discrete core of an organic gradient synthesizer: blend-mode
//! resolution, wrap-around indexing of periodic lookup tables, color-ramp stop
//! selection, and the row-major RGBA8 pixel fill, with its sizing and its
//! choice between row-parallel and single-threaded filling.
use vstd::prelude::*;

pub mod blend;
pub mod pixels;
pub mod ramp;
pub mod table;

verus! {

} // verus!
