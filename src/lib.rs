//! Sprite-sheet animation: frame geometry from sheet pixels, animation
//! definitions loaded from declarative records, a name-keyed catalog of shared
//! definitions, and per-instance playback cursors.
use vstd::prelude::*;

pub mod geometry;
pub mod playback;
pub mod animation;
pub mod catalog;

verus! {

} // verus!
