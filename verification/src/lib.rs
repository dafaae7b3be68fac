//! Computational-geometry core for a top-down 2D game: exact ray/segment
//! intersection, closest-hit visibility sampling over a wall set, and a
//! quadtree spatial index.
//!
//! All geometry is carried out exactly over integer coordinates; intersection
//! points are exact rational points. Rendering, trigonometric direction
//! sampling and map loading are left to the (unverified) shell around this
//! library.

use vstd::prelude::*;

pub mod arith;
pub mod player;
pub mod qtree;
pub mod ray;
pub mod vector;
pub mod wall;

verus! {

/// Width of the game window, in world units.
pub const WIDTH: u32 = 800;

/// Height of the game window, in world units.
pub const HEIGHT: u32 = 600;

/// Number of rays sampled across the field of view by the visibility sampler.
pub const RAYS: usize = 360;

} // verus!
