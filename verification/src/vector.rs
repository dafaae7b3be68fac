//! Plane vectors with integer coordinates.
//!
//! Coordinates are bounded by [`MAX_COORD`] so that every intermediate value
//! of the exact intersection arithmetic (degree-three polynomials in the
//! coordinates, and squared distances of the resulting rational points) fits
//! in 128-bit integers.

use vstd::prelude::*;

verus! {

/// Largest coordinate magnitude the geometry accepts.
pub const MAX_COORD: i64 = 100_000;

/// A point or direction in the plane, with integer coordinates.
#[derive(Clone, Copy, Debug, PartialEq, Eq, Structural)]
pub struct Vector {
    pub x: i64,
    pub y: i64,
}

impl Vector {
    /// A coordinate pair small enough for exact intersection arithmetic.
    pub open spec fn wf(self) -> bool {
        -MAX_COORD <= self.x <= MAX_COORD && -MAX_COORD <= self.y <= MAX_COORD
    }

    pub fn new(x: i64, y: i64) -> (v: Vector)
        ensures
            v.x == x,
            v.y == y,
    {
        Vector { x, y }
    }
}

} // verus!
