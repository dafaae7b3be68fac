//! Walls as loaded from the map: finite segments that the visibility
//! sampler casts rays against, and that quadtree points may be tagged with.

use vstd::prelude::*;

use crate::vector::Vector;

verus! {

/// A map wall: the finite segment between `p1` and `p2`.
#[derive(Clone, Copy, Debug, PartialEq, Eq, Structural)]
pub struct Wall {
    pub p1: Vector,
    pub p2: Vector,
}

impl Wall {
    /// Both endpoints within the coordinate bound.
    pub open spec fn wf(self) -> bool {
        self.p1.wf() && self.p2.wf()
    }

    pub fn new(p1: Vector, p2: Vector) -> (w: Wall)
        ensures
            w.p1 == p1,
            w.p2 == p2,
    {
        Wall { p1, p2 }
    }

    pub fn get_p1(&self) -> (p: Vector)
        ensures
            p == self.p1,
    {
        self.p1
    }

    pub fn get_p2(&self) -> (p: Vector)
        ensures
            p == self.p2,
    {
        self.p2
    }
}

} // verus!
