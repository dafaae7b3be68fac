//! Tagged points and axis-aligned boxes for the spatial index.

use vstd::prelude::*;

use crate::vector::{Vector, MAX_COORD};
use crate::wall::Wall;

verus! {

/// A point stored in the spatial index: a position, optionally tagged with
/// the wall it stands for.
#[derive(Clone, Copy, Debug, PartialEq, Eq, Structural)]
pub struct Point {
    pub pos: Vector,
    pub data: Option<Wall>,
}

/// An axis-aligned box, given by its center `pos` and its half-extents:
/// it spans `[pos.x - width, pos.x + width] x [pos.y - height, pos.y + height]`.
#[derive(Clone, Copy, Debug)]
pub struct Rect {
    pub pos: Vector,
    pub width: i64,
    pub height: i64,
}

impl Rect {
    /// Nonnegative half-extents, and the whole box (border included) within
    /// the coordinate bound.
    pub open spec fn wf(self) -> bool {
        0 <= self.width && 0 <= self.height && -MAX_COORD <= self.pos.x - self.width && self.pos.x
            + self.width <= MAX_COORD && -MAX_COORD <= self.pos.y - self.height && self.pos.y
            + self.height <= MAX_COORD
    }

    /// Closed-box membership of a position.
    pub open spec fn spec_contains(self, p: Vector) -> bool {
        self.pos.x - self.width <= p.x && p.x <= self.pos.x + self.width && self.pos.y - self.height
            <= p.y && p.y <= self.pos.y + self.height
    }

    /// Whether the point's position lies in this box, border included.
    pub fn contains(&self, point: &Point) -> (r: bool)
        requires
            self.wf(),
        ensures
            r == self.spec_contains(point.pos),
    {
        let x = point.pos.x;
        let y = point.pos.y;
        let x_min = self.pos.x - self.width;
        let x_max = self.pos.x + self.width;
        let y_min = self.pos.y - self.height;
        let y_max = self.pos.y + self.height;
        x >= x_min && x <= x_max && y >= y_min && y <= y_max
    }

    /// The two closed boxes overlap: they are disjoint exactly when they are
    /// separated along one of the two axes.
    pub open spec fn spec_intersects(self, other: Rect) -> bool {
        !(self.pos.x - self.width > other.pos.x + other.width || self.pos.x + self.width
            < other.pos.x - other.width || self.pos.y - self.height > other.pos.y + other.height
            || self.pos.y + self.height < other.pos.y - other.height)
    }

    /// Whether this box overlaps another.
    pub fn intersects_r(&self, other: &Rect) -> (r: bool)
        requires
            self.wf(),
            other.wf(),
        ensures
            r == self.spec_intersects(*other),
    {
        !(self.pos.x - self.width > other.pos.x + other.width || self.pos.x + self.width
            < other.pos.x - other.width || self.pos.y - self.height > other.pos.y + other.height
            || self.pos.y + self.height < other.pos.y - other.height)
    }
}

/// The stored points of a sequence that fall inside a box, kept in order.
pub open spec fn points_in(s: Seq<Point>, r: Rect) -> Seq<Point> {
    s.filter(|p: Point| r.spec_contains(p.pos))
}

/// Two boxes that share a common position overlap.
pub proof fn lemma_common_point_intersects(a: Rect, b: Rect, p: Vector)
    requires
        a.spec_contains(p),
        b.spec_contains(p),
    ensures
        a.spec_intersects(b),
{
}

/// Selecting the points inside a box distributes over concatenation.
pub proof fn lemma_points_in_distributes(a: Seq<Point>, b: Seq<Point>, r: Rect)
    ensures
        points_in(a + b, r) == points_in(a, r) + points_in(b, r),
{
    Seq::<Point>::filter_distributes_over_add(a, b, (|p: Point| r.spec_contains(p.pos)));
}

/// A sequence with no point inside the box selects to nothing.
pub proof fn lemma_points_in_none(s: Seq<Point>, r: Rect)
    requires
        forall|k: int| 0 <= k < s.len() ==> !r.spec_contains((#[trigger] s[k]).pos),
    ensures
        points_in(s, r) == Seq::<Point>::empty(),
    decreases s.len(),
{
    reveal(Seq::filter);
    if s.len() == 0 {
        assert(points_in(s, r) =~= Seq::<Point>::empty());
    } else {
        assert(forall|k: int|
            0 <= k < s.drop_last().len() ==> !r.spec_contains(
                (#[trigger] s.drop_last()[k]).pos,
            ));
        lemma_points_in_none(s.drop_last(), r);
        assert(!r.spec_contains(s.last().pos));
    }
}

/// Selection preserves multiplicity: a point whose position lies inside the
/// box is selected exactly as often as it occurs.
pub proof fn lemma_points_in_count(s: Seq<Point>, r: Rect, p: Point)
    requires
        r.spec_contains(p.pos),
    ensures
        points_in(s, r).to_multiset().count(p) == s.to_multiset().count(p),
    decreases s.len(),
{
    broadcast use vstd::seq_lib::group_to_multiset_ensures;
    broadcast use vstd::multiset::group_multiset_axioms;

    reveal(Seq::filter);
    if s.len() == 0 {
        assert(!s.contains(p));
        assert(!points_in(s, r).contains(p));
    } else {
        lemma_points_in_count(s.drop_last(), r, p);
        assert(s =~= s.drop_last().push(s.last()));
        if r.spec_contains(s.last().pos) {
            assert(points_in(s, r) == points_in(s.drop_last(), r).push(s.last()));
        } else {
            assert(s.last() != p);
            assert(points_in(s, r) == points_in(s.drop_last(), r));
        }
    }
}

/// A stored point inside the box is among the selected ones.
pub proof fn lemma_points_in_contains(s: Seq<Point>, r: Rect, p: Point)
    requires
        s.contains(p),
        r.spec_contains(p.pos),
    ensures
        points_in(s, r).contains(p),
{
    let i = choose|i: int| 0 <= i < s.len() && s[i] == p;
    s.lemma_filter_contains((|q: Point| r.spec_contains(q.pos)), i);
}

/// A point outside the box is never among the selected ones.
pub proof fn lemma_points_in_excludes(s: Seq<Point>, r: Rect, p: Point)
    requires
        !r.spec_contains(p.pos),
    ensures
        !points_in(s, r).contains(p),
{
    if points_in(s, r).contains(p) {
        let i = choose|i: int| 0 <= i < points_in(s, r).len() && points_in(s, r)[i] == p;
        s.lemma_filter_pred((|q: Point| r.spec_contains(q.pos)), i);
    }
}

} // verus!
