//! A quadtree spatial index over tagged points.
//!
//! A node owns its rectangular boundary, a capacity `size`, its own point
//! list, and — once divided — exactly four child nodes covering the four
//! quadrants of its boundary. Insertion appends to a node with room and
//! otherwise routes to the children, subdividing lazily; queries collect the
//! stored points inside a box, pruning subtrees whose boundary misses it;
//! `clear` resets a subtree to undivided and empty (children structures may
//! linger in memory, but subdivision always builds fresh ones, so they are
//! unobservable).
//!
//! The model of a tree is `all_points()`: the stored points in traversal
//! order (a node's own points, then the northeast, northwest, southeast and
//! southwest subtrees).

pub mod bounds;

use vstd::prelude::*;
use vstd::seq_lib::lemma_multiset_commutative;

use crate::arith::lemma_half_bounds;
use crate::vector::Vector;
use bounds::{lemma_common_point_intersects, points_in, Point, Rect};

verus! {

pub struct QTree {
    pub northeast: Option<Box<QTree>>,
    pub northwest: Option<Box<QTree>>,
    pub southeast: Option<Box<QTree>>,
    pub southwest: Option<Box<QTree>>,
    pub center: Vector,
    pub size: usize,
    pub points: Vec<Point>,
    pub boundary: Rect,
    pub is_divided: bool,
}

impl QTree {
    /// Boundary of the first child: the quadrant centered at
    /// `(x - w/2, y - h/2)` from the node's center, with the halved
    /// half-extents (rounded down, as all four are).
    pub open spec fn ne_rect(self) -> Rect {
        Rect {
            pos: Vector {
                x: (self.boundary.pos.x - self.boundary.width / 2) as i64,
                y: (self.boundary.pos.y - self.boundary.height / 2) as i64,
            },
            width: (self.boundary.width / 2) as i64,
            height: (self.boundary.height / 2) as i64,
        }
    }

    /// Boundary of the second child: the quadrant centered at
    /// `(x + w/2, y - h/2)`.
    pub open spec fn nw_rect(self) -> Rect {
        Rect {
            pos: Vector {
                x: (self.boundary.pos.x + self.boundary.width / 2) as i64,
                y: (self.boundary.pos.y - self.boundary.height / 2) as i64,
            },
            width: (self.boundary.width / 2) as i64,
            height: (self.boundary.height / 2) as i64,
        }
    }

    /// Boundary of the third child: the quadrant centered at
    /// `(x - w/2, y + h/2)`.
    pub open spec fn se_rect(self) -> Rect {
        Rect {
            pos: Vector {
                x: (self.boundary.pos.x - self.boundary.width / 2) as i64,
                y: (self.boundary.pos.y + self.boundary.height / 2) as i64,
            },
            width: (self.boundary.width / 2) as i64,
            height: (self.boundary.height / 2) as i64,
        }
    }

    /// Boundary of the fourth child: the quadrant centered at
    /// `(x + w/2, y + h/2)`.
    pub open spec fn sw_rect(self) -> Rect {
        Rect {
            pos: Vector {
                x: (self.boundary.pos.x + self.boundary.width / 2) as i64,
                y: (self.boundary.pos.y + self.boundary.height / 2) as i64,
            },
            width: (self.boundary.width / 2) as i64,
            height: (self.boundary.height / 2) as i64,
        }
    }

    /// The points stored under an optional subtree.
    pub open spec fn opt_points(o: Option<Box<QTree>>) -> Seq<Point>
        decreases o,
    {
        match o {
            None => Seq::empty(),
            Some(t) => t.all_points(),
        }
    }

    /// Every point stored in this subtree, in traversal order: the node's
    /// own points, then the four subtrees' (only traversed while divided).
    pub open spec fn all_points(self) -> Seq<Point>
        decreases self,
    {
        if self.is_divided {
            self.points@ + Self::opt_points(self.northeast) + Self::opt_points(self.northwest)
                + Self::opt_points(self.southeast) + Self::opt_points(self.southwest)
        } else {
            self.points@
        }
    }

    /// Whether an insertion of `p` into an optional subtree succeeds.
    pub open spec fn opt_accepts(o: Option<Box<QTree>>, p: Point) -> bool
        decreases o,
    {
        match o {
            None => false,
            Some(t) => t.accepts(p),
        }
    }

    /// Whether an insertion of `p` into this subtree succeeds: the point
    /// must lie in the boundary; a node with room takes it; a divided full
    /// node passes it to the children; a full leaf subdivides into fresh
    /// quadrant children, which take it exactly when a quadrant contains it.
    pub open spec fn accepts(self, p: Point) -> bool
        decreases self,
    {
        if !self.boundary.spec_contains(p.pos) {
            false
        } else if self.points@.len() < self.size {
            true
        } else if self.is_divided {
            Self::opt_accepts(self.northeast, p) || Self::opt_accepts(self.northwest, p)
                || Self::opt_accepts(self.southeast, p) || Self::opt_accepts(self.southwest, p)
        } else {
            self.ne_rect().spec_contains(p.pos) || self.nw_rect().spec_contains(p.pos)
                || self.se_rect().spec_contains(p.pos) || self.sw_rect().spec_contains(p.pos)
        }
    }

    /// Structural invariant: the boundary is a well-formed box with the
    /// center mirrored in `center`, the capacity is at least one, the own
    /// point list never exceeds it and holds only points inside the
    /// boundary, and a divided node has four well-formed children of the
    /// same capacity sitting exactly on the four quadrants.
    pub open spec fn wf(self) -> bool
        decreases self,
    {
        &&& self.boundary.wf()
        &&& self.center == self.boundary.pos
        &&& 1 <= self.size
        &&& self.points@.len() <= self.size
        &&& forall|k: int|
            0 <= k < self.points@.len() ==> self.boundary.spec_contains(
                (#[trigger] self.points@[k]).pos,
            )
        &&& self.is_divided ==> match self.northeast {
            Some(ne) => ne.wf() && ne.boundary == self.ne_rect() && ne.size == self.size,
            None => false,
        }
        &&& self.is_divided ==> match self.northwest {
            Some(nw) => nw.wf() && nw.boundary == self.nw_rect() && nw.size == self.size,
            None => false,
        }
        &&& self.is_divided ==> match self.southeast {
            Some(se) => se.wf() && se.boundary == self.se_rect() && se.size == self.size,
            None => false,
        }
        &&& self.is_divided ==> match self.southwest {
            Some(sw) => sw.wf() && sw.boundary == self.sw_rect() && sw.size == self.size,
            None => false,
        }
    }

    /// A freshly built node: an empty, undivided leaf over the given
    /// boundary.
    pub fn new(center: Vector, size: usize, width: i64, height: i64) -> (t: QTree)
        requires
            1 <= size,
            0 <= width,
            0 <= height,
            (Rect { pos: center, width, height }).wf(),
        ensures
            t.wf(),
            t.boundary == (Rect { pos: center, width, height }),
            t.center == center,
            t.size == size,
            t.is_divided == false,
            t.points@ == Seq::<Point>::empty(),
            t.all_points() == Seq::<Point>::empty(),
            t.northeast is None,
            t.northwest is None,
            t.southeast is None,
            t.southwest is None,
    {
        QTree {
            northeast: None,
            northwest: None,
            southeast: None,
            southwest: None,
            center,
            size,
            points: Vec::new(),
            boundary: Rect { pos: center, width, height },
            is_divided: false,
        }
    }

    /// Every quadrant is contained in the node's boundary.
    proof fn lemma_quadrants_within(self)
        requires
            self.boundary.wf(),
        ensures
            self.ne_rect().wf(),
            self.nw_rect().wf(),
            self.se_rect().wf(),
            self.sw_rect().wf(),
            forall|p: Vector| self.ne_rect().spec_contains(p) ==> self.boundary.spec_contains(p),
            forall|p: Vector| self.nw_rect().spec_contains(p) ==> self.boundary.spec_contains(p),
            forall|p: Vector| self.se_rect().spec_contains(p) ==> self.boundary.spec_contains(p),
            forall|p: Vector| self.sw_rect().spec_contains(p) ==> self.boundary.spec_contains(p),
    {
        lemma_half_bounds(self.boundary.width as int);
        lemma_half_bounds(self.boundary.height as int);
    }

    /// An empty, undivided leaf over the given boundary, with the given
    /// capacity.
    pub open spec fn fresh_child(o: Option<Box<QTree>>, r: Rect, size: usize) -> bool {
        match o {
            Some(t) => t.wf() && t.is_divided == false && t.points@.len() == 0 && t.boundary == r
                && t.size == size,
            None => false,
        }
    }

    /// Mark the node divided and build four fresh, empty children on the
    /// quadrants. Any earlier children are replaced, so the points stored
    /// under the subtree are exactly the node's own from here on.
    pub fn subdivide(&mut self)
        requires
            old(self).wf(),
        ensures
            final(self).wf(),
            final(self).boundary == old(self).boundary,
            final(self).center == old(self).center,
            final(self).size == old(self).size,
            final(self).points@ == old(self).points@,
            final(self).is_divided == true,
            final(self).all_points() == old(self).points@,
            Self::fresh_child(final(self).northeast, old(self).ne_rect(), old(self).size),
            Self::fresh_child(final(self).northwest, old(self).nw_rect(), old(self).size),
            Self::fresh_child(final(self).southeast, old(self).se_rect(), old(self).size),
            Self::fresh_child(final(self).southwest, old(self).sw_rect(), old(self).size),
    {
        proof {
            self.lemma_quadrants_within();
        }
        self.is_divided = true;
        let x = self.boundary.pos.x;
        let y = self.boundary.pos.y;
        let w = self.boundary.width / 2;
        let h = self.boundary.height / 2;

        self.northeast = Some(Box::new(QTree::new(Vector::new(x - w, y - h), self.size, w, h)));
        self.northwest = Some(Box::new(QTree::new(Vector::new(x + w, y - h), self.size, w, h)));
        self.southeast = Some(Box::new(QTree::new(Vector::new(x - w, y + h), self.size, w, h)));
        self.southwest = Some(Box::new(QTree::new(Vector::new(x + w, y + h), self.size, w, h)));
        proof {
            assert(self.all_points() =~= self.points@);
        }
    }

    /// Insertion into an undivided node with room: append the point if it
    /// lies in the boundary, reject it otherwise.
    fn insert_undivided(&mut self, p: &Point) -> (r: bool)
        requires
            old(self).wf(),
            !old(self).is_divided,
            old(self).points@.len() < old(self).size,
        ensures
            final(self).wf(),
            final(self).boundary == old(self).boundary,
            final(self).center == old(self).center,
            final(self).size == old(self).size,
            final(self).is_divided == false,
            r == old(self).boundary.spec_contains(p.pos),
            r ==> final(self).all_points() == old(self).all_points().push(*p),
            !r ==> *final(self) == *old(self),
    {
        if self.boundary.contains(p) {
            self.points.push(*p);
            true
        } else {
            false
        }
    }

    /// Insert a point into the subtree. A point outside the boundary is
    /// rejected; a node with room keeps it itself; a full node subdivides
    /// (if it has not yet) and offers the point to the four children in
    /// order, accepting with the first child that does. `true` means the
    /// point was stored — then the stored points grew by exactly that
    /// point — and `false` that the tree's contents are unchanged (a point
    /// on the gap next to an odd-sized quadrant border can be rejected even
    /// inside the boundary).
    pub fn insert(&mut self, p: &Point) -> (r: bool)
        requires
            old(self).wf(),
        ensures
            final(self).wf(),
            final(self).boundary == old(self).boundary,
            final(self).center == old(self).center,
            final(self).size == old(self).size,
            r == old(self).accepts(*p),
            r ==> final(self).all_points().to_multiset() == old(
                self,
            ).all_points().to_multiset().insert(*p),
            !r ==> final(self).all_points() == old(self).all_points(),
            !old(self).boundary.spec_contains(p.pos) ==> *final(self) == *old(self),
            old(self).boundary.spec_contains(p.pos) && old(self).points@.len() < old(self).size
                ==> final(self).is_divided == old(self).is_divided && final(self).points@ == old(
                self,
            ).points@.push(*p),
            !(old(self).boundary.spec_contains(p.pos) && old(self).points@.len() < old(self).size)
                ==> final(self).points@ == old(self).points@,
            old(self).boundary.spec_contains(p.pos) && old(self).points@.len() >= old(self).size
                ==> final(self).is_divided,
            old(self).is_divided ==> final(self).is_divided,
        decreases *old(self),
    {
        let ghost pre = *self;
        if !self.boundary.contains(p) {
            false
        } else if self.points.len() < self.size {
            self.points.push(*p);
            proof {
                broadcast use vstd::seq_lib::group_to_multiset_ensures;
                broadcast use vstd::multiset::group_multiset_axioms;

                if pre.is_divided {
                    lemma_concat5_multiset(
                        pre.points@,
                        Self::opt_points(pre.northeast),
                        Self::opt_points(pre.northwest),
                        Self::opt_points(pre.southeast),
                        Self::opt_points(pre.southwest),
                    );
                    lemma_concat5_multiset(
                        pre.points@.push(*p),
                        Self::opt_points(pre.northeast),
                        Self::opt_points(pre.northwest),
                        Self::opt_points(pre.southeast),
                        Self::opt_points(pre.southwest),
                    );
                    assert(self.all_points().to_multiset() =~= pre.all_points().to_multiset()
                        .insert(*p));
                } else {
                    assert(self.all_points().to_multiset() =~= pre.all_points().to_multiset()
                        .insert(*p));
                }
            }
            true
        } else if self.is_divided {
            let mut ne = self.northeast.take().unwrap();
            let r1 = (&mut *ne).insert(p);
            self.northeast = Some(ne);
            if r1 {
                proof {
                    Self::lemma_child_multisets(pre, *self, *p);
                }
                return true;
            }
            let mut nw = self.northwest.take().unwrap();
            let r2 = (&mut *nw).insert(p);
            self.northwest = Some(nw);
            if r2 {
                proof {
                    Self::lemma_child_multisets(pre, *self, *p);
                }
                return true;
            }
            let mut se = self.southeast.take().unwrap();
            let r3 = (&mut *se).insert(p);
            self.southeast = Some(se);
            if r3 {
                proof {
                    Self::lemma_child_multisets(pre, *self, *p);
                }
                return true;
            }
            let mut sw = self.southwest.take().unwrap();
            let r4 = (&mut *sw).insert(p);
            self.southwest = Some(sw);
            if r4 {
                proof {
                    Self::lemma_child_multisets(pre, *self, *p);
                }
                return true;
            }
            proof {
                assert(self.all_points() =~= pre.all_points());
            }
            false
        } else {
            self.subdivide();
            let ghost mid = *self;
            let mut ne = self.northeast.take().unwrap();
            let r1 = (&mut *ne).insert_undivided(p);
            self.northeast = Some(ne);
            if r1 {
                proof {
                    broadcast use vstd::seq_lib::group_to_multiset_ensures;

                    Self::lemma_child_multisets(mid, *self, *p);
                    assert(mid.all_points().to_multiset() =~= pre.all_points().to_multiset());
                }
                return true;
            }
            let mut nw = self.northwest.take().unwrap();
            let r2 = (&mut *nw).insert_undivided(p);
            self.northwest = Some(nw);
            if r2 {
                proof {
                    broadcast use vstd::seq_lib::group_to_multiset_ensures;

                    Self::lemma_child_multisets(mid, *self, *p);
                    assert(mid.all_points().to_multiset() =~= pre.all_points().to_multiset());
                }
                return true;
            }
            let mut se = self.southeast.take().unwrap();
            let r3 = (&mut *se).insert_undivided(p);
            self.southeast = Some(se);
            if r3 {
                proof {
                    broadcast use vstd::seq_lib::group_to_multiset_ensures;

                    Self::lemma_child_multisets(mid, *self, *p);
                    assert(mid.all_points().to_multiset() =~= pre.all_points().to_multiset());
                }
                return true;
            }
            let mut sw = self.southwest.take().unwrap();
            let r4 = (&mut *sw).insert_undivided(p);
            self.southwest = Some(sw);
            if r4 {
                proof {
                    broadcast use vstd::seq_lib::group_to_multiset_ensures;

                    Self::lemma_child_multisets(mid, *self, *p);
                    assert(mid.all_points().to_multiset() =~= pre.all_points().to_multiset());
                }
                return true;
            }
            proof {
                assert(self.all_points() =~= pre.all_points());
            }
            false
        }
    }

    /// Lifting a change in one child to the whole node: if exactly one
    /// child's contents grew by a point (sequence-wise, a push; the other
    /// three children and the own list unchanged), the node's contents grew
    /// by that point.
    /// One of the four children's contents grew by `p` while the other
    /// three children's contents are unchanged.
    spec fn one_child_grew(pre: QTree, post: QTree, p: Point) -> bool {
        ||| (Self::opt_points(post.northeast).to_multiset() == Self::opt_points(
            pre.northeast,
        ).to_multiset().insert(p) && Self::opt_points(post.northwest) == Self::opt_points(
            pre.northwest,
        ) && Self::opt_points(post.southeast) == Self::opt_points(pre.southeast)
            && Self::opt_points(post.southwest) == Self::opt_points(pre.southwest))
        ||| (Self::opt_points(post.northwest).to_multiset() == Self::opt_points(
            pre.northwest,
        ).to_multiset().insert(p) && Self::opt_points(post.northeast) == Self::opt_points(
            pre.northeast,
        ) && Self::opt_points(post.southeast) == Self::opt_points(pre.southeast)
            && Self::opt_points(post.southwest) == Self::opt_points(pre.southwest))
        ||| (Self::opt_points(post.southeast).to_multiset() == Self::opt_points(
            pre.southeast,
        ).to_multiset().insert(p) && Self::opt_points(post.northeast) == Self::opt_points(
            pre.northeast,
        ) && Self::opt_points(post.northwest) == Self::opt_points(pre.northwest)
            && Self::opt_points(post.southwest) == Self::opt_points(pre.southwest))
        ||| (Self::opt_points(post.southwest).to_multiset() == Self::opt_points(
            pre.southwest,
        ).to_multiset().insert(p) && Self::opt_points(post.northeast) == Self::opt_points(
            pre.northeast,
        ) && Self::opt_points(post.northwest) == Self::opt_points(pre.northwest)
            && Self::opt_points(post.southeast) == Self::opt_points(pre.southeast))
    }

    proof fn lemma_child_multisets(pre: QTree, post: QTree, p: Point)
        requires
            pre.is_divided,
            post.is_divided,
            post.points@ == pre.points@,
            Self::one_child_grew(pre, post, p),
        ensures
            post.all_points().to_multiset() == pre.all_points().to_multiset().insert(p),
    {
        broadcast use vstd::multiset::group_multiset_axioms;

        lemma_concat5_multiset(
            pre.points@,
            Self::opt_points(pre.northeast),
            Self::opt_points(pre.northwest),
            Self::opt_points(pre.southeast),
            Self::opt_points(pre.southwest),
        );
        lemma_concat5_multiset(
            post.points@,
            Self::opt_points(post.northeast),
            Self::opt_points(post.northwest),
            Self::opt_points(post.southeast),
            Self::opt_points(post.southwest),
        );
        assert(post.all_points().to_multiset() =~= pre.all_points().to_multiset().insert(p));
    }

    /// Every point stored anywhere in a well-formed subtree lies within the
    /// subtree's boundary (children sit on quadrants of their parent).
    proof fn lemma_points_within_boundary(self)
        requires
            self.wf(),
        ensures
            forall|k: int|
                0 <= k < self.all_points().len() ==> self.boundary.spec_contains(
                    (#[trigger] self.all_points()[k]).pos,
                ),
        decreases self,
    {
        if self.is_divided {
            self.lemma_quadrants_within();
            let ne = self.northeast.unwrap();
            let nw = self.northwest.unwrap();
            let se = self.southeast.unwrap();
            let sw = self.southwest.unwrap();
            ne.lemma_points_within_boundary();
            nw.lemma_points_within_boundary();
            se.lemma_points_within_boundary();
            sw.lemma_points_within_boundary();
            assert forall|k: int| 0 <= k < self.all_points().len() implies self.boundary
                .spec_contains((#[trigger] self.all_points()[k]).pos) by {
                let a = self.points@;
                let s1 = Self::opt_points(self.northeast);
                let s2 = Self::opt_points(self.northwest);
                let s3 = Self::opt_points(self.southeast);
                let s4 = Self::opt_points(self.southwest);
                let l0 = a.len() as int;
                let l1 = l0 + s1.len();
                let l2 = l1 + s2.len();
                let l3 = l2 + s3.len();
                if k < l0 {
                    assert(self.all_points()[k] == a[k]);
                } else if k < l1 {
                    assert(self.all_points()[k] == s1[k - l0]);
                } else if k < l2 {
                    assert(self.all_points()[k] == s2[k - l1]);
                } else if k < l3 {
                    assert(self.all_points()[k] == s3[k - l2]);
                } else {
                    assert(self.all_points()[k] == s4[k - l3]);
                }
            }
        }
    }

    /// Collect every stored point of the subtree whose position lies inside
    /// `rect`, in traversal order; a subtree whose boundary misses `rect` is
    /// pruned, which loses nothing since its points all lie within its
    /// boundary.
    pub fn query(&self, rect: &Rect) -> (res: Vec<Point>)
        requires
            self.wf(),
            rect.wf(),
        ensures
            res@ == points_in(self.all_points(), *rect),
        decreases *self,
    {
        let mut res: Vec<Point> = Vec::new();
        if !self.boundary.intersects_r(rect) {
            proof {
                self.lemma_points_within_boundary();
                assert forall|k: int| 0 <= k < self.all_points().len() implies !rect.spec_contains(
                    (#[trigger] self.all_points()[k]).pos,
                ) by {
                    if rect.spec_contains(self.all_points()[k].pos) {
                        lemma_common_point_intersects(self.boundary, *rect, self.all_points()[k].pos);
                    }
                }
                bounds::lemma_points_in_none(self.all_points(), *rect);
            }
            return res;
        }
        let mut i: usize = 0;
        while i < self.points.len()
            invariant
                i <= self.points@.len(),
                rect.wf(),
                res@ == points_in(self.points@.take(i as int), *rect),
            decreases self.points@.len() - i,
        {
            let pt = self.points[i];
            proof {
                reveal(Seq::filter);
                assert(self.points@.take(i as int + 1).drop_last() =~= self.points@.take(i as int));
                assert(self.points@.take(i as int + 1).last() == self.points@[i as int]);
            }
            if rect.contains(&pt) {
                res.push(pt);
            }
            i += 1;
        }
        proof {
            assert(self.points@.take(self.points@.len() as int) =~= self.points@);
        }
        if self.is_divided {
            match (&self.northeast, &self.northwest, &self.southeast, &self.southwest) {
                (Some(ne), Some(nw), Some(se), Some(sw)) => {
                    let mut r1 = ne.query(rect);
                    res.append(&mut r1);
                    let mut r2 = nw.query(rect);
                    res.append(&mut r2);
                    let mut r3 = se.query(rect);
                    res.append(&mut r3);
                    let mut r4 = sw.query(rect);
                    res.append(&mut r4);
                    proof {
                        let a = self.points@;
                        let s1 = Self::opt_points(self.northeast);
                        let s2 = Self::opt_points(self.northwest);
                        let s3 = Self::opt_points(self.southeast);
                        let s4 = Self::opt_points(self.southwest);
                        bounds::lemma_points_in_distributes(a, s1, *rect);
                        bounds::lemma_points_in_distributes(a + s1, s2, *rect);
                        bounds::lemma_points_in_distributes(a + s1 + s2, s3, *rect);
                        bounds::lemma_points_in_distributes(a + s1 + s2 + s3, s4, *rect);
                    }
                },
                _ => {
                    proof {
                        assert(false);
                    }
                },
            }
        }
        res
    }

    /// The observable result of `clear`: geometry and capacity kept, the
    /// node undivided and holding nothing.
    pub open spec fn cleared(pre: QTree, post: QTree) -> bool {
        post.boundary == pre.boundary && post.center == pre.center && post.size == pre.size
            && post.is_divided == false && post.all_points() == Seq::<Point>::empty()
    }

    /// Empty the subtree: the own list and, recursively, the children's, and
    /// mark every node undivided. The child structures stay allocated but
    /// unobservable: `subdivide` builds fresh ones.
    pub fn clear(&mut self)
        requires
            old(self).wf(),
        ensures
            final(self).wf(),
            Self::cleared(*old(self), *final(self)),
        decreases *old(self),
    {
        self.points = Vec::new();
        if self.is_divided {
            let mut ne = self.northeast.take().unwrap();
            (&mut *ne).clear();
            self.northeast = Some(ne);
            let mut nw = self.northwest.take().unwrap();
            (&mut *nw).clear();
            self.northwest = Some(nw);
            let mut se = self.southeast.take().unwrap();
            (&mut *se).clear();
            self.southeast = Some(se);
            let mut sw = self.southwest.take().unwrap();
            (&mut *sw).clear();
            self.southwest = Some(sw);
        }
        self.is_divided = false;
    }
}

/// Quadtree round trip: once an insertion has stored a point, any query box
/// around the point's position finds it, and a query box that misses the
/// position never returns it. The hypotheses are exactly what `insert`
/// ensures of a `true` return and what `query` returns.
pub proof fn lemma_insert_query_roundtrip(pre: QTree, post: QTree, p: Point, r1: Rect, r2: Rect)
    requires
        post.all_points().to_multiset() == pre.all_points().to_multiset().insert(p),
        r1.spec_contains(p.pos),
        !r2.spec_contains(p.pos),
    ensures
        points_in(post.all_points(), r1).contains(p),
        !points_in(post.all_points(), r2).contains(p),
{
    broadcast use vstd::seq_lib::group_to_multiset_ensures;
    broadcast use vstd::multiset::group_multiset_axioms;

    assert(post.all_points().to_multiset().count(p) > 0);
    assert(post.all_points().contains(p));
    bounds::lemma_points_in_contains(post.all_points(), r1, p);
    bounds::lemma_points_in_excludes(post.all_points(), r2, p);
}

/// Capacity overflow, the accepting half: a full, undivided node accepts
/// any point of its boundary that also lies in one of the four quadrants —
/// the reading of a well-separated point. With `insert`'s contract this
/// says the overflow insertion subdivides the node, returns `true`, and
/// stores the point.
pub proof fn lemma_full_leaf_accepts(t: QTree, p: Point)
    requires
        t.boundary.spec_contains(p.pos),
        t.points@.len() >= t.size,
        !t.is_divided,
        t.ne_rect().spec_contains(p.pos) || t.nw_rect().spec_contains(p.pos)
            || t.se_rect().spec_contains(p.pos) || t.sw_rect().spec_contains(p.pos),
    ensures
        t.accepts(p),
{
}

/// Capacity overflow, the retrieval half: a query over a box around a
/// point's position returns that point exactly as often as the tree stores
/// it. With `insert`'s contract — each accepted insertion grows the stored
/// multiset by exactly its point — distinct inserted points each come back
/// exactly once from a query over the full boundary.
pub proof fn lemma_query_counts_stored(t: QTree, r: Rect, p: Point)
    requires
        r.spec_contains(p.pos),
    ensures
        points_in(t.all_points(), r).to_multiset().count(p) == t.all_points().to_multiset().count(
            p,
        ),
{
    bounds::lemma_points_in_count(t.all_points(), r, p);
}

/// Clear idempotence, first half: clearing an already cleared tree changes
/// nothing observable. The hypotheses are `clear`'s postcondition, applied
/// twice in a row.
pub proof fn lemma_clear_idempotent(t0: QTree, t1: QTree, t2: QTree)
    requires
        QTree::cleared(t0, t1),
        QTree::cleared(t1, t2),
    ensures
        t2.boundary == t1.boundary,
        t2.center == t1.center,
        t2.size == t1.size,
        t2.is_divided == t1.is_divided,
        t2.all_points() == t1.all_points(),
{
}

/// Clear idempotence, second half: every query of a cleared tree returns
/// nothing, whatever the box.
pub proof fn lemma_cleared_query_empty(t: QTree, r: Rect)
    requires
        t.all_points() == Seq::<Point>::empty(),
    ensures
        points_in(t.all_points(), r) == Seq::<Point>::empty(),
{
    bounds::lemma_points_in_none(t.all_points(), r);
}

/// `to_multiset` of the five-way concatenation used by `all_points`.
proof fn lemma_concat5_multiset(
    a: Seq<Point>,
    b: Seq<Point>,
    c: Seq<Point>,
    d: Seq<Point>,
    e: Seq<Point>,
)
    ensures
        (a + b + c + d + e).to_multiset() == a.to_multiset().add(b.to_multiset()).add(
            c.to_multiset(),
        ).add(d.to_multiset()).add(e.to_multiset()),
{
    broadcast use vstd::multiset::group_multiset_axioms;

    lemma_multiset_commutative(a, b);
    lemma_multiset_commutative(a + b, c);
    lemma_multiset_commutative(a + b + c, d);
    lemma_multiset_commutative(a + b + c + d, e);
}

} // verus!
