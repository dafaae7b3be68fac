//! Ray / wall intersection over exact integer arithmetic.
//!
//! A wall is a finite segment `p1 -> p2`; a ray is the half-line
//! `origin + u * dir`, `u >= 0`. The intersection is found by solving the
//! standard two-parametrization 2x2 system with integer determinants; the
//! intersection point is returned as an exact rational point. A zero
//! determinant (parallel or degenerate input) yields no intersection.

use vstd::prelude::*;

use crate::arith::{lemma_convex_bound, lemma_cramer, lemma_dist_factor, lemma_mul_le, lemma_point_on_ray, lemma_rat_lt_trans, lemma_sq_lt_iff};
use crate::vector::{Vector, MAX_COORD};

verus! {

/// Largest magnitude of a ray direction coordinate (a direction built by
/// [`Ray::point_at`] is a difference of two in-bound points).
pub const MAX_DIR: i64 = 200_000;

/// Bound on the intersection determinant and on the numerators of the two
/// segment parameters: each is a sum of two products of differences of
/// in-bound coordinates.
pub const DET_BOUND: i128 = 80_000_000_000;

/// Bound on the numerators of an intersection point:
/// `|p1 * den| + |tn * (p2 - p1)| <= 100_000 * DET_BOUND + DET_BOUND * 200_000`.
pub const NUM_BOUND: i128 = 24_000_000_000_000_000;

/// A finite line segment between two endpoints.
#[derive(Clone, Copy, Debug, PartialEq, Eq, Structural)]
pub struct Wall {
    pub p1: Vector,
    pub p2: Vector,
}

/// A half-line `origin + u * dir`, `u >= 0`. The direction need not be
/// normalized: any nonzero multiple denotes the same half-line.
#[derive(Clone, Copy, Debug, PartialEq, Eq, Structural)]
pub struct Ray {
    pub origin: Vector,
    pub dir: Vector,
}

/// An exact rational point of the plane: `(nx / den, ny / den)` with
/// `den > 0`.
#[derive(Clone, Copy, Debug, PartialEq, Eq, Structural)]
pub struct RatPoint {
    pub nx: i128,
    pub ny: i128,
    pub den: i128,
}

/// The exact value of a rational point, as a triple of unbounded integers.
pub ghost struct HitPoint {
    pub nx: int,
    pub ny: int,
    pub den: int,
}

impl View for RatPoint {
    type V = HitPoint;

    open spec fn view(&self) -> HitPoint {
        HitPoint { nx: self.nx as int, ny: self.ny as int, den: self.den as int }
    }
}

impl RatPoint {
    /// Positive denominator, and both numerators small enough that squared
    /// distances still fit in 128 bits.
    pub open spec fn wf(self) -> bool {
        0 < self.den <= DET_BOUND && -NUM_BOUND <= self.nx <= NUM_BOUND && -NUM_BOUND <= self.ny
            <= NUM_BOUND
    }
}

impl Wall {
    pub open spec fn wf(self) -> bool {
        self.p1.wf() && self.p2.wf()
    }

    pub fn new(p1: Vector, p2: Vector) -> (w: Wall)
        ensures
            w.p1 == p1,
            w.p2 == p2,
    {
        Wall { p1, p2 }
    }
}

/// The determinant of the intersection system: zero exactly when the wall and
/// the ray direction are parallel (or one of them is degenerate).
pub open spec fn det_of(w: Wall, r: Ray) -> int {
    let x4 = r.origin.x + r.dir.x;
    let y4 = r.origin.y + r.dir.y;
    (w.p1.x - w.p2.x) * (r.origin.y - y4) - (w.p1.y - w.p2.y) * (r.origin.x - x4)
}

/// Numerator of the wall parameter `t` (the wall point is `p1 + t * (p2 - p1)`).
pub open spec fn t_num_of(w: Wall, r: Ray) -> int {
    let x4 = r.origin.x + r.dir.x;
    let y4 = r.origin.y + r.dir.y;
    (w.p1.x - r.origin.x) * (r.origin.y - y4) - (w.p1.y - r.origin.y) * (r.origin.x - x4)
}

/// Numerator of the ray parameter `u` (the ray point is `origin + u * dir`).
pub open spec fn u_num_of(w: Wall, r: Ray) -> int {
    (w.p1.y - w.p2.y) * (w.p1.x - r.origin.x) - (w.p1.x - w.p2.x) * (w.p1.y - r.origin.y)
}

/// `|det|`: the common positive denominator of `t` and `u` once their
/// numerators are flipped to match.
pub open spec fn hit_den(w: Wall, r: Ray) -> int {
    if det_of(w, r) >= 0 {
        det_of(w, r)
    } else {
        0 - det_of(w, r)
    }
}

/// Numerator of `t` over the positive denominator `hit_den`.
pub open spec fn hit_tn(w: Wall, r: Ray) -> int {
    if det_of(w, r) >= 0 {
        t_num_of(w, r)
    } else {
        0 - t_num_of(w, r)
    }
}

/// Numerator of `u` over the positive denominator `hit_den`.
pub open spec fn hit_un(w: Wall, r: Ray) -> int {
    if det_of(w, r) >= 0 {
        u_num_of(w, r)
    } else {
        0 - u_num_of(w, r)
    }
}

/// The semi-infinite ray crosses the finite segment: the lines are not
/// parallel, the crossing sits within the segment (`0 <= t <= 1`) and ahead
/// of the ray origin (`u >= 0`).
pub open spec fn cast_hits(w: Wall, r: Ray) -> bool {
    det_of(w, r) != 0 && 0 <= hit_tn(w, r) && hit_tn(w, r) <= hit_den(w, r) && hit_un(w, r) >= 0
}

/// The exact intersection point, computed from the wall's own
/// parametrization: `p1 + t * (p2 - p1)`.
pub open spec fn hit_point(w: Wall, r: Ray) -> HitPoint {
    HitPoint {
        nx: w.p1.x * hit_den(w, r) + hit_tn(w, r) * (w.p2.x - w.p1.x),
        ny: w.p1.y * hit_den(w, r) + hit_tn(w, r) * (w.p2.y - w.p1.y),
        den: hit_den(w, r),
    }
}

/// What `cast` returns: the intersection point if the ray crosses the wall.
pub open spec fn cast_spec(w: Wall, r: Ray) -> Option<HitPoint> {
    if cast_hits(w, r) {
        Some(hit_point(w, r))
    } else {
        None
    }
}

/// Numerator of the exact squared distance of the rational point `p` from
/// the integer point `(ox, oy)`: the squared distance itself is this over
/// `p.den * p.den`.
pub open spec fn dist_sq_num(p: HitPoint, ox: int, oy: int) -> int {
    (p.nx - ox * p.den) * (p.nx - ox * p.den) + (p.ny - oy * p.den) * (p.ny - oy * p.den)
}

/// The rational point `a` is strictly closer to `(ox, oy)` than `b`:
/// the exact squared distances, compared by cross-multiplication.
pub open spec fn closer(a: HitPoint, b: HitPoint, ox: int, oy: int) -> bool {
    dist_sq_num(a, ox, oy) * (b.den * b.den) < dist_sq_num(b, ox, oy) * (a.den * a.den)
}

/// What `look` returns: scan the walls in order and keep the hit nearest to
/// the ray origin; a later hit replaces the kept one only if strictly
/// closer, so among equally near hits the earliest wall wins.
pub open spec fn look_spec(r: Ray, walls: Seq<Wall>) -> Option<HitPoint>
    decreases walls.len(),
{
    if walls.len() == 0 {
        None
    } else {
        let prev = look_spec(r, walls.drop_last());
        match cast_spec(walls.last(), r) {
            None => prev,
            Some(c) => match prev {
                None => Some(c),
                Some(p) => if closer(c, p, r.origin.x as int, r.origin.y as int) {
                    Some(c)
                } else {
                    Some(p)
                },
            },
        }
    }
}

/// The wall's direction and the ray's direction are parallel: their cross
/// product vanishes. Identical directions are the case of equal vectors.
pub open spec fn parallel(w: Wall, r: Ray) -> bool {
    (w.p2.x - w.p1.x) * r.dir.y == (w.p2.y - w.p1.y) * r.dir.x
}

/// Parallel rejection: a ray whose direction is parallel to the wall never
/// intersects it, whatever the positions.
pub proof fn lemma_parallel_rejection(w: Wall, r: Ray)
    requires
        parallel(w, r),
    ensures
        cast_spec(w, r) is None,
{
    let d = det_of(w, r);
    assert(d == (w.p2.x - w.p1.x) * r.dir.y - (w.p2.y - w.p1.y) * r.dir.x) by (nonlinear_arith)
        requires
            d == (w.p1.x - w.p2.x) * (r.origin.y - (r.origin.y + r.dir.y)) - (w.p1.y - w.p2.y) * (
            r.origin.x - (r.origin.x + r.dir.x)),
    ;
}

/// A direction that is any integer multiple of the wall's direction is
/// parallel to it; the multiple 1 is an identical direction.
pub proof fn lemma_scaled_dir_parallel(w: Wall, r: Ray, k: int)
    requires
        r.dir.x == k * (w.p2.x - w.p1.x),
        r.dir.y == k * (w.p2.y - w.p1.y),
    ensures
        parallel(w, r),
{
    assert((w.p2.x - w.p1.x) * (k * (w.p2.y - w.p1.y)) == (w.p2.y - w.p1.y) * (k * (w.p2.x
        - w.p1.x))) by (nonlinear_arith);
}

/// Segment containment: an intersection point returned by `cast` lies within
/// the closed bounding box of the wall's two endpoints (coordinates compared
/// exactly, scaled by the point's positive denominator).
pub proof fn lemma_hit_within_wall_box(w: Wall, r: Ray)
    requires
        cast_hits(w, r),
    ensures
        w.p1.x <= w.p2.x ==> w.p1.x * hit_point(w, r).den <= hit_point(w, r).nx && hit_point(
            w,
            r,
        ).nx <= w.p2.x * hit_point(w, r).den,
        w.p2.x <= w.p1.x ==> w.p2.x * hit_point(w, r).den <= hit_point(w, r).nx && hit_point(
            w,
            r,
        ).nx <= w.p1.x * hit_point(w, r).den,
        w.p1.y <= w.p2.y ==> w.p1.y * hit_point(w, r).den <= hit_point(w, r).ny && hit_point(
            w,
            r,
        ).ny <= w.p2.y * hit_point(w, r).den,
        w.p2.y <= w.p1.y ==> w.p2.y * hit_point(w, r).den <= hit_point(w, r).ny && hit_point(
            w,
            r,
        ).ny <= w.p1.y * hit_point(w, r).den,
{
    lemma_convex_bound(
        w.p1.x as int,
        w.p2.x as int,
        hit_den(w, r),
        hit_tn(w, r),
        hit_point(w, r).nx,
    );
    lemma_convex_bound(
        w.p1.y as int,
        w.p2.y as int,
        hit_den(w, r),
        hit_tn(w, r),
        hit_point(w, r).ny,
    );
}

/// Among two hits of the same ray, `closer` orders by exact distance; a hit
/// strictly closer than `p` is strictly closer than anything not strictly
/// closer than `p`.
proof fn lemma_closer_trans(c: HitPoint, p: HitPoint, q: HitPoint, ox: int, oy: int)
    requires
        c.den > 0,
        p.den > 0,
        q.den > 0,
        closer(c, p, ox, oy),
        !closer(q, p, ox, oy),
    ensures
        closer(c, q, ox, oy),
        !closer(q, c, ox, oy),
{
    assert(c.den * c.den > 0 && p.den * p.den > 0 && q.den * q.den > 0) by (nonlinear_arith)
        requires
            c.den > 0,
            p.den > 0,
            q.den > 0,
    ;
    lemma_rat_lt_trans(
        dist_sq_num(c, ox, oy),
        dist_sq_num(p, ox, oy),
        dist_sq_num(q, ox, oy),
        c.den * c.den,
        p.den * p.den,
        q.den * q.den,
    );
}

/// Closest-hit correctness: `look`'s result is a hit of one of the walls, no
/// wall's hit is strictly closer to the ray origin, and every hit of an
/// earlier wall is strictly farther (of equally near hits the earliest wall
/// wins); and `look` returns nothing exactly when no wall is hit. The
/// returned index is the witness wall.
pub proof fn lemma_look_closest(r: Ray, walls: Seq<Wall>) -> (wit: int)
    ensures
        (look_spec(r, walls) is None) <==> (forall|k: int|
            0 <= k < walls.len() ==> (#[trigger] cast_spec(walls[k], r)) is None),
        look_spec(r, walls) is Some ==> 0 <= wit < walls.len() && cast_spec(walls[wit], r)
            == look_spec(r, walls),
        look_spec(r, walls) is Some ==> forall|k: int|
            0 <= k < walls.len() && (#[trigger] cast_spec(walls[k], r)) is Some ==> !closer(
                cast_spec(walls[k], r).unwrap(),
                look_spec(r, walls).unwrap(),
                r.origin.x as int,
                r.origin.y as int,
            ),
        look_spec(r, walls) is Some ==> forall|k: int|
            0 <= k < wit && (#[trigger] cast_spec(walls[k], r)) is Some ==> closer(
                look_spec(r, walls).unwrap(),
                cast_spec(walls[k], r).unwrap(),
                r.origin.x as int,
                r.origin.y as int,
            ),
    decreases walls.len(),
{
    let ox = r.origin.x as int;
    let oy = r.origin.y as int;
    if walls.len() == 0 {
        0
    } else {
        let prefix = walls.drop_last();
        let w0 = lemma_look_closest(r, prefix);
        assert(forall|k: int| 0 <= k < prefix.len() ==> prefix[k] == walls[k]);
        let prev = look_spec(r, prefix);
        let cur = cast_spec(walls.last(), r);
        let last = walls.len() - 1;
        assert(walls[last] == walls.last());
        match cur {
            None => {
                w0
            },
            Some(c) => {
                assert(c.den > 0);
                match prev {
                    None => {
                        last
                    },
                    Some(p) => {
                        assert(cast_spec(prefix[w0], r) == Some(p));
                        assert(p.den > 0);
                        if closer(c, p, ox, oy) {
                            assert forall|k: int|
                                0 <= k < walls.len() && (#[trigger] cast_spec(walls[k], r))
                                    is Some implies !closer(
                                cast_spec(walls[k], r).unwrap(),
                                c,
                                ox,
                                oy,
                            ) && (k < last ==> closer(
                                c,
                                cast_spec(walls[k], r).unwrap(),
                                ox,
                                oy,
                            )) by {
                                if k < last {
                                    let q = cast_spec(walls[k], r).unwrap();
                                    assert(cast_spec(prefix[k], r) == Some(q));
                                    assert(q.den > 0);
                                    lemma_closer_trans(c, p, q, ox, oy);
                                }
                            }
                            last
                        } else {
                            w0
                        }
                    },
                }
            },
        }
    }
}

/// A ray with a zero direction vector is parallel to everything: the
/// determinant degenerates to zero.
proof fn lemma_zero_dir_det(w: Wall, r: Ray)
    requires
        det_of(w, r) != 0,
    ensures
        r.dir.x != 0 || r.dir.y != 0,
{
    if r.dir.x == 0 && r.dir.y == 0 {
        assert((w.p1.x - w.p2.x) * (r.origin.y - (r.origin.y + r.dir.y)) - (w.p1.y - w.p2.y) * (
        r.origin.x - (r.origin.x + r.dir.x)) == 0) by (nonlinear_arith)
            requires
                r.dir.x == 0int,
                r.dir.y == 0int,
        ;
    }
}

/// Hits of the same ray compare by their ray parameter: since both points
/// lie on the line `origin + u * dir` with `u >= 0`, the nearer one is the
/// one with the smaller `u`, compared exactly by cross-multiplication.
proof fn lemma_closer_iff_u(
    c: HitPoint,
    b: HitPoint,
    ox: int,
    oy: int,
    dx: int,
    dy: int,
    uc: int,
    ub: int,
)
    requires
        c.den > 0,
        b.den > 0,
        uc >= 0,
        ub >= 0,
        dx != 0 || dy != 0,
        c.nx - ox * c.den == uc * dx,
        c.ny - oy * c.den == uc * dy,
        b.nx - ox * b.den == ub * dx,
        b.ny - oy * b.den == ub * dy,
    ensures
        closer(c, b, ox, oy) <==> uc * b.den < ub * c.den,
{
    let l = dx * dx + dy * dy;
    assert(l > 0) by (nonlinear_arith)
        requires
            dx != 0 || dy != 0,
            l == dx * dx + dy * dy,
    ;
    let a1 = uc * b.den;
    let a2 = ub * c.den;
    assert(a1 >= 0 && a2 >= 0) by (nonlinear_arith)
        requires
            uc >= 0,
            ub >= 0,
            c.den > 0,
            b.den > 0,
            a1 == uc * b.den,
            a2 == ub * c.den,
    ;
    lemma_dist_factor(c.nx - ox * c.den, c.ny - oy * c.den, uc, dx, dy, b.den as int);
    assert(dist_sq_num(c, ox, oy) * (b.den * b.den) == (a1 * a1) * l);
    lemma_dist_factor(b.nx - ox * b.den, b.ny - oy * b.den, ub, dx, dy, c.den as int);
    assert(dist_sq_num(b, ox, oy) * (c.den * c.den) == (a2 * a2) * l);
    assert((a1 * a1) * l < (a2 * a2) * l <==> a1 * a1 < a2 * a2) by (nonlinear_arith)
        requires
            l > 0,
    ;
    lemma_sq_lt_iff(a1, a2);
}

impl Ray {
    pub open spec fn wf(self) -> bool {
        self.origin.wf() && -MAX_DIR <= self.dir.x <= MAX_DIR && -MAX_DIR <= self.dir.y <= MAX_DIR
    }

    pub fn new(origin: Vector, dir: Vector) -> (r: Ray)
        ensures
            r.origin == origin,
            r.dir == dir,
    {
        Ray { origin, dir }
    }

    /// Aim the ray at a target point, keeping the origin. The direction is
    /// the exact offset from the origin to the target; it is not normalized,
    /// which leaves the half-line unchanged.
    pub fn point_at(&mut self, p: Vector)
        requires
            old(self).origin.wf(),
            p.wf(),
        ensures
            final(self).origin == old(self).origin,
            final(self).dir.x == p.x - old(self).origin.x,
            final(self).dir.y == p.y - old(self).origin.y,
            final(self).wf(),
    {
        let dir = Vector { x: p.x - self.origin.x, y: p.y - self.origin.y };
        self.dir = dir;
    }

    /// Intersection of this ray with a single wall, if any: `cast_spec`,
    /// exactly.
    pub fn cast(&self, wall: &Wall) -> (res: Option<RatPoint>)
        requires
            self.wf(),
            wall.wf(),
        ensures
            res.is_some() == cast_hits(*wall, *self),
            res matches Some(p) ==> p@ == hit_point(*wall, *self) && p.wf(),
    {
        match self.cast_inner(wall) {
            Some((p, _)) => Some(p),
            None => None,
        }
    }

    /// Shared core of `cast` and `look`: also hands back the numerator of
    /// the ray parameter `u`, which `look` uses to compare hit distances
    /// exactly, and the algebraic link between the two parametrizations.
    fn cast_inner(&self, wall: &Wall) -> (res: Option<(RatPoint, i128)>)
        requires
            self.wf(),
            wall.wf(),
        ensures
            res.is_some() == cast_hits(*wall, *self),
            res matches Some((p, un)) ==> p@ == hit_point(*wall, *self) && p.wf() && un == hit_un(
                *wall,
                *self,
            ) && 0 <= un <= DET_BOUND && p.nx - self.origin.x * p.den == un * self.dir.x && p.ny
                - self.origin.y * p.den == un * self.dir.y,
    {
        let x1: i128 = wall.p1.x as i128;
        let y1: i128 = wall.p1.y as i128;
        let x2: i128 = wall.p2.x as i128;
        let y2: i128 = wall.p2.y as i128;
        let x3: i128 = self.origin.x as i128;
        let y3: i128 = self.origin.y as i128;
        let x4: i128 = x3 + self.dir.x as i128;
        let y4: i128 = y3 + self.dir.y as i128;

        proof {
            lemma_mul_le(x1 - x2, y3 - y4, 200_000, 200_000);
            lemma_mul_le(y1 - y2, x3 - x4, 200_000, 200_000);
            lemma_mul_le(x1 - x3, y3 - y4, 200_000, 200_000);
            lemma_mul_le(y1 - y3, x3 - x4, 200_000, 200_000);
            lemma_mul_le(y1 - y2, x1 - x3, 200_000, 200_000);
            lemma_mul_le(x1 - x2, y1 - y3, 200_000, 200_000);
        }

        let d: i128 = (x1 - x2) * (y3 - y4) - (y1 - y2) * (x3 - x4);
        if d == 0 {
            return None;
        }
        let t_num: i128 = (x1 - x3) * (y3 - y4) - (y1 - y3) * (x3 - x4);
        let u_num: i128 = (y1 - y2) * (x1 - x3) - (x1 - x2) * (y1 - y3);

        let dd: i128 = if d > 0 {
            d
        } else {
            -d
        };
        let tn: i128 = if d > 0 {
            t_num
        } else {
            -t_num
        };
        let un: i128 = if d > 0 {
            u_num
        } else {
            -u_num
        };

        if 0 <= tn && tn <= dd && un >= 0 {
            proof {
                lemma_mul_le(x1 as int, dd as int, 100_000, DET_BOUND as int);
                lemma_mul_le(y1 as int, dd as int, 100_000, DET_BOUND as int);
                lemma_mul_le(tn as int, x2 - x1, DET_BOUND as int, 200_000);
                lemma_mul_le(tn as int, y2 - y1, DET_BOUND as int, 200_000);
            }
            let nx: i128 = x1 * dd + tn * (x2 - x1);
            let ny: i128 = y1 * dd + tn * (y2 - y1);
            proof {
                let dx = self.dir.x as int;
                let dy = self.dir.y as int;
                assert(d == (y1 - y2) * dx - (x1 - x2) * dy) by (nonlinear_arith)
                    requires
                        d == (x1 - x2) * (y3 - y4) - (y1 - y2) * (x3 - x4),
                        x4 == x3 + dx,
                        y4 == y3 + dy,
                ;
                assert(t_num == (y1 - y3) * dx - (x1 - x3) * dy) by (nonlinear_arith)
                    requires
                        t_num == (x1 - x3) * (y3 - y4) - (y1 - y3) * (x3 - x4),
                        x4 == x3 + dx,
                        y4 == y3 + dy,
                ;
                lemma_cramer(
                    x1 - x2,
                    y1 - y2,
                    x1 - x3,
                    y1 - y3,
                    dx,
                    dy,
                    d as int,
                    t_num as int,
                    u_num as int,
                );
                lemma_point_on_ray(
                    x1 as int,
                    x3 as int,
                    x1 - x2,
                    x2 - x1,
                    d as int,
                    t_num as int,
                    u_num as int,
                    dx,
                    dd as int,
                    tn as int,
                    un as int,
                    nx as int,
                );
                lemma_point_on_ray(
                    y1 as int,
                    y3 as int,
                    y1 - y2,
                    y2 - y1,
                    d as int,
                    t_num as int,
                    u_num as int,
                    dy,
                    dd as int,
                    tn as int,
                    un as int,
                    ny as int,
                );
            }
            Some((RatPoint { nx, ny, den: dd }, un))
        } else {
            None
        }
    }

    /// Closest hit of this ray over a whole wall set: `look_spec`, exactly.
    /// Walls are scanned in order; of two exactly equidistant hits the
    /// earlier wall's is returned.
    pub fn look(&self, walls: &Vec<Wall>) -> (res: Option<RatPoint>)
        requires
            self.wf(),
            forall|k: int| 0 <= k < walls@.len() ==> (#[trigger] walls@[k]).wf(),
        ensures
            res.is_some() == look_spec(*self, walls@).is_some(),
            res matches Some(p) ==> Some(p@) == look_spec(*self, walls@) && p.wf(),
    {
        let mut best: Option<RatPoint> = None;
        let mut best_un: i128 = 0;
        let n: usize = walls.len();
        let mut i: usize = 0;
        while i < n
            invariant
                i <= n,
                n == walls@.len(),
                self.wf(),
                forall|k: int| 0 <= k < walls@.len() ==> (#[trigger] walls@[k]).wf(),
                best is None ==> look_spec(*self, walls@.take(i as int)) is None,
                best matches Some(b) ==> Some(b@) == look_spec(*self, walls@.take(i as int))
                    && b.wf() && 0 <= best_un <= DET_BOUND && b.nx - self.origin.x * b.den
                    == best_un * self.dir.x && b.ny - self.origin.y * b.den == best_un
                    * self.dir.y,
            decreases n - i,
        {
            let w: Wall = walls[i];
            proof {
                assert(walls@.take(i as int + 1).drop_last() =~= walls@.take(i as int));
                assert(walls@.take(i as int + 1).last() == walls@[i as int]);
            }
            match self.cast_inner(&w) {
                None => {},
                Some((p, un)) => {
                    match best {
                        None => {
                            best = Some(p);
                            best_un = un;
                        },
                        Some(b) => {
                            proof {
                                lemma_mul_le(un as int, b.den as int, DET_BOUND as int, DET_BOUND as int);
                                lemma_mul_le(best_un as int, p.den as int, DET_BOUND as int, DET_BOUND as int);
                                lemma_zero_dir_det(w, *self);
                                lemma_closer_iff_u(
                                    p@,
                                    b@,
                                    self.origin.x as int,
                                    self.origin.y as int,
                                    self.dir.x as int,
                                    self.dir.y as int,
                                    un as int,
                                    best_un as int,
                                );
                            }
                            if un * b.den < best_un * p.den {
                                best = Some(p);
                                best_un = un;
                            }
                        },
                    }
                },
            }
            i += 1;
        }
        proof {
            assert(walls@.take(n as int) =~= walls@);
        }
        best
    }
}

} // verus!
