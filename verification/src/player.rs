//! The visibility sampler: the agent state it reads and the sight cone it
//! produces.
//!
//! Angles are measured in microradians, which keeps the edge-inclusive
//! angle sampling and the accuracy-cone comparison exact integer
//! arithmetic. The trigonometric step — rotating the heading into one
//! direction vector per sampled ray — cannot be carried out exactly over
//! integers, so the caller hands in the `RAYS` direction vectors and this
//! module computes everything visible about them: the closest hit per ray,
//! the clip to the field-of-view radius, the hit flags and the color tags.

use vstd::prelude::*;

use crate::arith::lemma_mul_le;
use crate::ray::{dist_sq_num, look_spec, HitPoint, RatPoint, Ray, Wall as RayWall, DET_BOUND,
    MAX_DIR, NUM_BOUND};
use crate::vector::{Vector, MAX_COORD};
use crate::wall::Wall;
use crate::RAYS;

verus! {

/// One microradian short of the half turn: pi scaled by a million.
pub const PI_MICRORADIANS: i64 = 3_141_593;

/// The display tag of one sampled ray.
#[derive(Clone, Copy, Debug, PartialEq, Eq, Structural)]
pub enum ConeColor {
    /// The ray lies within twice the current accuracy cone.
    AccuracyCone,
    /// An ordinary field-of-view ray.
    Normal,
}

/// One entry of the sight cone, relative to the agent's position.
#[derive(Clone, Copy, Debug, PartialEq, Eq, Structural)]
pub enum SightPoint {
    /// The ray hit a wall within the field-of-view radius: the exact
    /// relative hit point.
    Hit(RatPoint),
    /// No hit within the radius: the entry sits on the cone boundary, at
    /// the radius along the ray's direction (the renderer scales the
    /// direction).
    Boundary(Vector),
}

/// A map wall, as the intersection engine sees it.
pub open spec fn to_ray_wall(w: Wall) -> RayWall {
    RayWall { p1: w.p1, p2: w.p2 }
}

/// Sampled angle `i` of the cone (that is `i * fov / RAYS - fov / 2`) lies
/// strictly within twice the accuracy angle; both sides scaled by
/// `2 * RAYS` to stay integral.
pub open spec fn in_accuracy_cone(fov: int, acc: int, i: int) -> bool {
    let num = 2 * i * fov - (RAYS as int) * fov;
    (if num >= 0 {
        num
    } else {
        0 - num
    }) < 4 * (RAYS as int) * acc
}

/// The ray from `pos` along `dir` hits some wall, and the closest hit lies
/// within `radius` of `pos` (exact squared-distance comparison).
pub open spec fn sees_wall(pos: Vector, dir: Vector, rwalls: Seq<RayWall>, radius: int) -> bool {
    match look_spec(Ray { origin: pos, dir }, rwalls) {
        Some(h) => dist_sq_num(h, pos.x as int, pos.y as int) <= (radius * radius) * (h.den
            * h.den),
        None => false,
    }
}

/// The hit point shifted to be relative to the agent's position.
pub open spec fn rel_hit(pos: Vector, h: HitPoint) -> HitPoint {
    HitPoint { nx: h.nx - pos.x * h.den, ny: h.ny - pos.y * h.den, den: h.den }
}

/// What one sight-cone entry must be: the exact relative hit point when the
/// ray hits within the radius, the cone boundary along the ray otherwise.
pub open spec fn entry_ok(
    entry: SightPoint,
    pos: Vector,
    dir: Vector,
    rwalls: Seq<RayWall>,
    radius: int,
) -> bool {
    match entry {
        SightPoint::Hit(q) => sees_wall(pos, dir, rwalls, radius) && q@ == rel_hit(
            pos,
            look_spec(Ray { origin: pos, dir }, rwalls).unwrap(),
        ),
        SightPoint::Boundary(d) => !sees_wall(pos, dir, rwalls, radius) && d == dir,
    }
}

/// Radius clipping: a hit entry of the sight cone lies within the
/// field-of-view radius of the agent (the entry is relative, so the
/// distance is taken from the zero point).
pub proof fn lemma_sight_within_radius(
    entry: SightPoint,
    pos: Vector,
    dir: Vector,
    rwalls: Seq<RayWall>,
    radius: int,
    q: RatPoint,
)
    requires
        entry_ok(entry, pos, dir, rwalls, radius),
        entry == SightPoint::Hit(q),
    ensures
        dist_sq_num(q@, 0, 0) <= (radius * radius) * (q@.den * q@.den),
{
    let h = look_spec(Ray { origin: pos, dir }, rwalls).unwrap();
    assert(q@.nx - 0 * q@.den == h.nx - pos.x * h.den);
    assert(q@.ny - 0 * q@.den == h.ny - pos.y * h.den);
}

/// The agent state that the visibility sampler reads, and the three
/// index-aligned sequences it rebuilds on every call. Angles are in
/// microradians, lengths in world units.
pub struct Player {
    /// Position of the agent.
    pub pos: Vector,
    /// Current accuracy half-angle: the fire cone, drawn distinctly.
    pub accuracy: i64,
    /// Per-step accuracy change while moving or at rest.
    pub accuracy_rec: i64,
    /// Best (smallest) accuracy the agent can reach.
    pub min_acc: i64,
    /// Worst (largest) accuracy the agent can reach.
    pub max_acc: i64,
    /// Full field-of-view angle.
    pub fov: i64,
    /// How far the agent can see.
    pub fov_radius: i64,
    /// Relative end point of each sampled ray.
    pub sight_cone: Vec<SightPoint>,
    /// Display tag of each sampled ray.
    pub color_cone: Vec<ConeColor>,
    /// Whether each sampled ray hit a wall within the radius.
    pub hit_cone: Vec<bool>,
}

impl Player {
    /// The angles are ordered and bounded, and the position and radius are
    /// within the coordinate bound.
    pub open spec fn wf(self) -> bool {
        self.pos.wf() && 0 < self.min_acc && self.min_acc <= self.accuracy && self.accuracy
            <= self.max_acc && self.max_acc <= 2 * PI_MICRORADIANS && 0 <= self.accuracy_rec
            && self.accuracy_rec <= 2 * PI_MICRORADIANS && 0 <= self.fov && self.fov <= 2
            * PI_MICRORADIANS && 0 <= self.fov_radius && self.fov_radius <= MAX_COORD
    }

    /// A fresh agent at the origin with the default aiming parameters and
    /// an empty sight cone.
    pub fn new() -> (pl: Player)
        ensures
            pl.wf(),
            pl.pos == (Vector { x: 0, y: 0 }),
            pl.accuracy == PI_MICRORADIANS / 32,
            pl.accuracy_rec == 500,
            pl.min_acc == PI_MICRORADIANS / 64,
            pl.max_acc == PI_MICRORADIANS / 4,
            pl.fov == PI_MICRORADIANS / 4,
            pl.fov_radius == 200,
            pl.sight_cone@.len() == 0,
            pl.color_cone@.len() == 0,
            pl.hit_cone@.len() == 0,
    {
        Player {
            pos: Vector::new(0, 0),
            accuracy: PI_MICRORADIANS / 32,
            accuracy_rec: 500,
            min_acc: PI_MICRORADIANS / 64,
            max_acc: PI_MICRORADIANS / 4,
            fov: PI_MICRORADIANS / 4,
            fov_radius: 200,
            sight_cone: Vec::new(),
            color_cone: Vec::new(),
            hit_cone: Vec::new(),
        }
    }

    /// Worsen the accuracy by one step, clamped at the worst value.
    pub fn decrease_accuracy(&mut self)
        requires
            old(self).wf(),
        ensures
            final(self).wf(),
            final(self).accuracy == (if old(self).accuracy + old(self).accuracy_rec > old(
                self,
            ).max_acc {
                old(self).max_acc as int
            } else {
                old(self).accuracy + old(self).accuracy_rec
            }),
            final(self).pos == old(self).pos,
            final(self).accuracy_rec == old(self).accuracy_rec,
            final(self).min_acc == old(self).min_acc,
            final(self).max_acc == old(self).max_acc,
            final(self).fov == old(self).fov,
            final(self).fov_radius == old(self).fov_radius,
            final(self).sight_cone == old(self).sight_cone,
            final(self).color_cone == old(self).color_cone,
            final(self).hit_cone == old(self).hit_cone,
    {
        self.accuracy = self.accuracy + self.accuracy_rec;
        if self.accuracy > self.max_acc {
            self.accuracy = self.max_acc;
        }
    }

    /// Better the accuracy by one step, clamped at the best value.
    pub fn increase_accuracy(&mut self)
        requires
            old(self).wf(),
        ensures
            final(self).wf(),
            final(self).accuracy == (if old(self).accuracy - old(self).accuracy_rec < old(
                self,
            ).min_acc {
                old(self).min_acc as int
            } else {
                old(self).accuracy - old(self).accuracy_rec
            }),
            final(self).pos == old(self).pos,
            final(self).accuracy_rec == old(self).accuracy_rec,
            final(self).min_acc == old(self).min_acc,
            final(self).max_acc == old(self).max_acc,
            final(self).fov == old(self).fov,
            final(self).fov_radius == old(self).fov_radius,
            final(self).sight_cone == old(self).sight_cone,
            final(self).color_cone == old(self).color_cone,
            final(self).hit_cone == old(self).hit_cone,
    {
        self.accuracy = self.accuracy - self.accuracy_rec;
        if self.accuracy < self.min_acc {
            self.accuracy = self.min_acc;
        }
    }

    /// Rebuild the sight cone from scratch: for each of the `RAYS` sampled
    /// directions, tag the ray by the accuracy cone, cast it against every
    /// wall, and record the closest hit (relative to the agent) clipped to
    /// the field-of-view radius. The three outputs are index-aligned and
    /// have exactly `RAYS` entries.
    pub fn compute_view(&mut self, dirs: &Vec<Vector>, walls: &Vec<Wall>)
        requires
            old(self).wf(),
            dirs@.len() == RAYS,
            forall|k: int|
                0 <= k < dirs@.len() ==> -MAX_DIR <= (#[trigger] dirs@[k]).x <= MAX_DIR && -MAX_DIR
                    <= dirs@[k].y <= MAX_DIR,
            forall|k: int| 0 <= k < walls@.len() ==> (#[trigger] walls@[k]).wf(),
        ensures
            final(self).pos == old(self).pos,
            final(self).accuracy == old(self).accuracy,
            final(self).accuracy_rec == old(self).accuracy_rec,
            final(self).min_acc == old(self).min_acc,
            final(self).max_acc == old(self).max_acc,
            final(self).fov == old(self).fov,
            final(self).fov_radius == old(self).fov_radius,
            final(self).wf(),
            final(self).sight_cone@.len() == RAYS,
            final(self).color_cone@.len() == RAYS,
            final(self).hit_cone@.len() == RAYS,
            forall|k: int|
                0 <= k < RAYS ==> #[trigger] final(self).color_cone@[k] == (if in_accuracy_cone(
                    old(self).fov as int,
                    old(self).accuracy as int,
                    k,
                ) {
                    ConeColor::AccuracyCone
                } else {
                    ConeColor::Normal
                }),
            forall|k: int|
                0 <= k < RAYS ==> #[trigger] final(self).hit_cone@[k] == sees_wall(
                    old(self).pos,
                    dirs@[k],
                    walls@.map_values(|w: Wall| to_ray_wall(w)),
                    old(self).fov_radius as int,
                ),
            forall|k: int|
                0 <= k < RAYS ==> entry_ok(
                    #[trigger] final(self).sight_cone@[k],
                    old(self).pos,
                    dirs@[k],
                    walls@.map_values(|w: Wall| to_ray_wall(w)),
                    old(self).fov_radius as int,
                ),
    {
        self.sight_cone = Vec::new();
        self.color_cone = Vec::new();
        self.hit_cone = Vec::new();

        let ghost rw: Seq<RayWall> = walls@.map_values(|w: Wall| to_ray_wall(w));
        let mut rwalls: Vec<RayWall> = Vec::new();
        let mut j: usize = 0;
        while j < walls.len()
            invariant
                j <= walls@.len(),
                rw == walls@.map_values(|w: Wall| to_ray_wall(w)),
                forall|k: int| 0 <= k < walls@.len() ==> (#[trigger] walls@[k]).wf(),
                rwalls@.len() == j,
                forall|k: int| 0 <= k < j ==> #[trigger] rwalls@[k] == rw[k],
            decreases walls@.len() - j,
        {
            let w = walls[j];
            rwalls.push(RayWall::new(w.p1, w.p2));
            j += 1;
        }
        proof {
            assert(rwalls@ =~= rw);
            assert(forall|k: int| 0 <= k < rw.len() ==> (#[trigger] rw[k]).wf());
        }

        let pos = self.pos;
        let fov = self.fov;
        let acc = self.accuracy;
        let radius = self.fov_radius;
        let mut i: usize = 0;
        while i < RAYS
            invariant
                i <= RAYS,
                dirs@.len() == RAYS,
                forall|k: int|
                    0 <= k < dirs@.len() ==> -MAX_DIR <= (#[trigger] dirs@[k]).x <= MAX_DIR
                        && -MAX_DIR <= dirs@[k].y <= MAX_DIR,
                rwalls@ == rw,
                forall|k: int| 0 <= k < rw.len() ==> (#[trigger] rw[k]).wf(),
                pos == old(self).pos,
                fov == old(self).fov,
                acc == old(self).accuracy,
                radius == old(self).fov_radius,
                self.pos == old(self).pos,
                self.accuracy == old(self).accuracy,
                self.accuracy_rec == old(self).accuracy_rec,
                self.min_acc == old(self).min_acc,
                self.max_acc == old(self).max_acc,
                self.fov == old(self).fov,
                self.fov_radius == old(self).fov_radius,
                old(self).wf(),
                self.sight_cone@.len() == i,
                self.color_cone@.len() == i,
                self.hit_cone@.len() == i,
                forall|k: int|
                    0 <= k < i ==> #[trigger] self.color_cone@[k] == (if in_accuracy_cone(
                        fov as int,
                        acc as int,
                        k,
                    ) {
                        ConeColor::AccuracyCone
                    } else {
                        ConeColor::Normal
                    }),
                forall|k: int|
                    0 <= k < i ==> #[trigger] self.hit_cone@[k] == sees_wall(
                        pos,
                        dirs@[k],
                        rw,
                        radius as int,
                    ),
                forall|k: int|
                    0 <= k < i ==> entry_ok(
                        #[trigger] self.sight_cone@[k],
                        pos,
                        dirs@[k],
                        rw,
                        radius as int,
                    ),
            decreases RAYS - i,
        {
            let dir = dirs[i];
            proof {
                lemma_mul_le(2 * (i as int), fov as int, 720, 2 * PI_MICRORADIANS as int);
                lemma_mul_le(4 * (RAYS as int), acc as int, 1440, 2 * PI_MICRORADIANS as int);
            }
            let num: i64 = 2 * (i as i64) * fov - (RAYS as i64) * fov;
            let in_cone: bool = if num >= 0 {
                num < 4 * (RAYS as i64) * acc
            } else {
                -num < 4 * (RAYS as i64) * acc
            };
            let col = if in_cone {
                ConeColor::AccuracyCone
            } else {
                ConeColor::Normal
            };

            let ray = Ray::new(pos, dir);
            let pt = ray.look(&rwalls);
            match pt {
                Some(p) => {
                    proof {
                        lemma_mul_le(pos.x as int, p.den as int, MAX_COORD as int, DET_BOUND as int);
                        lemma_mul_le(pos.y as int, p.den as int, MAX_COORD as int, DET_BOUND as int);
                        lemma_mul_le(
                            p.nx - pos.x * p.den,
                            p.nx - pos.x * p.den,
                            NUM_BOUND as int + 8_000_000_000_000_000,
                            NUM_BOUND as int + 8_000_000_000_000_000,
                        );
                        lemma_mul_le(
                            p.ny - pos.y * p.den,
                            p.ny - pos.y * p.den,
                            NUM_BOUND as int + 8_000_000_000_000_000,
                            NUM_BOUND as int + 8_000_000_000_000_000,
                        );
                        lemma_mul_le(radius as int, radius as int, MAX_COORD as int, MAX_COORD as int);
                        lemma_mul_le(p.den as int, p.den as int, DET_BOUND as int, DET_BOUND as int);
                        lemma_mul_le(
                            (radius as int) * (radius as int),
                            (p.den as int) * (p.den as int),
                            10_000_000_000,
                            6_400_000_000_000_000_000_000,
                        );
                    }
                    let ax: i128 = p.nx - (pos.x as i128) * p.den;
                    let ay: i128 = p.ny - (pos.y as i128) * p.den;
                    let dsn: i128 = ax * ax + ay * ay;
                    let rr: i128 = (radius as i128) * (radius as i128);
                    let lim: i128 = rr * (p.den * p.den);
                    if dsn <= lim {
                        self.sight_cone.push(SightPoint::Hit(RatPoint { nx: ax, ny: ay, den: p.den }));
                        self.hit_cone.push(true);
                    } else {
                        self.sight_cone.push(SightPoint::Boundary(dir));
                        self.hit_cone.push(false);
                    }
                },
                None => {
                    self.sight_cone.push(SightPoint::Boundary(dir));
                    self.hit_cone.push(false);
                },
            }
            self.color_cone.push(col);
            i += 1;
        }
    }
}

} // verus!
