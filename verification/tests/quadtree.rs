use bullet_echo::qtree::bounds::{Point, Rect};
use bullet_echo::wall::Wall;
use bullet_echo::qtree::QTree;
use bullet_echo::vector::Vector;
use bullet_echo::{HEIGHT, WIDTH};

fn v(x: i64, y: i64) -> Vector {
    Vector::new(x, y)
}

fn pt(x: i64, y: i64) -> Point {
    Point { pos: v(x, y), data: None }
}

fn root() -> QTree {
    // The game's root: centered at the origin with half the window as
    // half-extents, capacity 4.
    QTree::new(v(0, 0), 4, WIDTH as i64 / 2, HEIGHT as i64 / 2)
}

fn full_extent() -> Rect {
    Rect { pos: v(0, 0), width: WIDTH as i64 / 2, height: HEIGHT as i64 / 2 }
}

#[test]
fn rect_contains_is_border_inclusive() {
    let r = Rect { pos: v(0, 0), width: 10, height: 5 };
    assert!(r.contains(&pt(10, 5)));
    assert!(r.contains(&pt(-10, -5)));
    assert!(r.contains(&pt(0, 0)));
    assert!(!r.contains(&pt(11, 0)));
    assert!(!r.contains(&pt(0, 6)));
}

#[test]
fn rect_intersection_by_axis_separation() {
    let a = Rect { pos: v(0, 0), width: 10, height: 10 };
    let b = Rect { pos: v(15, 0), width: 6, height: 2 };
    let c = Rect { pos: v(30, 0), width: 5, height: 50 };
    let d = Rect { pos: v(0, 21), width: 50, height: 10 };
    assert!(a.intersects_r(&b));
    assert!(b.intersects_r(&a));
    assert!(!a.intersects_r(&c));
    assert!(!a.intersects_r(&d));
    // Touching borders count as intersecting.
    let e = Rect { pos: v(20, 0), width: 10, height: 10 };
    assert!(a.intersects_r(&e));
}

#[test]
fn insert_rejects_point_outside_boundary() {
    let mut t = root();
    assert!(!t.insert(&pt(401, 0)));
    assert!(!t.insert(&pt(0, -301)));
    assert!(t.query(&full_extent()).is_empty());
}

#[test]
fn insert_then_query_round_trip() {
    let mut t = root();
    assert!(t.insert(&pt(17, -23)));
    let around = Rect { pos: v(17, -23), width: 2, height: 2 };
    let found = t.query(&around);
    assert_eq!(found.len(), 1);
    assert_eq!(found[0].pos, v(17, -23));
    // A disjoint box never returns it.
    let elsewhere = Rect { pos: v(-100, 100), width: 30, height: 30 };
    assert!(t.query(&elsewhere).is_empty());
}

#[test]
fn query_keeps_traversal_order() {
    let mut t = root();
    for (x, y) in [(5, 5), (-5, 5), (-5, -5), (5, -5)] {
        assert!(t.insert(&pt(x, y)));
    }
    let got = t.query(&full_extent());
    let pos: Vec<(i64, i64)> = got.iter().map(|p| (p.pos.x, p.pos.y)).collect();
    assert_eq!(pos, vec![(5, 5), (-5, 5), (-5, -5), (5, -5)]);
}

#[test]
fn capacity_overflow_subdivides_and_keeps_points() {
    // Root centered at (0,0) with half-extents (400,300), capacity 4:
    // five inserts on the x axis force a subdivision after the fifth and
    // every point stays retrievable exactly once.
    let mut t = root();
    for x in 0..4i64 {
        assert!(t.insert(&pt(x, 0)));
        assert!(!t.is_divided);
    }
    assert!(t.insert(&pt(4, 0)));
    assert!(t.is_divided);

    let got = t.query(&full_extent());
    assert_eq!(got.len(), 5);
    // The node's own four points come first, in insertion order; the fifth
    // was routed to a child and follows.
    let xs: Vec<i64> = got.iter().map(|p| p.pos.x).collect();
    assert_eq!(xs, vec![0, 1, 2, 3, 4]);
}

#[test]
fn query_narrow_box_after_subdivision() {
    let mut t = root();
    for x in 0..8i64 {
        assert!(t.insert(&pt(10 * x, 0)));
    }
    let around = Rect { pos: v(50, 0), width: 12, height: 1 };
    let mut xs: Vec<i64> = t.query(&around).iter().map(|p| p.pos.x).collect();
    xs.sort();
    assert_eq!(xs, vec![40, 50, 60]);
}

#[test]
fn clear_empties_and_undivides() {
    let mut t = root();
    for x in 0..6i64 {
        assert!(t.insert(&pt(x, x)));
    }
    assert!(t.is_divided);
    t.clear();
    assert!(!t.is_divided);
    assert!(t.query(&full_extent()).is_empty());
    // Clearing again changes nothing: still empty, still undivided.
    t.clear();
    assert!(!t.is_divided);
    assert!(t.query(&full_extent()).is_empty());
    // The cleared tree accepts new points as a fresh one would.
    assert!(t.insert(&pt(9, 9)));
    let got = t.query(&full_extent());
    assert_eq!(got.len(), 1);
    assert_eq!(got[0].pos, v(9, 9));
}

#[test]
fn point_can_carry_wall_data() {
    let w = Wall::new(v(1, 1), v(2, 2));
    let mut t = root();
    assert!(t.insert(&Point { pos: v(1, 1), data: Some(w) }));
    let got = t.query(&full_extent());
    assert_eq!(got.len(), 1);
    assert_eq!(got[0].data, Some(w));
}

#[test]
fn subdivide_keeps_own_points_visible() {
    let mut t = root();
    assert!(t.insert(&pt(1, 2)));
    t.subdivide();
    assert!(t.is_divided);
    let got = t.query(&full_extent());
    assert_eq!(got.len(), 1);
    assert_eq!(got[0].pos, v(1, 2));
}
