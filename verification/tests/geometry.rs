use bullet_echo::ray::{RatPoint, Ray, Wall};
use bullet_echo::vector::Vector;

fn v(x: i64, y: i64) -> Vector {
    Vector::new(x, y)
}

#[test]
fn cast_hits_vertical_wall_head_on() {
    // Wall from (0,-5) to (0,5); ray from (-10,0) heading +x.
    let wall = Wall::new(v(0, -5), v(0, 5));
    let ray = Ray::new(v(-10, 0), v(1, 0));
    let p = ray.cast(&wall).expect("the ray crosses the wall");
    // Exact rational point (0/10, 0/10).
    assert_eq!(p, RatPoint { nx: 0, ny: 0, den: 10 });
}

#[test]
fn cast_exact_point_on_slanted_wall() {
    // Wall from (4,0) to (0,4); ray from the origin along (1,1) meets it at (2,2).
    let wall = Wall::new(v(4, 0), v(0, 4));
    let ray = Ray::new(v(0, 0), v(1, 1));
    let p = ray.cast(&wall).expect("the ray crosses the wall");
    assert_eq!(p.nx * p.den, 2 * p.den * p.den);
    assert_eq!(p.ny * p.den, 2 * p.den * p.den);
}

#[test]
fn cast_rejects_parallel_wall() {
    // Wall along +x; ray also along +x, displaced: parallel, no hit.
    let wall = Wall::new(v(0, 0), v(10, 0));
    let ray = Ray::new(v(0, 5), v(1, 0));
    assert!(ray.cast(&wall).is_none());
}

#[test]
fn cast_rejects_identical_direction() {
    // Ray direction equal to the wall's own direction vector.
    let wall = Wall::new(v(3, 7), v(13, 9));
    let ray = Ray::new(v(0, 0), v(10, 2));
    assert!(ray.cast(&wall).is_none());
}

#[test]
fn cast_rejects_wall_behind_ray() {
    // Wall at x = -5, ray at the origin heading +x: u would be negative.
    let wall = Wall::new(v(-5, -5), v(-5, 5));
    let ray = Ray::new(v(0, 0), v(1, 0));
    assert!(ray.cast(&wall).is_none());
}

#[test]
fn cast_rejects_crossing_outside_segment() {
    // The line through the wall crosses the ray, but beyond the endpoints.
    let wall = Wall::new(v(5, 10), v(5, 20));
    let ray = Ray::new(v(0, 0), v(1, 0));
    assert!(ray.cast(&wall).is_none());
}

#[test]
fn cast_accepts_hit_on_wall_endpoint() {
    // The crossing sits exactly on an endpoint of the segment: t == 1.
    let wall = Wall::new(v(5, -10), v(5, 0));
    let ray = Ray::new(v(0, 0), v(1, 0));
    let p = ray.cast(&wall).expect("endpoint hits count");
    // The hit is (5, 0).
    assert_eq!(p.nx, 5 * p.den);
    assert_eq!(p.ny, 0);
    assert!(p.den > 0);
}

#[test]
fn cast_point_within_wall_bounding_box() {
    let wall = Wall::new(v(2, 9), v(8, 1));
    let ray = Ray::new(v(0, 0), v(1, 1));
    let p = ray.cast(&wall).expect("the ray crosses the wall");
    // 2 <= nx/den <= 8 and 1 <= ny/den <= 9, compared exactly.
    assert!(2 * p.den <= p.nx && p.nx <= 8 * p.den);
    assert!(1 * p.den <= p.ny && p.ny <= 9 * p.den);
}

#[test]
fn look_picks_closest_wall() {
    let walls = vec![
        Wall::new(v(5, -10), v(5, 10)),
        Wall::new(v(3, -10), v(3, 10)),
        Wall::new(v(7, -10), v(7, 10)),
    ];
    let ray = Ray::new(v(0, 0), v(1, 0));
    let p = ray.look(&walls).expect("several walls cross the ray");
    assert_eq!(p.nx, 3 * p.den);
    assert_eq!(p.ny, 0);
}

#[test]
fn look_tie_keeps_earlier_wall() {
    // Both walls are hit at (5,0); their determinants differ, so the kept
    // denominator tells which wall won.
    let short_wall = Wall::new(v(5, -1), v(5, 1)); // den 2
    let long_wall = Wall::new(v(5, -2), v(5, 2)); // den 4
    let ray = Ray::new(v(0, 0), v(1, 0));
    let p = ray.look(&vec![short_wall, long_wall]).expect("tied hits");
    assert_eq!(p.den, 2);
    let q = ray.look(&vec![long_wall, short_wall]).expect("tied hits");
    assert_eq!(q.den, 4);
}

#[test]
fn look_empty_walls_returns_none() {
    let ray = Ray::new(v(0, 0), v(1, 0));
    assert!(ray.look(&vec![]).is_none());
}

#[test]
fn look_all_misses_returns_none() {
    let walls = vec![Wall::new(v(-5, -5), v(-5, 5)), Wall::new(v(0, 3), v(10, 3))];
    let ray = Ray::new(v(0, 0), v(1, 0));
    assert!(ray.look(&walls).is_none());
}

#[test]
fn point_at_aims_at_target() {
    let mut ray = Ray::new(v(10, 20), v(1, 0));
    ray.point_at(v(13, 24));
    assert_eq!(ray.origin, v(10, 20));
    assert_eq!(ray.dir, v(3, 4));
}

#[test]
fn wall_keeps_endpoints() {
    let wall = Wall::new(v(1, 2), v(3, 4));
    assert_eq!(wall.p1, v(1, 2));
    assert_eq!(wall.p2, v(3, 4));
}
