use bullet_echo::player::{ConeColor, Player, SightPoint, PI_MICRORADIANS};
use bullet_echo::vector::Vector;
use bullet_echo::wall::Wall;
use bullet_echo::RAYS;

fn v(x: i64, y: i64) -> Vector {
    Vector::new(x, y)
}

fn dirs_all(d: Vector) -> Vec<Vector> {
    let mut out = Vec::new();
    for _ in 0..RAYS {
        out.push(d);
    }
    out
}

#[test]
fn player_defaults() {
    let p = Player::new();
    assert_eq!(p.pos, v(0, 0));
    assert_eq!(p.accuracy, PI_MICRORADIANS / 32);
    assert_eq!(p.min_acc, PI_MICRORADIANS / 64);
    assert_eq!(p.max_acc, PI_MICRORADIANS / 4);
    assert_eq!(p.fov, PI_MICRORADIANS / 4);
    assert_eq!(p.fov_radius, 200);
    assert!(p.sight_cone.is_empty());
    assert!(p.color_cone.is_empty());
    assert!(p.hit_cone.is_empty());
}

#[test]
fn accuracy_clamps_at_worst() {
    let mut p = Player::new();
    p.accuracy = p.max_acc - 100;
    p.decrease_accuracy();
    assert_eq!(p.accuracy, p.max_acc);
    p.decrease_accuracy();
    assert_eq!(p.accuracy, p.max_acc);
}

#[test]
fn accuracy_clamps_at_best() {
    let mut p = Player::new();
    p.accuracy = p.min_acc + 100;
    p.increase_accuracy();
    assert_eq!(p.accuracy, p.min_acc);
    p.increase_accuracy();
    assert_eq!(p.accuracy, p.min_acc);
}

#[test]
fn accuracy_steps_by_recovery() {
    let mut p = Player::new();
    let before = p.accuracy;
    p.decrease_accuracy();
    assert_eq!(p.accuracy, before + p.accuracy_rec);
    p.increase_accuracy();
    assert_eq!(p.accuracy, before);
}

#[test]
fn compute_view_always_fills_all_rays() {
    let mut p = Player::new();
    // No walls at all: every ray reaches the cone boundary.
    p.compute_view(&dirs_all(v(1, 0)), &vec![]);
    assert_eq!(p.sight_cone.len(), RAYS);
    assert_eq!(p.color_cone.len(), RAYS);
    assert_eq!(p.hit_cone.len(), RAYS);
    for i in 0..RAYS {
        assert!(!p.hit_cone[i]);
        assert_eq!(p.sight_cone[i], SightPoint::Boundary(v(1, 0)));
    }
}

#[test]
fn compute_view_records_near_hit() {
    let mut p = Player::new();
    let walls = vec![Wall::new(v(100, -1000), v(100, 1000))];
    p.compute_view(&dirs_all(v(1, 0)), &walls);
    assert_eq!(p.sight_cone.len(), RAYS);
    for i in 0..RAYS {
        assert!(p.hit_cone[i]);
        match p.sight_cone[i] {
            SightPoint::Hit(q) => {
                // Relative hit point (100, 0), exactly.
                assert!(q.den > 0);
                assert_eq!(q.nx, 100 * q.den);
                assert_eq!(q.ny, 0);
            }
            SightPoint::Boundary(_) => panic!("ray {} should hit", i),
        }
    }
}

#[test]
fn compute_view_clips_far_hit_to_boundary() {
    let mut p = Player::new();
    // The wall is hit at distance 300, beyond the radius 200: rendered at
    // the boundary and flagged as no hit.
    let walls = vec![Wall::new(v(300, -1000), v(300, 1000))];
    p.compute_view(&dirs_all(v(1, 0)), &walls);
    for i in 0..RAYS {
        assert!(!p.hit_cone[i]);
        assert_eq!(p.sight_cone[i], SightPoint::Boundary(v(1, 0)));
    }
}

#[test]
fn compute_view_hit_exactly_at_radius_counts() {
    let mut p = Player::new();
    let walls = vec![Wall::new(v(200, -1000), v(200, 1000))];
    p.compute_view(&dirs_all(v(1, 0)), &walls);
    assert!(p.hit_cone[0]);
    match p.sight_cone[0] {
        SightPoint::Hit(q) => {
            assert_eq!(q.nx, 200 * q.den);
            assert_eq!(q.ny, 0);
        }
        SightPoint::Boundary(_) => panic!("a hit at the radius still counts"),
    }
}

#[test]
fn compute_view_color_band_matches_accuracy_cone() {
    let mut p = Player::new();
    p.compute_view(&dirs_all(v(1, 0)), &vec![]);
    // With fov = pi/4 and accuracy = pi/32 (microradians), the sampled
    // angle i*fov/360 - fov/2 lies within twice the accuracy exactly for
    // i in 91..=269.
    assert_eq!(p.color_cone[0], ConeColor::Normal);
    assert_eq!(p.color_cone[90], ConeColor::Normal);
    assert_eq!(p.color_cone[91], ConeColor::AccuracyCone);
    assert_eq!(p.color_cone[180], ConeColor::AccuracyCone);
    assert_eq!(p.color_cone[269], ConeColor::AccuracyCone);
    assert_eq!(p.color_cone[270], ConeColor::Normal);
    assert_eq!(p.color_cone[RAYS - 1], ConeColor::Normal);
}

#[test]
fn compute_view_closest_wall_wins_per_ray() {
    let mut p = Player::new();
    let walls = vec![
        Wall::new(v(150, -1000), v(150, 1000)),
        Wall::new(v(80, -1000), v(80, 1000)),
    ];
    p.compute_view(&dirs_all(v(1, 0)), &walls);
    match p.sight_cone[0] {
        SightPoint::Hit(q) => {
            assert_eq!(q.nx, 80 * q.den);
            assert_eq!(q.ny, 0);
        }
        SightPoint::Boundary(_) => panic!("the near wall is within the radius"),
    }
}

#[test]
fn compute_view_recomputes_from_scratch() {
    let mut p = Player::new();
    let walls = vec![Wall::new(v(100, -1000), v(100, 1000))];
    p.compute_view(&dirs_all(v(1, 0)), &walls);
    assert!(p.hit_cone[0]);
    // Recompute against no walls: the old entries are gone.
    p.compute_view(&dirs_all(v(0, 1)), &vec![]);
    assert_eq!(p.sight_cone.len(), RAYS);
    assert!(!p.hit_cone[0]);
    assert_eq!(p.sight_cone[0], SightPoint::Boundary(v(0, 1)));
}
