//! Flock-level behavior: construction, snapshots, one tick, and its
//! snapshot-isolation and determinism guarantees.

use boids::boid::Boid;
use boids::flock::Flock;
use boids::vec2::Vec2;

fn trio() -> Vec<Boid> {
    vec![
        Boid::with_velocity(0, 0, 40, 0),
        Boid::with_velocity(1000, 0, -40, 0),
        Boid::with_velocity(500, 800, 0, -40),
    ]
}

#[test]
fn new_flock_spawns_within_bounds() {
    let f = Flock::new(10, 10_000, 20_000);
    assert_eq!(f.len(), 10);
    for b in f.boids() {
        let p = b.position();
        assert!(0 <= p.x && p.x < 10_000);
        assert!(0 <= p.y && p.y < 20_000);
        assert_eq!(b.acceleration, Vec2 { x: 0, y: 0 });
        let v = b.velocity();
        assert!(v.x * v.x + v.y * v.y <= 100 * 100);
    }
}

#[test]
fn empty_flock_is_tolerated() {
    let mut f = Flock::new(0, 10_000, 10_000);
    assert_eq!(f.len(), 0);
    f.run();
    assert_eq!(f.len(), 0);
}

#[test]
fn degenerate_bounds_spawn_at_origin() {
    let f = Flock::new(5, 0, 0);
    assert_eq!(f.len(), 5);
    for b in f.boids() {
        assert_eq!(b.position(), Vec2 { x: 0, y: 0 });
    }
}

#[test]
fn population_size_is_constant_across_ticks() {
    let mut f = Flock::from_boids(trio());
    for _ in 0..25 {
        f.run();
    }
    assert_eq!(f.len(), 3);
}

#[test]
fn speed_cap_holds_for_all_boids_over_many_ticks() {
    let mut f = Flock::from_boids(trio());
    for _ in 0..50 {
        f.run();
        for b in f.boids() {
            let v = b.velocity();
            assert!(v.x * v.x + v.y * v.y <= b.maxspeed * b.maxspeed);
            assert_eq!(b.acceleration, Vec2 { x: 0, y: 0 });
        }
    }
}

#[test]
fn tick_is_deterministic() {
    // Two flocks built from identical states stay bit-identical.
    let mut f1 = Flock::from_boids(trio());
    let mut f2 = Flock::from_boids(trio());
    for _ in 0..10 {
        f1.run();
        f2.run();
    }
    assert_eq!(f1.boids(), f2.boids());
}

#[test]
fn tick_reads_only_the_pre_tick_snapshot() {
    // Stepping each boid by hand against one fixed snapshot — in forward or
    // reverse order — matches what one flock tick produces: no boid ever
    // sees a mid-tick state.
    let mut f = Flock::from_boids(trio());
    let snapshot = f.boids();
    f.run();
    let after = f.boids();

    let mut forward = snapshot.clone();
    for b in forward.iter_mut() {
        b.run(&snapshot);
    }
    let mut reverse = snapshot.clone();
    for i in (0..reverse.len()).rev() {
        reverse[i].run(&snapshot);
    }
    assert_eq!(after, forward);
    assert_eq!(after, reverse);
}

#[test]
fn lone_boid_flies_straight() {
    let mut f = Flock::from_boids(vec![Boid::with_velocity(500, 700, 100, 50)]);
    f.run();
    let b = f.boids()[0];
    assert_eq!(b.position(), Vec2 { x: 600, y: 750 });
    assert_eq!(b.velocity(), Vec2 { x: 100, y: 50 });
}

#[test]
fn snapshot_is_a_copy() {
    let f = Flock::from_boids(trio());
    let mut snap = f.boids();
    snap[0] = Boid::with_velocity(9_999, 9_999, 0, 0);
    assert_eq!(f.boids()[0].position(), Vec2 { x: 0, y: 0 });
}
