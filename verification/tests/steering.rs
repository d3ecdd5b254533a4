//! Steering-rule scenarios on concrete values. All coordinates are in scaled
//! units: 100 steps per distance unit.

use boids::boid::Boid;
use boids::vec2::Vec2;

#[test]
fn separate_two_boids_concrete() {
    // Boids at (0, 0) and (10, 0) distance units, both at rest, with the
    // separation threshold at 25 units: the left boid is pushed along -x,
    // clamped to magnitude exactly `maxforce` (0.03 units = 3 steps).
    let a = Boid::with_velocity(0, 0, 0, 0);
    let b = Boid::with_velocity(1000, 0, 0, 0);
    let others = vec![a, b];
    let s = a.separate(&others);
    assert_eq!(s, Vec2 { x: -3, y: 0 });
    assert_eq!(s.x * s.x + s.y * s.y, 9);
}

#[test]
fn separate_symmetry_at_rest() {
    // Two mutually repelling boids at rest steer in exactly opposite
    // directions.
    let a = Boid::with_velocity(0, 0, 0, 0);
    let b = Boid::with_velocity(1000, 0, 0, 0);
    let others = vec![a, b];
    let sa = a.separate(&others);
    let sb = b.separate(&others);
    assert_eq!(sa, Vec2 { x: -3, y: 0 });
    assert_eq!(sb, Vec2 { x: 3, y: 0 });
}

#[test]
fn separate_symmetry_opposite_velocities() {
    // The proved symmetry also covers opposite (nonzero) velocities.
    let a = Boid::with_velocity(0, 0, 40, -30);
    let b = Boid::with_velocity(600, 800, -40, 30);
    let others = vec![a, b];
    let sa = a.separate(&others);
    let sb = b.separate(&others);
    assert_eq!(sa.x, -sb.x);
    assert_eq!(sa.y, -sb.y);
}

#[test]
fn separate_out_of_range_is_zero() {
    // At 30 units apart (threshold 25) there is no repulsion.
    let a = Boid::with_velocity(0, 0, 0, 0);
    let b = Boid::with_velocity(3000, 0, 0, 0);
    let others = vec![a, b];
    assert_eq!(a.separate(&others), Vec2 { x: 0, y: 0 });
}

#[test]
fn align_matches_neighbor_velocity() {
    // One neighbor moving along +x: alignment steers along +x, clamped to
    // `maxforce`.
    let a = Boid::with_velocity(0, 0, 0, 0);
    let b = Boid::with_velocity(1000, 0, 100, 0);
    let others = vec![a, b];
    assert_eq!(a.align(&others), Vec2 { x: 3, y: 0 });
}

#[test]
fn cohesion_steers_toward_centroid_not_velocity() {
    // The neighbor sits along +x but moves along +y: cohesion follows its
    // position, alignment follows its velocity.
    let a = Boid::with_velocity(0, 0, 0, 0);
    let b = Boid::with_velocity(1000, 0, 0, 100);
    let others = vec![a, b];
    assert_eq!(a.cohesion(&others), Vec2 { x: 3, y: 0 });
    assert_eq!(a.align(&others), Vec2 { x: 0, y: 3 });
}

#[test]
fn steering_is_capped_by_maxforce() {
    // Wherever the neighbors sit, each rule's output has squared magnitude
    // at most maxforce^2 = 9.
    let center = Boid::with_velocity(0, 0, 150, -120);
    let mut others = vec![center];
    let spots = [(300, 0), (-700, 400), (0, -900), (1200, 1200), (-2000, 300)];
    for (x, y) in spots {
        others.push(Boid::with_velocity(x, y, -80, 60));
    }
    for f in [
        center.separate(&others),
        center.align(&others),
        center.cohesion(&others),
    ] {
        assert!(f.x * f.x + f.y * f.y <= 9);
    }
}

#[test]
fn no_neighbors_all_rules_zero() {
    // A lone boid, and one whose companions are far outside every radius.
    let lone = Boid::with_velocity(500, 700, 100, 50);
    let snapshot = vec![lone];
    assert_eq!(lone.separate(&snapshot), Vec2 { x: 0, y: 0 });
    assert_eq!(lone.align(&snapshot), Vec2 { x: 0, y: 0 });
    assert_eq!(lone.cohesion(&snapshot), Vec2 { x: 0, y: 0 });

    let far = vec![lone, Boid::with_velocity(500_000, 700_000, 10, 10)];
    assert_eq!(lone.separate(&far), Vec2 { x: 0, y: 0 });
    assert_eq!(lone.align(&far), Vec2 { x: 0, y: 0 });
    assert_eq!(lone.cohesion(&far), Vec2 { x: 0, y: 0 });

    let empty: Vec<Boid> = vec![];
    assert_eq!(lone.separate(&empty), Vec2 { x: 0, y: 0 });
    assert_eq!(lone.align(&empty), Vec2 { x: 0, y: 0 });
    assert_eq!(lone.cohesion(&empty), Vec2 { x: 0, y: 0 });
}

#[test]
fn coincident_boids_do_not_repel() {
    // Exact coincidence is excluded by the strict lower distance bound, so
    // no degenerate normalize can occur.
    let a = Boid::with_velocity(100, 100, 0, 0);
    let b = Boid::with_velocity(100, 100, 0, 0);
    let others = vec![a, b];
    assert_eq!(a.separate(&others), Vec2 { x: 0, y: 0 });
    assert_eq!(a.cohesion(&others), Vec2 { x: 0, y: 0 });
}
