//! Integration (`apply_force` / `update`) and the kinematic invariants.

use boids::boid::{Boid, MAX_SPEED};
use boids::vec2::Vec2;

#[test]
fn update_without_force_moves_straight() {
    let mut b = Boid::with_velocity(500, 700, 100, 50);
    b.update();
    assert_eq!(b.position(), Vec2 { x: 600, y: 750 });
    assert_eq!(b.velocity(), Vec2 { x: 100, y: 50 });
    assert_eq!(b.acceleration, Vec2 { x: 0, y: 0 });
}

#[test]
fn update_clamps_speed_exactly() {
    // v + a = (1200, 1000) has magnitude above maxspeed = 200; the clamp
    // rescales by 200 over the ceiling square root of 2_440_000 (1563).
    let mut b = Boid::with_velocity(0, 0, 200, 0);
    b.apply_force(Vec2 { x: 1000, y: 1000 });
    b.update();
    assert_eq!(b.velocity(), Vec2 { x: 153, y: 127 });
    let v = b.velocity();
    assert!(v.x * v.x + v.y * v.y <= MAX_SPEED * MAX_SPEED);
    assert_eq!(b.position(), Vec2 { x: 153, y: 127 });
    assert_eq!(b.acceleration, Vec2 { x: 0, y: 0 });
}

#[test]
fn update_within_cap_is_untouched() {
    let mut b = Boid::with_velocity(0, 0, 120, 160);
    // magnitude exactly 200: not above the cap, so no rescaling.
    b.update();
    assert_eq!(b.velocity(), Vec2 { x: 120, y: 160 });
}

#[test]
fn apply_force_accumulates_without_clamping() {
    let mut b = Boid::with_velocity(0, 0, 0, 0);
    b.apply_force(Vec2 { x: 7, y: -2 });
    b.apply_force(Vec2 { x: 5, y: 11 });
    assert_eq!(b.acceleration, Vec2 { x: 12, y: 9 });
}

#[test]
fn heading_is_fixed_at_construction() {
    let mut b = Boid::with_velocity(0, 0, 200, 0);
    assert_eq!(b.angle(), Vec2 { x: 200, y: 0 });
    b.apply_force(Vec2 { x: -50, y: 300 });
    b.update();
    assert_ne!(b.velocity(), Vec2 { x: 200, y: 0 });
    // The facing direction still reports the construction-time velocity.
    assert_eq!(b.angle(), Vec2 { x: 200, y: 0 });
}

#[test]
fn random_boid_is_well_formed() {
    let b = Boid::new(300, 400);
    assert_eq!(b.position(), Vec2 { x: 300, y: 400 });
    assert_eq!(b.acceleration, Vec2 { x: 0, y: 0 });
    let v = b.velocity();
    // Unit-scale speed at most 1 distance unit, in the upper half-circle.
    assert!(v.x * v.x + v.y * v.y <= 100 * 100);
    assert!(v.y >= 0);
    assert_eq!(b.angle(), v);
    assert_eq!(b.maxspeed, 200);
    assert_eq!(b.maxforce, 3);
    assert_eq!(b.radius, 200);
}

#[test]
fn scaled_division_truncates_toward_zero() {
    assert_eq!(boids::math::mul_div(7, 3, 2), 10);
    assert_eq!(boids::math::mul_div(-7, 3, 2), -10);
    assert_eq!(boids::math::mul_div(0, 5, 9), 0);
    assert_eq!(boids::math::mul_div(1, 1, 3), 0);
}

#[test]
fn ceiling_square_root_values() {
    assert_eq!(boids::math::ceil_sqrt(1), 1);
    assert_eq!(boids::math::ceil_sqrt(2), 2);
    assert_eq!(boids::math::ceil_sqrt(4), 2);
    assert_eq!(boids::math::ceil_sqrt(5), 3);
    assert_eq!(boids::math::ceil_sqrt(1_000_000), 1000);
    assert_eq!(boids::math::ceil_sqrt(1_000_001), 1001);
    assert_eq!(boids::math::ceil_sqrt(2_440_000), 1563);
}

#[test]
fn limit_and_with_mag_values() {
    let v = Vec2 { x: 300, y: 400 };
    let clamped = v.limit(100);
    assert_eq!(clamped, Vec2 { x: 60, y: 80 });
    let kept = v.limit(500);
    assert_eq!(kept, v);
    let scaled = Vec2 { x: -10, y: 0 }.with_mag(200);
    assert_eq!(scaled, Vec2 { x: -200, y: 0 });
    let zero = Vec2 { x: 0, y: 0 }.with_mag(200);
    assert_eq!(zero, Vec2 { x: 0, y: 0 });
}
