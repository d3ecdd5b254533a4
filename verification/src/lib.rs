//! A 2D flocking ("boids") simulation core.
//!
//! Each boid steers by three rules computed against a snapshot of the whole
//! population — separation, alignment and cohesion — and then integrates its
//! own motion under a speed cap. All coordinates are fixed-point: one distance
//! unit is `SCALE` coordinate steps, so the classic parameters (separation
//! radius 25, neighbourhood radius 50, maximum speed 2, maximum force 0.03)
//! are exact integers here.

use vstd::prelude::*;

pub mod boid;
pub mod flock;
pub mod math;
pub mod rng;
pub mod vec2;

verus! {

/// Fixed-point scale: the number of coordinate steps in one distance unit.
pub const SCALE: i64 = 100;

} // verus!
