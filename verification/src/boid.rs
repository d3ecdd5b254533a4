//! One flocking individual and its steering rules.
//!
//! A boid steers by three bounded corrections computed against an immutable
//! snapshot of the whole population — separation (short-range repulsion),
//! alignment (velocity matching) and cohesion (attraction toward the local
//! centroid) — and then integrates its own motion under a speed cap.
//!
//! Every steering function is specified exactly: its result equals a spec
//! function of the boid's state and the snapshot, so one tick's outcome is a
//! mathematical function of the pre-tick population.

use vstd::prelude::*;
use crate::math::{
    ceil_sqrt, csqrt, iabs, lemma_csqrt_props, lemma_div_bound_by_factor, lemma_mul_div_abs,
    lemma_mul_div_le_num, lemma_mul_div_le_product, lemma_square_nonneg, mul_div, spec_mul_div,
};
use crate::vec2::{
    lemma_components_le_root, lemma_nsq_nonneg, lemma_nsq_zero, nsq, spec_limit,
    spec_with_mag, vminus, vneg, vplus, vscale, Vec2, COMPONENT_LIMIT,
};
use crate::SCALE;

verus! {

/// Cap on the magnitude of one steering correction (0.03 distance units).
pub const MAX_FORCE: i64 = 3;

/// Cap on the magnitude of the velocity (2 distance units per tick).
pub const MAX_SPEED: i64 = 200;

/// Visual radius of a boid (2 distance units); carried for display only.
pub const BOID_RADIUS: i64 = 200;

/// Below this distance (25 distance units) another boid repels.
pub const DESIRED_SEPARATION: i64 = 2_500;

/// Within this distance (50 distance units) another boid is a neighbor for
/// alignment and cohesion.
pub const NEIGHBOR_DIST: i64 = 5_000;

/// The largest coordinate magnitude at which steering is defined: distances
/// between such positions still square without overflow.
pub const POSITION_LIMIT: i64 = 1_000_000_000;

/// The largest `maxspeed` (and hence `maxforce`) a well-formed boid may carry.
pub const SPEED_LIMIT: i64 = 1_000_000;

/// The largest acceleration component `update` accepts.
pub const ACCEL_LIMIT: i64 = 10_000_000;

/// The largest acceleration component a boid may carry into a tick.
pub const ACCEL_START_LIMIT: i64 = 1_000_000;

/// The largest coordinate magnitude at which `update` can still move the
/// position without overflow.
pub const POSITION_HARD_LIMIT: i64 = 9_000_000_000_000_000_000;

/// The largest population the steering sums accept.
pub const MAX_POPULATION: usize = 1_000_000_000;

/// One flocking individual.
#[derive(Clone, Copy, Debug, PartialEq, Eq, Structural)]
pub struct Boid {
    /// Current position, in scaled coordinates.
    pub position: Vec2,
    /// Current velocity; after every `update` its magnitude is at most
    /// `maxspeed`.
    pub velocity: Vec2,
    /// Force accumulated during the current tick; zero between ticks.
    pub acceleration: Vec2,
    /// Visual size, unused by the steering math.
    pub radius: i64,
    /// Cap on one steering correction's magnitude.
    pub maxforce: i64,
    /// Cap on the velocity's magnitude.
    pub maxspeed: i64,
    /// Facing direction, set once at construction from the initial velocity
    /// and kept for display; it is not re-derived from later velocities.
    pub heading: Vec2,
}

/// Another boid at `other` repels a boid at `me`: strictly closer than the
/// separation threshold but not coincident.
pub open spec fn is_sep_neighbor(me: (int, int), other: (int, int)) -> bool {
    0 < nsq(vminus(me, other)) < (DESIRED_SEPARATION as int) * (DESIRED_SEPARATION as int)
}

/// Another boid at `other` is a neighbor of a boid at `me` for alignment and
/// cohesion: strictly within the neighborhood radius but not coincident.
pub open spec fn is_neighbor(me: (int, int), other: (int, int)) -> bool {
    0 < nsq(vminus(me, other)) < (NEIGHBOR_DIST as int) * (NEIGHBOR_DIST as int)
}

/// The separation contribution of one repelling neighbor: the unit vector
/// from the neighbor toward `me`, weighted down once more by the distance.
pub open spec fn sep_weight(me: (int, int), other: (int, int)) -> (int, int) {
    let diff = vminus(me, other);
    let m = csqrt(nsq(diff));
    vscale(vscale(diff, SCALE as int, m), SCALE as int, m)
}

/// The accumulated separation contributions over a snapshot, with the count
/// of repelling neighbors.
pub open spec fn sep_sum(me: (int, int), others: Seq<Boid>) -> ((int, int), int)
    decreases others.len(),
{
    if others.len() == 0 {
        (((0int, 0int)), 0)
    } else {
        let prev = sep_sum(me, others.drop_last());
        let o = others.last();
        if is_sep_neighbor(me, o.position@) {
            (vplus(prev.0, sep_weight(me, o.position@)), prev.1 + 1)
        } else {
            prev
        }
    }
}

/// The accumulated neighbor velocities over a snapshot, with the count.
pub open spec fn align_sum(me: (int, int), others: Seq<Boid>) -> ((int, int), int)
    decreases others.len(),
{
    if others.len() == 0 {
        (((0int, 0int)), 0)
    } else {
        let prev = align_sum(me, others.drop_last());
        let o = others.last();
        if is_neighbor(me, o.position@) {
            (vplus(prev.0, o.velocity@), prev.1 + 1)
        } else {
            prev
        }
    }
}

/// The accumulated neighbor positions over a snapshot, with the count.
pub open spec fn coh_sum(me: (int, int), others: Seq<Boid>) -> ((int, int), int)
    decreases others.len(),
{
    if others.len() == 0 {
        (((0int, 0int)), 0)
    } else {
        let prev = coh_sum(me, others.drop_last());
        let o = others.last();
        if is_neighbor(me, o.position@) {
            (vplus(prev.0, o.position@), prev.1 + 1)
        } else {
            prev
        }
    }
}

/// Steering toward a desired direction: rescale the direction to `maxspeed`,
/// subtract the current velocity, clamp to `maxforce`. A zero direction
/// yields zero steering (the guard that replaces a degenerate normalize).
pub open spec fn spec_steer(b: Boid, dir: (int, int)) -> (int, int) {
    if nsq(dir) == 0 {
        (0, 0)
    } else {
        spec_limit(vminus(spec_with_mag(dir, b.maxspeed as int), b.velocity@), b.maxforce as int)
    }
}

/// The separation rule: average the repulsion contributions and steer along
/// the average.
pub open spec fn spec_separate(b: Boid, others: Seq<Boid>) -> (int, int) {
    let sc = sep_sum(b.position@, others);
    if sc.1 > 0 {
        spec_steer(b, vscale(sc.0, 1, sc.1))
    } else {
        (0, 0)
    }
}

/// The alignment rule: steer along the average neighbor velocity.
pub open spec fn spec_align(b: Boid, others: Seq<Boid>) -> (int, int) {
    let sc = align_sum(b.position@, others);
    if sc.1 > 0 {
        spec_steer(b, vscale(sc.0, 1, sc.1))
    } else {
        (0, 0)
    }
}

/// Steering toward a target point.
pub open spec fn spec_seek(b: Boid, target: (int, int)) -> (int, int) {
    spec_steer(b, vminus(target, b.position@))
}

/// The cohesion rule: steer toward the centroid of the neighbors' positions.
pub open spec fn spec_cohesion(b: Boid, others: Seq<Boid>) -> (int, int) {
    let sc = coh_sum(b.position@, others);
    if sc.1 > 0 {
        spec_seek(b, vscale(sc.0, 1, sc.1))
    } else {
        (0, 0)
    }
}

/// The total force one flocking pass adds to the acceleration: separation
/// weighted by 3/2, alignment and cohesion by 1.
pub open spec fn spec_accel_delta(b: Boid, others: Seq<Boid>) -> (int, int) {
    vplus(
        vplus(vscale(spec_separate(b, others), 3, 2), spec_align(b, others)),
        spec_cohesion(b, others),
    )
}

/// The velocity after one full tick against the snapshot `others`.
pub open spec fn spec_new_velocity(b: Boid, others: Seq<Boid>) -> (int, int) {
    spec_limit(
        vplus(b.velocity@, vplus(b.acceleration@, spec_accel_delta(b, others))),
        b.maxspeed as int,
    )
}

/// The position after one full tick against the snapshot `others`.
pub open spec fn spec_new_position(b: Boid, others: Seq<Boid>) -> (int, int) {
    vplus(b.position@, spec_new_velocity(b, others))
}

/// `post` is exactly `pre` advanced by one tick against the snapshot `snap`.
pub open spec fn stepped(pre: Boid, post: Boid, snap: Seq<Boid>) -> bool {
    &&& post.position@ == spec_new_position(pre, snap)
    &&& post.velocity@ == spec_new_velocity(pre, snap)
    &&& post.acceleration@ == ((0int, 0int))
    &&& post.radius == pre.radius
    &&& post.maxforce == pre.maxforce
    &&& post.maxspeed == pre.maxspeed
    &&& post.heading == pre.heading
}

/// A snapshot the steering sums accept: not too many boids, each well-formed
/// and within the coordinate range of the distance computations.
pub open spec fn snapshot_ok(others: Seq<Boid>) -> bool {
    &&& others.len() <= MAX_POPULATION as int
    &&& forall|i: int|
        0 <= i < others.len() ==> (#[trigger] others[i]).wf() && others[i].in_bounds()
}

impl Boid {
    /// The caps are positive and bounded and the velocity obeys its cap;
    /// constructors establish this and every method preserves it.
    pub open spec fn wf(self) -> bool {
        &&& 0 < self.maxforce <= self.maxspeed <= SPEED_LIMIT
        &&& nsq(self.velocity@) <= (self.maxspeed as int) * (self.maxspeed as int)
        &&& 0 <= self.radius
    }

    /// The position is within the range the distance computations accept.
    pub open spec fn in_bounds(self) -> bool {
        &&& iabs(self.position@.0) <= POSITION_LIMIT as int
        &&& iabs(self.position@.1) <= POSITION_LIMIT as int
    }

    /// A boid at `(x, y)` with the given velocity, facing along it: the
    /// deterministic constructor, for hosts and tests that inject their own
    /// randomness.
    pub fn with_velocity(x: i64, y: i64, vx: i64, vy: i64) -> (b: Boid)
        requires
            nsq(((vx as int, vy as int))) <= (MAX_SPEED as int) * (MAX_SPEED as int),
        ensures
            b.position@ == ((x as int, y as int)),
            b.velocity@ == ((vx as int, vy as int)),
            b.acceleration@ == ((0int, 0int)),
            b.radius == BOID_RADIUS,
            b.maxforce == MAX_FORCE,
            b.maxspeed == MAX_SPEED,
            b.heading == b.velocity,
            b.wf(),
    {
        let vel = Vec2 { x: vx, y: vy };
        Boid {
            position: Vec2 { x, y },
            velocity: vel,
            acceleration: Vec2 { x: 0, y: 0 },
            radius: BOID_RADIUS,
            maxforce: MAX_FORCE,
            maxspeed: MAX_SPEED,
            heading: vel,
        }
    }

    /// A boid at `(x, y)` facing a uniformly drawn direction in the upper
    /// half-circle, at speed at most one distance unit. Nothing more is
    /// promised of the drawn direction.
    pub fn new(x: i64, y: i64) -> (b: Boid)
        ensures
            b.position@ == ((x as int, y as int)),
            b.acceleration@ == ((0int, 0int)),
            b.radius == BOID_RADIUS,
            b.maxforce == MAX_FORCE,
            b.maxspeed == MAX_SPEED,
            b.heading == b.velocity,
            b.wf(),
            nsq(b.velocity@) <= (SCALE as int) * (SCALE as int),
            b.velocity@.1 >= 0,
    {
        let r1: u64 = rand::random();
        let r2: u64 = rand::random();
        let dx: i64 = (r1 % 201) as i64 - 100;
        let dy: i64 = (r2 % 101) as i64;
        let dir = if dx == 0 && dy == 0 {
            Vec2 { x: SCALE, y: 0 }
        } else {
            Vec2 { x: dx, y: dy }
        };
        proof {
            lemma_nsq_zero(dir@);
        }
        let vel = dir.with_mag(SCALE);
        proof {
            lemma_nsq_nonneg(dir@);
            lemma_csqrt_props(nsq(dir@));
            lemma_mul_div_abs(dir@.1, SCALE as int, csqrt(nsq(dir@)));
        }
        Boid {
            position: Vec2 { x, y },
            velocity: vel,
            acceleration: Vec2 { x: 0, y: 0 },
            radius: BOID_RADIUS,
            maxforce: MAX_FORCE,
            maxspeed: MAX_SPEED,
            heading: vel,
        }
    }

    /// The current position.
    pub fn position(&self) -> (r: Vec2)
        ensures
            r == self.position,
    {
        self.position
    }

    /// The current velocity.
    pub fn velocity(&self) -> (r: Vec2)
        ensures
            r == self.velocity,
    {
        self.velocity
    }

    /// The facing direction, as the unit-scale vector of the initial
    /// velocity; display code derives a rotation angle from it.
    pub fn angle(&self) -> (r: Vec2)
        ensures
            r == self.heading,
    {
        self.heading
    }

    /// Accumulates `force` into the acceleration; no clamping happens here.
    pub fn apply_force(&mut self, force: Vec2)
        requires
            i64::MIN <= old(self).acceleration.x + force.x <= i64::MAX,
            i64::MIN <= old(self).acceleration.y + force.y <= i64::MAX,
        ensures
            final(self).acceleration@ == vplus(old(self).acceleration@, force@),
            final(self).position == old(self).position,
            final(self).velocity == old(self).velocity,
            final(self).radius == old(self).radius,
            final(self).maxforce == old(self).maxforce,
            final(self).maxspeed == old(self).maxspeed,
            final(self).heading == old(self).heading,
    {
        self.acceleration = self.acceleration.plus(force);
    }

    /// The integration step: add the accumulated acceleration to the
    /// velocity, clamp the velocity to `maxspeed`, move the position by the
    /// new velocity, and reset the acceleration to zero.
    pub fn update(&mut self)
        requires
            old(self).wf(),
            iabs(old(self).acceleration@.0) <= ACCEL_LIMIT as int,
            iabs(old(self).acceleration@.1) <= ACCEL_LIMIT as int,
            iabs(old(self).position@.0) <= POSITION_HARD_LIMIT as int,
            iabs(old(self).position@.1) <= POSITION_HARD_LIMIT as int,
        ensures
            final(self).velocity@ == spec_limit(
                vplus(old(self).velocity@, old(self).acceleration@),
                old(self).maxspeed as int,
            ),
            final(self).position@ == vplus(old(self).position@, final(self).velocity@),
            final(self).acceleration@ == ((0int, 0int)),
            nsq(final(self).velocity@) <= (old(self).maxspeed as int) * (
            old(self).maxspeed as int),
            final(self).wf(),
            final(self).radius == old(self).radius,
            final(self).maxforce == old(self).maxforce,
            final(self).maxspeed == old(self).maxspeed,
            final(self).heading == old(self).heading,
    {
        proof {
            lemma_components_le_root(self.velocity@, self.maxspeed as int);
        }
        let v1 = self.velocity.plus(self.acceleration);
        let v2 = v1.limit(self.maxspeed);
        self.velocity = v2;
        self.position = self.position.plus(v2);
        self.acceleration = Vec2 { x: 0, y: 0 };
    }

    /// Steering toward a desired direction: the shared tail of all three
    /// rules. Zero direction, zero steering.
    fn steer_toward(&self, dir: Vec2) -> (r: Vec2)
        requires
            self.wf(),
            iabs(dir@.0) <= COMPONENT_LIMIT as int,
            iabs(dir@.1) <= COMPONENT_LIMIT as int,
        ensures
            r@ == spec_steer(*self, dir@),
            nsq(r@) <= (self.maxforce as int) * (self.maxforce as int),
            iabs(r@.0) <= self.maxforce as int,
            iabs(r@.1) <= self.maxforce as int,
    {
        let d2 = dir.len_sq();
        if d2 == 0 {
            proof {
                lemma_square_nonneg(self.maxforce as int);
            }
            Vec2::zero()
        } else {
            proof {
                lemma_components_le_root(self.velocity@, self.maxspeed as int);
            }
            let desired = dir.with_mag(self.maxspeed);
            let raw = desired.minus(self.velocity);
            raw.limit(self.maxforce)
        }
    }

    /// The separation rule: for every other boid strictly closer than
    /// `DESIRED_SEPARATION`, accumulate the unit vector away from it,
    /// weighted down by the distance; average and steer along the result.
    pub fn separate(&self, others: &Vec<Boid>) -> (r: Vec2)
        requires
            self.wf(),
            self.in_bounds(),
            snapshot_ok(others@),
        ensures
            r@ == spec_separate(*self, others@),
            nsq(r@) <= (self.maxforce as int) * (self.maxforce as int),
            iabs(r@.0) <= self.maxforce as int,
            iabs(r@.1) <= self.maxforce as int,
    {
        let sep_r2: i64 = DESIRED_SEPARATION * DESIRED_SEPARATION;
        let mut sum = Vec2 { x: 0, y: 0 };
        let mut count: usize = 0;
        let n = others.len();
        let mut i: usize = 0;
        while i < n
            invariant
                i <= n,
                n == others@.len(),
                self.wf(),
                self.in_bounds(),
                snapshot_ok(others@),
                count <= i,
                sep_r2 as int == (DESIRED_SEPARATION as int) * (DESIRED_SEPARATION as int),
                sum@ == sep_sum(self.position@, others@.take(i as int)).0,
                count as int == sep_sum(self.position@, others@.take(i as int)).1,
                iabs(sum@.0) <= count as int * ((SCALE as int) * (SCALE as int)),
                iabs(sum@.1) <= count as int * ((SCALE as int) * (SCALE as int)),
            decreases n - i,
        {
            let o = others[i];
            let diff = self.position.minus(o.position);
            let d2 = diff.len_sq();
            proof {
                assert(others@.take(i as int + 1).drop_last() =~= others@.take(i as int));
                assert(others@.take(i as int + 1).last() == others@[i as int]);
            }
            if 0 < d2 && d2 < sep_r2 {
                let m = ceil_sqrt(d2 as u64);
                proof {
                    lemma_components_le_root(diff@, m as int);
                    lemma_mul_div_abs(diff@.0, SCALE as int, m as int);
                    lemma_mul_div_abs(diff@.1, SCALE as int, m as int);
                    lemma_mul_div_le_num(diff@.0, SCALE as int, m as int);
                    lemma_mul_div_le_num(diff@.1, SCALE as int, m as int);
                }
                let ux = mul_div(diff.x, SCALE, m as i64);
                let uy = mul_div(diff.y, SCALE, m as i64);
                proof {
                    lemma_mul_div_abs(ux as int, SCALE as int, m as int);
                    lemma_mul_div_abs(uy as int, SCALE as int, m as int);
                    lemma_mul_div_le_product(ux as int, SCALE as int, m as int);
                    lemma_mul_div_le_product(uy as int, SCALE as int, m as int);
                }
                let wx = mul_div(ux, SCALE, m as i64);
                let wy = mul_div(uy, SCALE, m as i64);
                proof {
                    assert((SCALE as int) * (SCALE as int) == 10000);
                    assert(iabs(wx as int) <= 10000);
                    assert(iabs(wy as int) <= 10000);
                    assert(iabs(sum@.0) <= count as int * 10000);
                    assert(iabs(sum@.1) <= count as int * 10000);
                    assert(iabs(sum@.0 + wx as int) <= (count as int + 1) * 10000);
                    assert(iabs(sum@.1 + wy as int) <= (count as int + 1) * 10000);
                }
                sum = sum.plus(Vec2 { x: wx, y: wy });
                count = count + 1;
            }
            i = i + 1;
        }
        proof {
            assert(others@.take(n as int) =~= others@);
        }
        if count > 0 {
            let c = count as i64;
            proof {
                lemma_mul_div_abs(sum@.0, 1, c as int);
                lemma_mul_div_abs(sum@.1, 1, c as int);
                lemma_div_bound_by_factor(sum@.0, c as int, (SCALE as int) * (SCALE as int));
                lemma_div_bound_by_factor(sum@.1, c as int, (SCALE as int) * (SCALE as int));
            }
            let ax = mul_div(sum.x, 1, c);
            let ay = mul_div(sum.y, 1, c);
            self.steer_toward(Vec2 { x: ax, y: ay })
        } else {
            proof {
                lemma_square_nonneg(self.maxforce as int);
            }
            Vec2::zero()
        }
    }

    /// The alignment rule: average the velocities of all boids strictly
    /// within `NEIGHBOR_DIST` and steer along that average.
    pub fn align(&self, others: &Vec<Boid>) -> (r: Vec2)
        requires
            self.wf(),
            self.in_bounds(),
            snapshot_ok(others@),
        ensures
            r@ == spec_align(*self, others@),
            nsq(r@) <= (self.maxforce as int) * (self.maxforce as int),
            iabs(r@.0) <= self.maxforce as int,
            iabs(r@.1) <= self.maxforce as int,
    {
        let neigh_r2: i64 = NEIGHBOR_DIST * NEIGHBOR_DIST;
        let mut sum = Vec2 { x: 0, y: 0 };
        let mut count: usize = 0;
        let n = others.len();
        let mut i: usize = 0;
        while i < n
            invariant
                i <= n,
                n == others@.len(),
                self.wf(),
                self.in_bounds(),
                snapshot_ok(others@),
                count <= i,
                neigh_r2 as int == (NEIGHBOR_DIST as int) * (NEIGHBOR_DIST as int),
                sum@ == align_sum(self.position@, others@.take(i as int)).0,
                count as int == align_sum(self.position@, others@.take(i as int)).1,
                iabs(sum@.0) <= count as int * (SPEED_LIMIT as int),
                iabs(sum@.1) <= count as int * (SPEED_LIMIT as int),
            decreases n - i,
        {
            let o = others[i];
            let diff = self.position.minus(o.position);
            let d2 = diff.len_sq();
            proof {
                assert(others@.take(i as int + 1).drop_last() =~= others@.take(i as int));
                assert(others@.take(i as int + 1).last() == others@[i as int]);
            }
            if 0 < d2 && d2 < neigh_r2 {
                proof {
                    lemma_components_le_root(o.velocity@, o.maxspeed as int);
                    assert(iabs(o.velocity@.0) <= 1_000_000);
                    assert(iabs(o.velocity@.1) <= 1_000_000);
                    assert(iabs(sum@.0) <= count as int * 1_000_000);
                    assert(iabs(sum@.1) <= count as int * 1_000_000);
                    assert(iabs(sum@.0 + o.velocity@.0) <= (count as int + 1) * 1_000_000);
                    assert(iabs(sum@.1 + o.velocity@.1) <= (count as int + 1) * 1_000_000);
                }
                sum = sum.plus(o.velocity);
                count = count + 1;
            }
            i = i + 1;
        }
        proof {
            assert(others@.take(n as int) =~= others@);
        }
        if count > 0 {
            let c = count as i64;
            proof {
                lemma_mul_div_abs(sum@.0, 1, c as int);
                lemma_mul_div_abs(sum@.1, 1, c as int);
                lemma_div_bound_by_factor(sum@.0, c as int, SPEED_LIMIT as int);
                lemma_div_bound_by_factor(sum@.1, c as int, SPEED_LIMIT as int);
            }
            let ax = mul_div(sum.x, 1, c);
            let ay = mul_div(sum.y, 1, c);
            self.steer_toward(Vec2 { x: ax, y: ay })
        } else {
            proof {
                lemma_square_nonneg(self.maxforce as int);
            }
            Vec2::zero()
        }
    }

    /// The cohesion rule: find the centroid of all boids strictly within
    /// `NEIGHBOR_DIST` and steer toward it.
    pub fn cohesion(&self, others: &Vec<Boid>) -> (r: Vec2)
        requires
            self.wf(),
            self.in_bounds(),
            snapshot_ok(others@),
        ensures
            r@ == spec_cohesion(*self, others@),
            nsq(r@) <= (self.maxforce as int) * (self.maxforce as int),
            iabs(r@.0) <= self.maxforce as int,
            iabs(r@.1) <= self.maxforce as int,
    {
        let neigh_r2: i64 = NEIGHBOR_DIST * NEIGHBOR_DIST;
        let mut sum = Vec2 { x: 0, y: 0 };
        let mut count: usize = 0;
        let n = others.len();
        let mut i: usize = 0;
        while i < n
            invariant
                i <= n,
                n == others@.len(),
                self.wf(),
                self.in_bounds(),
                snapshot_ok(others@),
                count <= i,
                neigh_r2 as int == (NEIGHBOR_DIST as int) * (NEIGHBOR_DIST as int),
                sum@ == coh_sum(self.position@, others@.take(i as int)).0,
                count as int == coh_sum(self.position@, others@.take(i as int)).1,
                iabs(sum@.0) <= count as int * (POSITION_LIMIT as int),
                iabs(sum@.1) <= count as int * (POSITION_LIMIT as int),
            decreases n - i,
        {
            let o = others[i];
            let diff = self.position.minus(o.position);
            let d2 = diff.len_sq();
            proof {
                assert(others@.take(i as int + 1).drop_last() =~= others@.take(i as int));
                assert(others@.take(i as int + 1).last() == others@[i as int]);
            }
            if 0 < d2 && d2 < neigh_r2 {
                proof {
                    assert(iabs(o.position@.0) <= 1_000_000_000);
                    assert(iabs(o.position@.1) <= 1_000_000_000);
                    assert(iabs(sum@.0) <= count as int * 1_000_000_000);
                    assert(iabs(sum@.1) <= count as int * 1_000_000_000);
                    assert(iabs(sum@.0 + o.position@.0) <= (count as int + 1) * 1_000_000_000);
                    assert(iabs(sum@.1 + o.position@.1) <= (count as int + 1) * 1_000_000_000);
                }
                sum = sum.plus(o.position);
                count = count + 1;
            }
            i = i + 1;
        }
        proof {
            assert(others@.take(n as int) =~= others@);
        }
        if count > 0 {
            let c = count as i64;
            proof {
                lemma_mul_div_abs(sum@.0, 1, c as int);
                lemma_mul_div_abs(sum@.1, 1, c as int);
                lemma_div_bound_by_factor(sum@.0, c as int, POSITION_LIMIT as int);
                lemma_div_bound_by_factor(sum@.1, c as int, POSITION_LIMIT as int);
            }
            let ax = mul_div(sum.x, 1, c);
            let ay = mul_div(sum.y, 1, c);
            self.seek(Vec2 { x: ax, y: ay })
        } else {
            proof {
                lemma_square_nonneg(self.maxforce as int);
            }
            Vec2::zero()
        }
    }

    /// The steering force toward a target point: the desired velocity points
    /// at the target at `maxspeed`; the steering is the clamped difference
    /// from the current velocity.
    fn seek(&self, target: Vec2) -> (r: Vec2)
        requires
            self.wf(),
            self.in_bounds(),
            iabs(target@.0) <= POSITION_LIMIT as int,
            iabs(target@.1) <= POSITION_LIMIT as int,
        ensures
            r@ == spec_seek(*self, target@),
            nsq(r@) <= (self.maxforce as int) * (self.maxforce as int),
            iabs(r@.0) <= self.maxforce as int,
            iabs(r@.1) <= self.maxforce as int,
    {
        let dir = target.minus(self.position);
        self.steer_toward(dir)
    }

    /// One flocking pass: compute the three steering rules against the same
    /// snapshot, weight separation by 3/2, and accumulate all three into the
    /// acceleration.
    pub fn flock(&mut self, others: &Vec<Boid>)
        requires
            old(self).wf(),
            old(self).in_bounds(),
            snapshot_ok(others@),
            iabs(old(self).acceleration@.0) <= ACCEL_START_LIMIT as int,
            iabs(old(self).acceleration@.1) <= ACCEL_START_LIMIT as int,
        ensures
            final(self).acceleration@ == vplus(
                old(self).acceleration@,
                spec_accel_delta(*old(self), others@),
            ),
            iabs(final(self).acceleration@.0) <= ACCEL_START_LIMIT as int + 5 * (
            old(self).maxforce as int),
            iabs(final(self).acceleration@.1) <= ACCEL_START_LIMIT as int + 5 * (
            old(self).maxforce as int),
            final(self).position == old(self).position,
            final(self).velocity == old(self).velocity,
            final(self).radius == old(self).radius,
            final(self).maxforce == old(self).maxforce,
            final(self).maxspeed == old(self).maxspeed,
            final(self).heading == old(self).heading,
    {
        let sep = self.separate(others);
        let ali = self.align(others);
        let coh = self.cohesion(others);
        proof {
            lemma_mul_div_abs(sep@.0, 3, 2);
            lemma_mul_div_abs(sep@.1, 3, 2);
            lemma_mul_div_le_product(sep@.0, 3, 2);
            lemma_mul_div_le_product(sep@.1, 3, 2);
        }
        let wsx = mul_div(sep.x, 3, 2);
        let wsy = mul_div(sep.y, 3, 2);
        self.apply_force(Vec2 { x: wsx, y: wsy });
        self.apply_force(ali);
        self.apply_force(coh);
    }

    /// One full tick for this boid: flocking against the snapshot, then
    /// integration. The post-state is pinned by `stepped`, a function of the
    /// pre-state and the snapshot alone.
    pub fn run(&mut self, others: &Vec<Boid>)
        requires
            old(self).wf(),
            old(self).in_bounds(),
            snapshot_ok(others@),
            iabs(old(self).acceleration@.0) <= ACCEL_START_LIMIT as int,
            iabs(old(self).acceleration@.1) <= ACCEL_START_LIMIT as int,
        ensures
            stepped(*old(self), *final(self), others@),
            final(self).wf(),
            nsq(final(self).velocity@) <= (old(self).maxspeed as int) * (
            old(self).maxspeed as int),
    {
        self.flock(others);
        self.update();
    }
}

/// No boid in the snapshot influences `b`: each is either coincident with it
/// (in particular, `b` itself) or outside every steering radius.
pub open spec fn no_neighbors(b: Boid, others: Seq<Boid>) -> bool {
    forall|i: int|
        0 <= i < others.len() ==> !is_sep_neighbor(b.position@, (#[trigger] others[i]).position@)
            && !is_neighbor(b.position@, others[i].position@)
}

/// With no influencing boid in the snapshot, all three accumulations are
/// empty.
pub proof fn lemma_no_neighbor_sums(b: Boid, others: Seq<Boid>)
    requires
        no_neighbors(b, others),
    ensures
        sep_sum(b.position@, others) == ((((0int, 0int)), 0int)),
        align_sum(b.position@, others) == ((((0int, 0int)), 0int)),
        coh_sum(b.position@, others) == ((((0int, 0int)), 0int)),
    decreases others.len(),
{
    if others.len() > 0 {
        let dl = others.drop_last();
        assert forall|i: int| 0 <= i < dl.len() implies !is_sep_neighbor(
            b.position@,
            (#[trigger] dl[i]).position@,
        ) && !is_neighbor(b.position@, dl[i].position@) by {
            assert(dl[i] == others[i]);
        }
        lemma_no_neighbor_sums(b, dl);
        assert(others.last() == others[others.len() - 1]);
    }
}

/// Each steering rule returns the zero vector when no other boid is within
/// its radius, and the whole flocking pass then adds no force at all.
pub proof fn lemma_no_neighbors_zero_steering(b: Boid, others: Seq<Boid>)
    requires
        no_neighbors(b, others),
    ensures
        spec_separate(b, others) == ((0int, 0int)),
        spec_align(b, others) == ((0int, 0int)),
        spec_cohesion(b, others) == ((0int, 0int)),
        spec_accel_delta(b, others) == ((0int, 0int)),
{
    lemma_no_neighbor_sums(b, others);
    assert(spec_mul_div(0, 3, 2) == 0);
    assert(vscale((0int, 0int), 3, 2) == ((0int, 0int)));
    assert(vplus((0int, 0int), (0int, 0int)) == ((0int, 0int)));
}

/// A boid with no influencing neighbor and no accumulated force moves in a
/// straight line at its current (already capped) velocity.
pub proof fn lemma_no_neighbors_straight_motion(b: Boid, others: Seq<Boid>)
    requires
        b.wf(),
        b.acceleration@ == ((0int, 0int)),
        no_neighbors(b, others),
    ensures
        spec_new_velocity(b, others) == b.velocity@,
        spec_new_position(b, others) == vplus(b.position@, b.velocity@),
{
    lemma_no_neighbors_zero_steering(b, others);
    let v = b.velocity@;
    assert(vplus(v, vplus((0int, 0int), (0int, 0int))) == ((v.0, v.1)));
    assert(v == ((v.0, v.1)));
    assert(nsq(v) <= (b.maxspeed as int) * (b.maxspeed as int));
}

/// A flock of size one: the lone boid is coincident with its own snapshot
/// entry, so it has no neighbor in its own snapshot.
pub proof fn lemma_lone_boid(b: Boid)
    ensures
        no_neighbors(b, seq![b]),
{
    let s = seq![b];
    assert(s.len() == 1 && s[0] == b);
    assert(vminus(b.position@, b.position@) == ((0int, 0int)));
    crate::vec2::lemma_nsq_zero(vminus(b.position@, b.position@));
}

/// Symmetry of separation, before any clamping: for exactly two mutually
/// repelling boids, whatever their velocities, the accumulated repulsion
/// vectors point in exactly opposite directions.
pub proof fn lemma_separation_contributions_opposite(a: Boid, b: Boid)
    requires
        is_sep_neighbor(a.position@, b.position@),
    ensures
        sep_sum(a.position@, seq![a, b]).1 == 1,
        sep_sum(b.position@, seq![a, b]).1 == 1,
        sep_sum(b.position@, seq![a, b]).0 == vneg(sep_sum(a.position@, seq![a, b]).0),
{
    reveal_with_fuel(sep_sum, 4);
    let s = seq![a, b];
    let pa = a.position@;
    let pb = b.position@;
    let d = vminus(pa, pb);
    crate::vec2::lemma_nsq_neg(d);
    assert(vminus(pb, pa) == vneg(d));
    assert(is_sep_neighbor(pb, pa));
    crate::vec2::lemma_nsq_zero(vminus(pa, pa));
    assert(vminus(pa, pa) == ((0int, 0int)));
    assert(!is_sep_neighbor(pa, pa));
    crate::vec2::lemma_nsq_zero(vminus(pb, pb));
    assert(vminus(pb, pb) == ((0int, 0int)));
    assert(!is_sep_neighbor(pb, pb));

    // Unfold both accumulations over [a, b].
    assert(s.drop_last() =~= seq![a]);
    assert(seq![a].drop_last() =~= Seq::<Boid>::empty());
    assert(s.last() == b && seq![a].last() == a);
    let wa = sep_weight(pa, pb);
    let wb = sep_weight(pb, pa);
    assert(sep_sum(pa, s) == ((vplus((0int, 0int), wa), 1int)));
    assert(sep_sum(pb, s).1 == 1 && sep_sum(pb, s).0 == vplus((0int, 0int), wb));

    // The two contributions are exact opposites.
    let m = csqrt(nsq(d));
    lemma_nsq_nonneg(d);
    lemma_csqrt_props(nsq(d));
    lemma_mul_div_opp_pair(d, SCALE as int, m);
    let ua = vscale(d, SCALE as int, m);
    assert(vscale(vneg(d), SCALE as int, m) == vneg(ua));
    lemma_mul_div_opp_pair(ua, SCALE as int, m);
    assert(wb == vneg(wa));
}

/// Symmetry of separation: for exactly two mutually repelling boids whose
/// velocities are opposite (both at rest included) and whose caps agree, the
/// two separation steering vectors are exact opposites even after rescaling
/// and clamping. (With other velocity pairs the clamping may break the
/// symmetry, as the rule subtracts each boid's own velocity; the raw
/// contributions are still opposite, by the lemma above.)
pub proof fn lemma_separation_symmetry(a: Boid, b: Boid)
    requires
        a.wf(),
        b.wf(),
        a.maxspeed == b.maxspeed,
        a.maxforce == b.maxforce,
        a.velocity@ == vneg(b.velocity@),
        is_sep_neighbor(a.position@, b.position@),
    ensures
        spec_separate(a, seq![a, b]) == vneg(spec_separate(b, seq![a, b])),
{
    lemma_separation_contributions_opposite(a, b);
    let s = seq![a, b];
    let sa = sep_sum(a.position@, s).0;
    let sb = sep_sum(b.position@, s).0;

    // Averaging over a single neighbor changes nothing.
    crate::math::lemma_mul_div_identity(sa.0);
    crate::math::lemma_mul_div_identity(sa.1);
    crate::math::lemma_mul_div_identity(sb.0);
    crate::math::lemma_mul_div_identity(sb.1);
    assert(vscale(sa, 1, 1) == sa && vscale(sb, 1, 1) == sb);

    // Steering is odd in (direction, own velocity) taken together.
    lemma_steer_opp(a, b, sa);
}

/// Scaling both components is odd in the vector.
proof fn lemma_mul_div_opp_pair(v: (int, int), num: int, den: int)
    requires
        0 <= num,
        0 < den,
    ensures
        vscale(vneg(v), num, den) == vneg(vscale(v, num, den)),
{
    crate::math::lemma_mul_div_opp(v.0, num, den);
    crate::math::lemma_mul_div_opp(v.1, num, den);
}

/// Two boids with opposite velocities and equal caps steer oppositely along
/// opposite directions.
proof fn lemma_steer_opp(a: Boid, b: Boid, dir: (int, int))
    requires
        a.maxspeed == b.maxspeed,
        a.maxforce == b.maxforce,
        0 <= a.maxspeed,
        0 <= a.maxforce,
        a.velocity@ == vneg(b.velocity@),
    ensures
        spec_steer(b, vneg(dir)) == vneg(spec_steer(a, dir)),
{
    crate::vec2::lemma_nsq_neg(dir);
    if nsq(dir) == 0 {
        assert(vneg((0int, 0int)) == ((0int, 0int)));
    } else {
        crate::vec2::lemma_with_mag_opp(dir, a.maxspeed as int);
        let wm = spec_with_mag(dir, a.maxspeed as int);
        assert(vminus(vneg(wm), b.velocity@) == vneg(vminus(wm, a.velocity@)));
        crate::vec2::lemma_limit_opp(vminus(wm, a.velocity@), a.maxforce as int);
    }
}

/// Determinism of one tick, per boid: the stepped state is a function of the
/// pre-tick state and the snapshot alone, so any two runs from equal inputs
/// end equal.
pub proof fn lemma_run_deterministic(pre: Boid, post1: Boid, post2: Boid, snap: Seq<Boid>)
    requires
        stepped(pre, post1, snap),
        stepped(pre, post2, snap),
    ensures
        post1 == post2,
{
    assert(post1.position.x == post2.position.x && post1.position.y == post2.position.y);
    assert(post1.velocity.x == post2.velocity.x && post1.velocity.y == post2.velocity.y);
    assert(post1.acceleration.x == post2.acceleration.x && post1.acceleration.y
        == post2.acceleration.y);
    assert(post1.position == post2.position);
    assert(post1.velocity == post2.velocity);
    assert(post1.acceleration == post2.acceleration);
}

} // verus!
