//! The population: a fixed-size flock of boids and its tick driver.
//!
//! One tick takes a snapshot of the whole population first and then steps
//! every boid against that same snapshot, so no boid ever reads another's
//! mid-tick state: the outcome is a function of the pre-tick population
//! alone, independent of the order in which boids are processed.

use vstd::prelude::*;
use vstd::pervasive::VecAdditionalExecFns;
use crate::boid::{
    lemma_run_deterministic, snapshot_ok, stepped, Boid, ACCEL_START_LIMIT, MAX_POPULATION,
    POSITION_LIMIT,
};
use crate::math::iabs;

verus! {

/// The whole population advanced by one tick: every boid of `post` is its
/// `pre` counterpart stepped against the full pre-tick snapshot.
pub open spec fn ticked(pre: Seq<Boid>, post: Seq<Boid>) -> bool {
    &&& post.len() == pre.len()
    &&& forall|i: int| 0 <= i < pre.len() ==> stepped(pre[i], #[trigger] post[i], pre)
}

/// A population on which one tick is defined: not too large, every boid
/// well-formed, within coordinate range, and carrying no leftover force.
pub open spec fn flock_ok(boids: Seq<Boid>) -> bool {
    &&& boids.len() <= MAX_POPULATION as int
    &&& forall|i: int|
        0 <= i < boids.len() ==> (#[trigger] boids[i]).wf() && boids[i].in_bounds() && iabs(
            boids[i].acceleration@.0,
        ) <= ACCEL_START_LIMIT as int && iabs(boids[i].acceleration@.1)
            <= ACCEL_START_LIMIT as int
}

/// A `flock_ok` population is in particular a valid steering snapshot.
pub proof fn lemma_flock_ok_snapshot(boids: Seq<Boid>)
    requires
        flock_ok(boids),
    ensures
        snapshot_ok(boids),
{
    assert forall|i: int| 0 <= i < boids.len() implies (#[trigger] boids[i]).wf()
        && boids[i].in_bounds() by {}
}

/// One tick's outcome is unique: each post-tick state is a function of the
/// pre-tick snapshot alone, so any two complete passes over the same
/// snapshot — in particular, passes that process the boids in different
/// orders — produce identical populations.
pub proof fn lemma_tick_order_independent(pre: Seq<Boid>, post1: Seq<Boid>, post2: Seq<Boid>)
    requires
        ticked(pre, post1),
        ticked(pre, post2),
    ensures
        post1 == post2,
{
    assert forall|i: int| 0 <= i < post1.len() implies post1[i] == post2[i] by {
        lemma_run_deterministic(pre[i], post1[i], post2[i], pre);
    }
    assert(post1 =~= post2);
}

/// The fixed-size population of boids.
#[derive(Clone, Debug, PartialEq, Eq)]
pub struct Flock {
    /// The boids, in a fixed order; the length never changes after
    /// construction.
    pub boids: Vec<Boid>,
}

impl View for Flock {
    type V = Seq<Boid>;

    open spec fn view(&self) -> Seq<Boid> {
        self.boids@
    }
}

/// A coordinate drawn uniformly from `[0, limit)`; zero when the range is
/// empty, so a degenerate spawn area puts every boid at the origin.
fn random_coord(limit: i64) -> (r: i64)
    requires
        0 <= limit <= POSITION_LIMIT as int,
    ensures
        0 <= r <= limit,
        limit > 0 ==> r < limit,
        limit == 0 ==> r == 0,
{
    if limit == 0 {
        0
    } else {
        let raw: u64 = rand::random();
        let r = raw % (limit as u64);
        proof {
            vstd::arithmetic::div_mod::lemma_mod_division_less_than_divisor(
                raw as int,
                limit as int,
            );
        }
        r as i64
    }
}

impl Flock {
    /// A flock of `n` boids spawned uniformly at random in
    /// `[0, width) x [0, height)`, each facing a random direction. A zero
    /// width or height collapses that axis to the origin.
    pub fn new(n: usize, width: i64, height: i64) -> (f: Flock)
        requires
            0 <= width <= POSITION_LIMIT as int,
            0 <= height <= POSITION_LIMIT as int,
            n <= MAX_POPULATION,
        ensures
            f@.len() == n as int,
            flock_ok(f@),
            forall|i: int|
                0 <= i < n as int ==> {
                    &&& 0 <= (#[trigger] f@[i]).position@.0 <= width as int
                    &&& 0 <= f@[i].position@.1 <= height as int
                    &&& (width > 0 ==> f@[i].position@.0 < width as int)
                    &&& (height > 0 ==> f@[i].position@.1 < height as int)
                },
    {
        let mut boids: Vec<Boid> = Vec::new();
        let mut k: usize = 0;
        while k < n
            invariant
                k <= n,
                n <= MAX_POPULATION,
                0 <= width <= POSITION_LIMIT as int,
                0 <= height <= POSITION_LIMIT as int,
                boids@.len() == k as int,
                flock_ok(boids@),
                forall|i: int|
                    0 <= i < k as int ==> {
                        &&& 0 <= (#[trigger] boids@[i]).position@.0 <= width as int
                        &&& 0 <= boids@[i].position@.1 <= height as int
                        &&& (width > 0 ==> boids@[i].position@.0 < width as int)
                        &&& (height > 0 ==> boids@[i].position@.1 < height as int)
                    },
            decreases n - k,
        {
            let x = random_coord(width);
            let y = random_coord(height);
            let b = Boid::new(x, y);
            boids.push(b);
            k = k + 1;
        }
        Flock { boids }
    }

    /// A flock made of the given boids, in the given order: the
    /// deterministic constructor, for hosts and tests that build their own
    /// population.
    pub fn from_boids(boids: Vec<Boid>) -> (f: Flock)
        ensures
            f@ == boids@,
    {
        Flock { boids }
    }

    /// A value snapshot of the current population: the read model handed to
    /// every boid's steering pass, and to display code.
    pub fn boids(&self) -> (r: Vec<Boid>)
        ensures
            r@ == self@,
    {
        let mut out: Vec<Boid> = Vec::new();
        let n = self.boids.len();
        let mut i: usize = 0;
        while i < n
            invariant
                i <= n,
                n == self.boids@.len(),
                out@ == self.boids@.take(i as int),
            decreases n - i,
        {
            out.push(self.boids[i]);
            proof {
                assert(self.boids@.take(i as int + 1) =~= self.boids@.take(i as int).push(
                    self.boids@[i as int],
                ));
            }
            i = i + 1;
        }
        proof {
            assert(self.boids@.take(n as int) =~= self.boids@);
        }
        out
    }

    /// The population size, constant after construction.
    pub fn len(&self) -> (r: usize)
        ensures
            r as int == self@.len(),
    {
        self.boids.len()
    }

    /// One simulation tick: take one snapshot of the whole population, then
    /// step every boid against that same snapshot. No boid reads another's
    /// mid-tick state.
    pub fn run(&mut self)
        requires
            flock_ok(old(self)@),
        ensures
            ticked(old(self)@, final(self)@),
            final(self)@.len() == old(self)@.len(),
            forall|i: int|
                0 <= i < final(self)@.len() ==> (#[trigger] final(self)@[i]).wf()
                    && final(self)@[i].acceleration@ == ((0int, 0int)),
    {
        let ghost pre = self.boids@;
        proof {
            lemma_flock_ok_snapshot(pre);
        }
        let snapshot = self.boids();
        let n = self.boids.len();
        let mut i: usize = 0;
        while i < n
            invariant
                i <= n,
                n == pre.len(),
                self.boids@.len() == n as int,
                snapshot@ == pre,
                flock_ok(pre),
                snapshot_ok(pre),
                forall|j: int| i as int <= j < n as int ==> #[trigger] self.boids@[j] == pre[j],
                forall|j: int|
                    0 <= j < i as int ==> stepped(pre[j], #[trigger] self.boids@[j], pre)
                        && self.boids@[j].wf(),
            decreases n - i,
        {
            let mut b = self.boids[i];
            b.run(&snapshot);
            self.boids.set(i, b);
            i = i + 1;
        }
    }
}

} // verus!
