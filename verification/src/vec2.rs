//! Fixed-point 2D vectors. A `Vec2` holds scaled integer coordinates; its
//! mathematical view is a pair of unbounded integers, and all contracts are
//! stated over such pairs.

use vstd::prelude::*;
use crate::math::{
    ceil_sqrt, csqrt, iabs, lemma_component_le_root, lemma_csqrt_props, lemma_mul_div_abs,
    lemma_mul_div_le_num, lemma_mul_div_opp, lemma_scale_pair_cap, lemma_square_nonneg, mul_div,
    spec_mul_div,
};
use vstd::arithmetic::mul::lemma_mul_nonnegative;

verus! {

/// The largest coordinate magnitude the vector operations accept; squares of
/// differences of such coordinates still fit in an `i64`.
pub const COMPONENT_LIMIT: i64 = 2_100_000_000;

/// A 2D vector (or point) in scaled integer coordinates.
#[derive(Clone, Copy, Debug, PartialEq, Eq, Structural)]
pub struct Vec2 {
    pub x: i64,
    pub y: i64,
}

impl View for Vec2 {
    type V = (int, int);

    open spec fn view(&self) -> (int, int) {
        (self.x as int, self.y as int)
    }
}

/// Componentwise sum.
pub open spec fn vplus(a: (int, int), b: (int, int)) -> (int, int) {
    (a.0 + b.0, a.1 + b.1)
}

/// Componentwise difference.
pub open spec fn vminus(a: (int, int), b: (int, int)) -> (int, int) {
    (a.0 - b.0, a.1 - b.1)
}

/// Componentwise negation.
pub open spec fn vneg(a: (int, int)) -> (int, int) {
    (-a.0, -a.1)
}

/// The squared Euclidean magnitude.
pub open spec fn nsq(a: (int, int)) -> int {
    a.0 * a.0 + a.1 * a.1
}

/// Both components scaled by `num / den`, rounded toward zero.
pub open spec fn vscale(a: (int, int), num: int, den: int) -> (int, int) {
    (spec_mul_div(a.0, num, den), spec_mul_div(a.1, num, den))
}

/// `v` rescaled to magnitude at most `mag` along its own direction: the
/// fixed-point form of "normalize, then multiply by `mag`". The zero vector
/// stays zero.
pub open spec fn spec_with_mag(v: (int, int), mag: int) -> (int, int) {
    if nsq(v) == 0 {
        (0, 0)
    } else {
        vscale(v, mag, csqrt(nsq(v)))
    }
}

/// `v` clamped to magnitude at most `cap`, direction preserved: a no-op when
/// already within the cap.
pub open spec fn spec_limit(v: (int, int), cap: int) -> (int, int) {
    if nsq(v) <= cap * cap {
        v
    } else {
        vscale(v, cap, csqrt(nsq(v)))
    }
}

/// Squared magnitudes are non-negative.
pub proof fn lemma_nsq_nonneg(a: (int, int))
    ensures
        nsq(a) >= 0,
{
    lemma_square_nonneg(a.0);
    lemma_square_nonneg(a.1);
}

/// A vector has squared magnitude zero exactly when it is the zero vector.
pub proof fn lemma_nsq_zero(a: (int, int))
    ensures
        nsq(a) == 0 <==> a == ((0int, 0int)),
{
    lemma_square_nonneg(a.0);
    lemma_square_nonneg(a.1);
    if a.0 * a.0 + a.1 * a.1 == 0 {
        assert(a.0 == 0) by (nonlinear_arith)
            requires
                a.0 * a.0 == 0,
        ;
        assert(a.1 == 0) by (nonlinear_arith)
            requires
                a.1 * a.1 == 0,
        ;
    }
}

/// Negation preserves the squared magnitude.
pub proof fn lemma_nsq_neg(a: (int, int))
    ensures
        nsq(vneg(a)) == nsq(a),
{
    assert((-a.0) * (-a.0) == a.0 * a.0) by (nonlinear_arith);
    assert((-a.1) * (-a.1) == a.1 * a.1) by (nonlinear_arith);
}

/// If the squared magnitude is bounded by a square, each component is bounded
/// by the root.
pub proof fn lemma_components_le_root(a: (int, int), m: int)
    requires
        0 <= m,
        nsq(a) <= m * m,
    ensures
        iabs(a.0) <= m,
        iabs(a.1) <= m,
{
    lemma_square_nonneg(a.0);
    lemma_square_nonneg(a.1);
    lemma_component_le_root(a.0, m);
    lemma_component_le_root(a.1, m);
}

/// Rescaling to a target magnitude is an odd function of the vector.
pub proof fn lemma_with_mag_opp(v: (int, int), mag: int)
    requires
        0 <= mag,
    ensures
        spec_with_mag(vneg(v), mag) == vneg(spec_with_mag(v, mag)),
{
    lemma_nsq_neg(v);
    if nsq(v) != 0 {
        let m = csqrt(nsq(v));
        lemma_nsq_nonneg(v);
        lemma_csqrt_props(nsq(v));
        lemma_mul_div_opp(v.0, mag, m);
        lemma_mul_div_opp(v.1, mag, m);
    }
}

/// Clamping is an odd function of the vector.
pub proof fn lemma_limit_opp(v: (int, int), cap: int)
    requires
        0 <= cap,
    ensures
        spec_limit(vneg(v), cap) == vneg(spec_limit(v, cap)),
{
    lemma_nsq_neg(v);
    if nsq(v) > cap * cap {
        let m = csqrt(nsq(v));
        lemma_nsq_nonneg(v);
        lemma_mul_nonnegative(cap, cap);
        lemma_csqrt_props(nsq(v));
        lemma_mul_div_opp(v.0, cap, m);
        lemma_mul_div_opp(v.1, cap, m);
    }
}

impl Vec2 {
    /// The zero vector.
    pub fn zero() -> (r: Vec2)
        ensures
            r@ == ((0int, 0int)),
            nsq(r@) == 0,
    {
        let r = Vec2 { x: 0, y: 0 };
        proof {
            assert(r@.0 == 0 && r@.1 == 0);
        }
        r
    }

    /// Componentwise addition.
    pub fn plus(self, other: Vec2) -> (r: Vec2)
        requires
            i64::MIN <= self.x + other.x <= i64::MAX,
            i64::MIN <= self.y + other.y <= i64::MAX,
        ensures
            r@ == vplus(self@, other@),
    {
        Vec2 { x: self.x + other.x, y: self.y + other.y }
    }

    /// Componentwise subtraction.
    pub fn minus(self, other: Vec2) -> (r: Vec2)
        requires
            i64::MIN <= self.x - other.x <= i64::MAX,
            i64::MIN <= self.y - other.y <= i64::MAX,
        ensures
            r@ == vminus(self@, other@),
    {
        Vec2 { x: self.x - other.x, y: self.y - other.y }
    }

    /// The squared Euclidean magnitude.
    pub fn len_sq(&self) -> (r: i64)
        requires
            iabs(self.x as int) <= COMPONENT_LIMIT as int,
            iabs(self.y as int) <= COMPONENT_LIMIT as int,
        ensures
            r as int == nsq(self@),
            0 <= r <= 8_820_000_000_000_000_000,
    {
        proof {
            assert((self.x as int) * (self.x as int) <= 4_410_000_000_000_000_000int
                && 0 <= (self.x as int) * (self.x as int)) by (nonlinear_arith)
                requires
                    -2_100_000_000int <= self.x as int <= 2_100_000_000int,
            ;
            assert((self.y as int) * (self.y as int) <= 4_410_000_000_000_000_000int
                && 0 <= (self.y as int) * (self.y as int)) by (nonlinear_arith)
                requires
                    -2_100_000_000int <= self.y as int <= 2_100_000_000int,
            ;
        }
        self.x * self.x + self.y * self.y
    }

    /// `self` rescaled to magnitude at most `mag` along its own direction;
    /// the zero vector stays zero.
    pub fn with_mag(self, mag: i64) -> (r: Vec2)
        requires
            iabs(self.x as int) <= COMPONENT_LIMIT as int,
            iabs(self.y as int) <= COMPONENT_LIMIT as int,
            0 <= mag <= 1_000_000,
        ensures
            r@ == spec_with_mag(self@, mag as int),
            nsq(r@) <= (mag as int) * (mag as int),
            iabs(r.x as int) <= mag as int,
            iabs(r.y as int) <= mag as int,
    {
        let d2 = self.len_sq();
        if d2 == 0 {
            proof {
                lemma_mul_nonnegative(mag as int, mag as int);
            }
            Vec2 { x: 0, y: 0 }
        } else {
            let m = ceil_sqrt(d2 as u64);
            proof {
                lemma_components_le_root(self@, m as int);
                lemma_mul_div_abs(self.x as int, mag as int, m as int);
                lemma_mul_div_abs(self.y as int, mag as int, m as int);
                lemma_mul_div_le_num(self.x as int, mag as int, m as int);
                lemma_mul_div_le_num(self.y as int, mag as int, m as int);
                lemma_scale_pair_cap(self.x as int, self.y as int, mag as int, m as int);
            }
            let rx = mul_div(self.x, mag, m as i64);
            let ry = mul_div(self.y, mag, m as i64);
            Vec2 { x: rx, y: ry }
        }
    }

    /// `self` clamped to magnitude at most `cap`, direction preserved; a
    /// no-op when the magnitude is already within the cap.
    pub fn limit(self, cap: i64) -> (r: Vec2)
        requires
            iabs(self.x as int) <= COMPONENT_LIMIT as int,
            iabs(self.y as int) <= COMPONENT_LIMIT as int,
            0 <= cap <= 1_000_000,
        ensures
            r@ == spec_limit(self@, cap as int),
            nsq(r@) <= (cap as int) * (cap as int),
            iabs(r.x as int) <= cap as int,
            iabs(r.y as int) <= cap as int,
    {
        proof {
            assert((cap as int) * (cap as int) <= 1_000_000_000_000int && 0 <= (cap as int) * (
            cap as int)) by (nonlinear_arith)
                requires
                    0 <= cap as int <= 1_000_000int,
            ;
        }
        let cc: i64 = cap * cap;
        let d2 = self.len_sq();
        if d2 <= cc {
            proof {
                lemma_components_le_root(self@, cap as int);
            }
            self
        } else {
            let m = ceil_sqrt(d2 as u64);
            proof {
                lemma_components_le_root(self@, m as int);
                lemma_mul_div_abs(self.x as int, cap as int, m as int);
                lemma_mul_div_abs(self.y as int, cap as int, m as int);
                lemma_mul_div_le_num(self.x as int, cap as int, m as int);
                lemma_mul_div_le_num(self.y as int, cap as int, m as int);
                lemma_scale_pair_cap(self.x as int, self.y as int, cap as int, m as int);
                lemma_components_le_root(
                    vscale(self@, cap as int, m as int),
                    cap as int,
                );
            }
            let rx = mul_div(self.x, cap, m as i64);
            let ry = mul_div(self.y, cap, m as i64);
            Vec2 { x: rx, y: ry }
        }
    }
}

} // verus!
