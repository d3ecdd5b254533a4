//! Scalar fixed-point arithmetic: truncating scaled division and the integer
//! ceiling square root, with the bounds the steering proofs rest on.

use vstd::prelude::*;
use vstd::arithmetic::div_mod::{
    lemma_div_is_ordered, lemma_div_is_ordered_by_denominator, lemma_div_multiples_vanish,
    lemma_div_of0, lemma_div_pos_is_pos, lemma_remainder_lower,
};
use vstd::arithmetic::mul::{lemma_mul_inequality, lemma_mul_nonnegative};

verus! {

/// The absolute value of a mathematical integer.
pub open spec fn iabs(v: int) -> int {
    if v < 0 {
        -v
    } else {
        v
    }
}

/// `v * num / den`, quotient rounded toward zero. This is the one scaling
/// primitive of the fixed-point model: normalization, magnitude clamping and
/// averaging are all instances of it.
pub open spec fn spec_mul_div(v: int, num: int, den: int) -> int
    recommends
        0 <= num,
        0 < den,
{
    if v >= 0 {
        (v * num) / den
    } else {
        -(((-v) * num) / den)
    }
}

/// The scaled quotient keeps the sign of `v`, and its absolute value is the
/// plain quotient of absolute values.
pub proof fn lemma_mul_div_abs(v: int, num: int, den: int)
    requires
        0 <= num,
        0 < den,
    ensures
        iabs(spec_mul_div(v, num, den)) == (iabs(v) * num) / den,
        v >= 0 ==> spec_mul_div(v, num, den) >= 0,
        v <= 0 ==> spec_mul_div(v, num, den) <= 0,
{
    if v >= 0 {
        lemma_mul_nonnegative(v, num);
        lemma_div_pos_is_pos(v * num, den);
    } else {
        lemma_mul_nonnegative(-v, num);
        lemma_div_pos_is_pos((-v) * num, den);
    }
}

/// Scaling an integer no larger than the denominator yields at most the
/// numerator: `|v| <= den` gives `|v * num / den| <= num`.
pub proof fn lemma_mul_div_le_num(v: int, num: int, den: int)
    requires
        0 <= num,
        0 < den,
        iabs(v) <= den,
    ensures
        iabs(spec_mul_div(v, num, den)) <= num,
{
    lemma_mul_div_abs(v, num, den);
    lemma_mul_inequality(iabs(v), den, num);
    lemma_div_is_ordered(iabs(v) * num, den * num, den);
    lemma_div_multiples_vanish(num, den);
}

/// A crude but always-valid bound: `|v * num / den| <= |v| * num`.
pub proof fn lemma_mul_div_le_product(v: int, num: int, den: int)
    requires
        0 <= num,
        0 < den,
    ensures
        iabs(spec_mul_div(v, num, den)) <= iabs(v) * num,
{
    lemma_mul_div_abs(v, num, den);
    lemma_mul_nonnegative(iabs(v), num);
    lemma_div_is_ordered_by_denominator(iabs(v) * num, 1, den);
}

/// An average is bounded by the summands' bound: `|v| <= c * k` gives
/// `|v / c| <= k`.
pub proof fn lemma_div_bound_by_factor(v: int, c: int, k: int)
    requires
        0 < c,
        0 <= k,
        iabs(v) <= c * k,
    ensures
        iabs(spec_mul_div(v, 1, c)) <= k,
{
    lemma_mul_div_abs(v, 1, c);
    lemma_div_is_ordered(iabs(v), c * k, c);
    lemma_div_multiples_vanish(k, c);
}

/// Scaling is an odd function of `v`.
pub proof fn lemma_mul_div_opp(v: int, num: int, den: int)
    requires
        0 <= num,
        0 < den,
    ensures
        spec_mul_div(-v, num, den) == -spec_mul_div(v, num, den),
{
    if v == 0 {
        lemma_div_of0(den);
    }
}

/// Scaling by one over one leaves `v` unchanged.
pub proof fn lemma_mul_div_identity(v: int)
    ensures
        spec_mul_div(v, 1, 1) == v,
{
}

/// A square is never negative.
pub proof fn lemma_square_nonneg(x: int)
    ensures
        x * x >= 0,
{
    assert(x * x >= 0) by (nonlinear_arith);
}

/// Monotonicity of squaring on non-negative integers.
pub proof fn lemma_square_le(a: int, b: int)
    by (nonlinear_arith)
    requires
        0 <= a <= b,
    ensures
        a * a <= b * b,
{
}

/// A component is bounded by any root bound on its square: `x * x <= m * m`
/// with `m >= 0` gives `|x| <= m`.
pub proof fn lemma_component_le_root(x: int, m: int)
    requires
        0 <= m,
        x * x <= m * m,
    ensures
        iabs(x) <= m,
{
    if x > m {
        assert(x * x > m * m) by (nonlinear_arith)
            requires
                x > m >= 0,
        ;
    }
    if x < -m {
        assert(x * x > m * m) by (nonlinear_arith)
            requires
                x < -m,
                m >= 0,
        ;
    }
}

/// The central clamping fact: scaling both components of a vector by
/// `num / den`, where `den` dominates the vector's magnitude (given as
/// `x * x + y * y <= den * den`), yields a vector of magnitude at most `num`.
pub proof fn lemma_scale_pair_cap(x: int, y: int, num: int, den: int)
    requires
        0 <= num,
        1 <= den,
        x * x + y * y <= den * den,
    ensures
        spec_mul_div(x, num, den) * spec_mul_div(x, num, den) + spec_mul_div(y, num, den)
            * spec_mul_div(y, num, den) <= num * num,
{
    let mdx = spec_mul_div(x, num, den);
    let mdy = spec_mul_div(y, num, den);
    let a = iabs(mdx);
    let b = iabs(mdy);
    let ax = iabs(x);
    let ay = iabs(y);
    lemma_mul_div_abs(x, num, den);
    lemma_mul_div_abs(y, num, den);
    lemma_mul_nonnegative(ax, num);
    lemma_mul_nonnegative(ay, num);
    lemma_div_pos_is_pos(ax * num, den);
    lemma_div_pos_is_pos(ay * num, den);
    lemma_remainder_lower(ax * num, den);
    lemma_remainder_lower(ay * num, den);
    assert(a * den <= ax * num);
    assert(b * den <= ay * num);
    assert(ax * ax == x * x) by (nonlinear_arith)
        requires
            ax == x || ax == -x,
    ;
    assert(ay * ay == y * y) by (nonlinear_arith)
        requires
            ay == y || ay == -y,
    ;
    assert((a * den) * (a * den) <= (ax * num) * (ax * num)) by (nonlinear_arith)
        requires
            0 <= a,
            1 <= den,
            a * den <= ax * num,
    ;
    assert((b * den) * (b * den) <= (ay * num) * (ay * num)) by (nonlinear_arith)
        requires
            0 <= b,
            1 <= den,
            b * den <= ay * num,
    ;
    assert((a * den) * (a * den) == (den * den) * (a * a)) by (nonlinear_arith);
    assert((b * den) * (b * den) == (den * den) * (b * b)) by (nonlinear_arith);
    assert((ax * num) * (ax * num) == (ax * ax) * (num * num)) by (nonlinear_arith);
    assert((ay * num) * (ay * num) == (ay * ay) * (num * num)) by (nonlinear_arith);
    assert((den * den) * (a * a) + (den * den) * (b * b) == (den * den) * (a * a + b * b))
        by (nonlinear_arith);
    assert((ax * ax) * (num * num) + (ay * ay) * (num * num) == (ax * ax + ay * ay) * (num * num))
        by (nonlinear_arith);
    assert((ax * ax + ay * ay) * (num * num) <= (den * den) * (num * num)) by (nonlinear_arith)
        requires
            ax * ax + ay * ay <= den * den,
            0 <= num,
    ;
    assert((den * den) * (a * a + b * b) <= (den * den) * (num * num));
    assert(a * a + b * b <= num * num) by (nonlinear_arith)
        requires
            (den * den) * (a * a + b * b) <= (den * den) * (num * num),
            1 <= den,
    ;
    assert(mdx * mdx == a * a) by (nonlinear_arith)
        requires
            a == mdx || a == -mdx,
    ;
    assert(mdy * mdy == b * b) by (nonlinear_arith)
        requires
            b == mdy || b == -mdy,
    ;
}

/// `r` is the ceiling square root of `n`: the least integer whose square
/// reaches `n` (for `n >= 1`).
pub open spec fn is_csqrt(n: int, r: int) -> bool {
    &&& 0 <= r
    &&& n <= r * r
    &&& (r - 1) * (r - 1) < n
}

/// The ceiling square root of `n`, as a total spec function.
pub open spec fn csqrt(n: int) -> int {
    if n <= 0 {
        0
    } else {
        choose|r: int| is_csqrt(n, r)
    }
}

/// A ceiling square root exists for every positive integer.
pub proof fn lemma_csqrt_exists(n: int)
    requires
        1 <= n,
    ensures
        exists|r: int| is_csqrt(n, r),
    decreases n,
{
    if n == 1 {
        assert(is_csqrt(1, 1));
    } else {
        lemma_csqrt_exists(n - 1);
        let m = n - 1;
        let r0 = choose|r: int| is_csqrt(m, r);
        if n <= r0 * r0 {
            assert(is_csqrt(n, r0));
        } else {
            assert(n <= (r0 + 1) * (r0 + 1)) by (nonlinear_arith)
                requires
                    0 <= r0,
                    n <= r0 * r0 + 1,
            ;
            assert(is_csqrt(n, r0 + 1));
        }
    }
}

/// The ceiling square root is unique.
pub proof fn lemma_csqrt_unique(n: int, a: int, b: int)
    requires
        1 <= n,
        is_csqrt(n, a),
        is_csqrt(n, b),
    ensures
        a == b,
{
    if a < b {
        lemma_square_le(a, b - 1);
        assert(false);
    }
    if b < a {
        lemma_square_le(b, a - 1);
        assert(false);
    }
}

/// Any witness of `is_csqrt` is the value of `csqrt`.
pub proof fn lemma_csqrt_val(n: int, r: int)
    requires
        1 <= n,
        is_csqrt(n, r),
    ensures
        csqrt(n) == r,
{
    lemma_csqrt_unique(n, r, csqrt(n));
}

/// What holds of `csqrt(n)` for positive `n`: it is positive, its square
/// reaches `n`, and it is minimal with that property.
pub proof fn lemma_csqrt_props(n: int)
    requires
        1 <= n,
    ensures
        1 <= csqrt(n),
        n <= csqrt(n) * csqrt(n),
        (csqrt(n) - 1) * (csqrt(n) - 1) < n,
{
    lemma_csqrt_exists(n);
    let m = csqrt(n);
    assert(is_csqrt(n, m));
    if m < 1 {
        assert(m == 0);
        assert(m * m == 0) by (nonlinear_arith)
            requires
                m == 0,
        ;
        assert(false);
    }
}

/// `v * num / den`, rounded toward zero, on machine integers.
pub fn mul_div(v: i64, num: i64, den: i64) -> (r: i64)
    requires
        0 <= num,
        0 < den,
        iabs(v as int) * (num as int) / (den as int) <= i64::MAX as int,
    ensures
        r as int == spec_mul_div(v as int, num as int, den as int),
{
    proof {
        lemma_mul_div_abs(v as int, num as int, den as int);
    }
    if v >= 0 {
        proof {
            assert((v as int) * (num as int) <= 0x7fff_ffff_ffff_ffffint * 0x7fff_ffff_ffff_ffffint)
                by (nonlinear_arith)
                requires
                    0 <= v as int <= 0x7fff_ffff_ffff_ffffint,
                    0 <= num as int <= 0x7fff_ffff_ffff_ffffint,
            ;
        }
        let q: u128 = (v as u128) * (num as u128) / (den as u128);
        q as i64
    } else {
        let a: u128 = (-(v as i128)) as u128;
        proof {
            assert((a as int) * (num as int) <= 0x8000_0000_0000_0000int * 0x7fff_ffff_ffff_ffffint)
                by (nonlinear_arith)
                requires
                    0 <= a as int <= 0x8000_0000_0000_0000int,
                    0 <= num as int <= 0x7fff_ffff_ffff_ffffint,
            ;
        }
        let q: u128 = a * (num as u128) / (den as u128);
        -(q as i64)
    }
}

/// The ceiling square root of `n` on machine integers, by binary search.
pub fn ceil_sqrt(n: u64) -> (r: u64)
    requires
        1 <= n,
        n <= 9_000_000_000_000_000_000,
    ensures
        r as int == csqrt(n as int),
        is_csqrt(n as int, r as int),
        1 <= r <= 3_000_000_500,
{
    let mut lo: u64 = 1;
    let mut hi: u64 = 3_000_000_500;
    proof {
        assert(n as int <= 3_000_000_500int * 3_000_000_500int);
    }
    while lo < hi
        invariant
            1 <= lo <= hi <= 3_000_000_500,
            ((lo - 1) as int) * ((lo - 1) as int) < n as int,
            n as int <= (hi as int) * (hi as int),
        decreases hi - lo,
    {
        let mid = lo + (hi - lo) / 2;
        proof {
            assert((mid as int) * (mid as int) <= 3_000_000_500int * 3_000_000_500int)
                by (nonlinear_arith)
                requires
                    0 <= mid as int <= 3_000_000_500int,
            ;
        }
        let sq: u64 = mid * mid;
        if sq >= n {
            hi = mid;
        } else {
            lo = mid + 1;
        }
    }
    proof {
        assert(is_csqrt(n as int, lo as int));
        lemma_csqrt_val(n as int, lo as int);
    }
    lo
}

} // verus!
