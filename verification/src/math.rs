//! Integer helpers for fixed-point arithmetic: truncating division,
//! saturation, and integer square roots.

use vstd::prelude::*;

verus! {

use vstd::arithmetic::div_mod::lemma_div_is_ordered;
use vstd::arithmetic::div_mod::lemma_div_multiples_vanish;
use vstd::arithmetic::div_mod::lemma_div_nonincreasing;
use vstd::arithmetic::mul::lemma_mul_is_commutative;

/// Quotient of `a` by `d` with the fraction dropped toward zero, the way
/// hardware signed division rounds. The spec-level `/` on `int` rounds
/// toward negative infinity instead, so the negative case is spelled out.
pub open spec fn div_trunc(a: int, d: int) -> int {
    if a >= 0 {
        a / d
    } else {
        -((-a) / d)
    }
}

/// `v` saturated into the interval `[-bound, bound]`.
pub open spec fn clamp(v: int, bound: int) -> int {
    if v > bound {
        bound
    } else if v < -bound {
        -bound
    } else {
        v
    }
}

/// The integer square root: the largest `r` with `r * r <= n`.
pub open spec fn sqrt_floor(n: nat) -> nat
    decreases n,
{
    if n == 0 {
        0
    } else {
        let p = sqrt_floor((n - 1) as nat);
        if (p + 1) * (p + 1) <= n {
            p + 1
        } else {
            p
        }
    }
}

/// `sqrt_floor(n)` squares to at most `n`, and the next integer up squares
/// past `n`.
pub proof fn lemma_sqrt_floor_bounds(n: nat)
    ensures
        sqrt_floor(n) * sqrt_floor(n) <= n,
        n < (sqrt_floor(n) + 1) * (sqrt_floor(n) + 1),
    decreases n,
{
    let s = sqrt_floor(n);
    if n == 0 {
        assert(s == 0);
        assert(s * s <= n && n < (s + 1) * (s + 1)) by (nonlinear_arith)
            requires
                s == 0 && n == 0,
        ;
    } else {
        lemma_sqrt_floor_bounds((n - 1) as nat);
        let p = sqrt_floor((n - 1) as nat);
        if (p + 1) * (p + 1) <= n {
            assert(s == p + 1);
            assert(s * s <= n && n < (s + 1) * (s + 1)) by (nonlinear_arith)
                requires
                    s == p + 1,
                    (p + 1) * (p + 1) <= n,
                    n - 1 < (p + 1) * (p + 1),
            ;
        } else {
            assert(s == p);
            assert(s * s <= n && n < (s + 1) * (s + 1)) by (nonlinear_arith)
                requires
                    s == p,
                    p * p <= n - 1,
                    !((p + 1) * (p + 1) <= n),
            ;
        }
    }
}

/// Any `r` whose square brackets `n` is the integer square root of `n`.
pub proof fn lemma_sqrt_floor_unique(n: nat, r: nat)
    requires
        r * r <= n,
        n < (r + 1) * (r + 1),
    ensures
        r == sqrt_floor(n),
{
    lemma_sqrt_floor_bounds(n);
    let s = sqrt_floor(n);
    if r < s {
        assert((r + 1) * (r + 1) <= s * s) by (nonlinear_arith)
            requires
                r + 1 <= s,
        ;
    }
    if s < r {
        assert((s + 1) * (s + 1) <= r * r) by (nonlinear_arith)
            requires
                s + 1 <= r,
        ;
    }
}

/// A sum of at most `c * d` split over `d` parts averages to at most `c`.
pub proof fn lemma_div_le(x: int, c: int, d: int)
    requires
        0 <= x,
        x <= c * d,
        0 < d,
    ensures
        x / d <= c,
{
    lemma_div_is_ordered(x, c * d, d);
    lemma_div_multiples_vanish(c, d);
    lemma_mul_is_commutative(c, d);
    assert((d * c) / d == c);
    assert(x / d <= (c * d) / d);
}

/// The largest `r` with `r * r <= n`, found by binary search.
pub fn isqrt(n: u64) -> (r: u64)
    ensures
        r == sqrt_floor(n as nat),
{
    let mut lo: u64 = 0;
    let mut hi: u64 = 4294967296;
    while lo + 1 < hi
        invariant
            lo < hi,
            hi <= 4294967296,
            (lo as int) * (lo as int) <= n as int,
            (n as int) < (hi as int) * (hi as int),
        decreases hi - lo,
    {
        let mid = lo + (hi - lo) / 2;
        assert(lo < mid < hi);
        assert(mid * mid <= 4294967295u64 * 4294967295u64) by (nonlinear_arith)
            requires
                0 <= mid <= 4294967295u64,
        ;
        let sq = mid * mid;
        if sq <= n {
            lo = mid;
        } else {
            hi = mid;
        }
    }
    proof {
        lemma_sqrt_floor_unique(n as nat, lo as nat);
    }
    lo
}

/// Truncating division on a wide signed value by a positive divisor,
/// computed through unsigned magnitudes so the rounding direction is the
/// one `div_trunc` pins down.
pub fn div_trunc_i128(a: i128, d: i128) -> (r: i128)
    requires
        0 < d,
        i128::MIN < a,
    ensures
        r == div_trunc(a as int, d as int),
        a >= 0 ==> 0 <= r <= a,
        a < 0 ==> a <= r <= 0,
{
    if a >= 0 {
        let q = (a as u128) / (d as u128);
        proof {
            lemma_div_nonincreasing(a as int, d as int);
        }
        q as i128
    } else {
        let m = -a;
        let q = (m as u128) / (d as u128);
        proof {
            lemma_div_nonincreasing(m as int, d as int);
        }
        -(q as i128)
    }
}

/// A wide intermediate value saturated into `[-bound, bound]` and narrowed
/// back to `i64`.
pub fn clamp_i128(v: i128, bound: i64) -> (r: i64)
    requires
        0 <= bound,
    ensures
        r == clamp(v as int, bound as int),
{
    if v > bound as i128 {
        bound
    } else if v < -(bound as i128) {
        -bound
    } else {
        v as i64
    }
}

} // verus!
