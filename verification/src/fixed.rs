//! Exact integer arithmetic for the UCB1 tree policy.
//!
//! Scores are fixed-point numbers with denominator [`SCALE`]. The
//! exploitation term of a child is its estimated value (or one minus it),
//! scaled; the exploration term is `sqrt(ln(2 * parent_visits) /
//! child_visits)`, scaled, where the natural logarithm is taken as
//! `floor(log2) * ln 2` and the square root rounds down. Every function
//! here is deterministic and proved equal to its spec counterpart.

use vstd::prelude::*;
use vstd::arithmetic::power2::{pow2, lemma_pow2_unfold, lemma2_to64};

verus! {

/// Fixed-point scale: scores carry this denominator.
pub const SCALE: u64 = 65536;

/// `ln 2 * SCALE`, rounded down.
pub const LN2_FP: u64 = 45426;

/// Cap on node visit counts; a node at the cap is not searched further.
/// Far beyond reach in practice, it keeps every statistic update free of
/// overflow.
pub const MAX_VISITS: u64 = 0x4000_0000_0000_0000;

/// `floor(log2 n)`, with 0 for `n < 2`.
pub open spec fn log2f(n: int) -> int
    decreases n,
{
    if n < 2 {
        0
    } else {
        1 + log2f(n / 2)
    }
}

/// The square root of `n`, rounded down (0 for negative `n`).
pub open spec fn isqrt_spec(n: int) -> int
    decreases n,
{
    if n <= 0 {
        0
    } else {
        let s = isqrt_spec(n - 1);
        if (s + 1) * (s + 1) <= n {
            s + 1
        } else {
            s
        }
    }
}

/// The scaled exploitation term: the child's estimated value
/// `reward / (2 * visits)` when maximizing, one minus it when minimizing.
pub open spec fn exploit_fp(reward: int, visits: int, maximize: bool) -> int {
    if maximize {
        (reward * (SCALE as int)) / (2 * visits)
    } else {
        ((2 * visits - reward) * (SCALE as int)) / (2 * visits)
    }
}

/// The scaled exploration term `sqrt(ln(2 * parent_visits) / visits)`.
pub open spec fn explore_fp(parent_visits: int, visits: int) -> int {
    isqrt_spec((log2f(2 * parent_visits) * (LN2_FP as int) * (SCALE as int)) / visits)
}

/// The UCB1 score of a child, in fixed point.
pub open spec fn score_fp(parent_visits: int, reward: int, visits: int, maximize: bool) -> int {
    exploit_fp(reward, visits, maximize) + explore_fp(parent_visits, visits)
}

pub proof fn lemma_log2f_nonneg(n: int)
    ensures
        0 <= log2f(n),
    decreases n,
{
    if n >= 2 {
        lemma_log2f_nonneg(n / 2);
    }
}

/// `log2f` of a number below `pow2(k)` is below `k`.
pub proof fn lemma_log2f_lt(n: int, k: nat)
    requires
        1 <= n,
        n < pow2(k),
    ensures
        log2f(n) < k,
    decreases n,
{
    if n < 2 {
        if k == 0 {
            assert(pow2(0) == 1) by {
                lemma2_to64();
            }
        }
    } else {
        if k == 0 {
            assert(pow2(0) == 1) by {
                lemma2_to64();
            }
        } else {
            lemma_pow2_unfold(k);
            lemma_log2f_lt(n / 2, (k - 1) as nat);
        }
    }
}

pub proof fn lemma_isqrt_spec_bounds(n: int)
    requires
        0 <= n,
    ensures
        0 <= isqrt_spec(n),
        isqrt_spec(n) * isqrt_spec(n) <= n,
        n < (isqrt_spec(n) + 1) * (isqrt_spec(n) + 1),
    decreases n,
{
    if n > 0 {
        lemma_isqrt_spec_bounds(n - 1);
        let s = isqrt_spec(n - 1);
        if (s + 1) * (s + 1) <= n {
            assert(n < (s + 2) * (s + 2)) by (nonlinear_arith)
                requires
                    0 <= s,
                    n - 1 < (s + 1) * (s + 1),
            {
            }
        }
    }
}

/// The rounded-down square root is the unique `r` with
/// `r * r <= n < (r + 1) * (r + 1)`.
pub proof fn lemma_isqrt_unique(n: int, r: int)
    requires
        0 <= r,
        r * r <= n,
        n < (r + 1) * (r + 1),
    ensures
        r == isqrt_spec(n),
{
    lemma_isqrt_spec_bounds(n);
    let s = isqrt_spec(n);
    if r < s {
        assert((r + 1) * (r + 1) <= s * s) by (nonlinear_arith)
            requires
                0 <= r,
                r + 1 <= s,
            {
            }
    }
    if s < r {
        assert((s + 1) * (s + 1) <= r * r) by (nonlinear_arith)
            requires
                0 <= s,
                s + 1 <= r,
            {
            }
    }
}

/// Computes `floor(log2 n)`.
pub fn log2_floor(n: u64) -> (r: u64)
    requires
        1 <= n,
    ensures
        r as int == log2f(n as int),
        r <= 63,
{
    let mut m: u64 = n;
    let mut r: u64 = 0;
    proof {
        lemma2_to64();
        lemma_log2f_lt(n as int, 64);
        lemma_log2f_nonneg(n as int);
    }
    while m >= 2
        invariant
            1 <= m,
            log2f(n as int) == r + log2f(m as int),
            log2f(n as int) < 64,
        decreases m,
    {
        proof {
            lemma_log2f_nonneg(m as int / 2);
        }
        m = m / 2;
        r = r + 1;
    }
    r
}

/// Computes the square root of `n`, rounded down.
pub fn isqrt(n: u64) -> (r: u64)
    ensures
        r as int == isqrt_spec(n as int),
        r * r <= n,
{
    let mut lo: u64 = 0;
    let mut hi: u64 = 4294967296;
    assert((hi as int) * (hi as int) > n as int) by (nonlinear_arith)
        requires
            hi == 4294967296,
            n <= 0xffff_ffff_ffff_ffff,
        {
        }
    while lo + 1 < hi
        invariant
            lo < hi <= 4294967296,
            (lo as int) * (lo as int) <= n as int,
            (n as int) < (hi as int) * (hi as int),
        decreases hi - lo,
    {
        let mid = lo + (hi - lo) / 2;
        assert((mid as int) * (mid as int) <= 0xffff_fffe_0000_0001) by (nonlinear_arith)
            requires
                mid <= 0xffff_ffff,
            {
            }
        if mid * mid <= n {
            lo = mid;
        } else {
            hi = mid;
        }
    }
    proof {
        lemma_isqrt_unique(n as int, lo as int);
    }
    lo
}

/// Computes the UCB1 score of a child node with the given statistics, in
/// fixed point with denominator [`SCALE`].
pub fn score_of(parent_visits: u64, reward: u64, visits: u64, maximize: bool) -> (r: u64)
    requires
        1 <= visits,
        reward <= 2 * visits,
        1 <= parent_visits <= MAX_VISITS,
    ensures
        r as int == score_fp(parent_visits as int, reward as int, visits as int, maximize),
{
    let twov: u128 = 2 * (visits as u128);
    let num: u128 = if maximize {
        reward as u128
    } else {
        twov - (reward as u128)
    };
    let q: u128 = num * (SCALE as u128) / twov;
    assert(q <= SCALE) by (nonlinear_arith)
        requires
            num <= twov,
            1 <= twov,
            q as int == (num as int) * (SCALE as int) / (twov as int),
            SCALE == 65536,
        {
        }
    let exploit: u64 = q as u64;

    let two_pv: u64 = 2 * parent_visits;
    let l: u64 = log2_floor(two_pv);
    let t: u64 = l * LN2_FP * SCALE;
    let q2: u64 = t / visits;
    let explore: u64 = isqrt(q2);
    assert(explore <= q2) by (nonlinear_arith)
        requires
            (explore as int) * (explore as int) <= q2 as int,
        {
        }
    exploit + explore
}

} // verus!
