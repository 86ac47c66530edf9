//! Integer square roots, rounded up.

use vstd::prelude::*;

verus! {

/// `h` is the least natural number whose square is at least `n`.
pub open spec fn is_ceil_sqrt(n: nat, h: nat) -> bool {
    &&& h * h >= n
    &&& h > 0 ==> (h - 1) * (h - 1) < n
}

/// The square root of `n`, rounded up to a whole number.
pub open spec fn ceil_sqrt(n: nat) -> nat {
    choose|h: nat| is_ceil_sqrt(n, h)
}

/// Every natural number has a rounded-up square root.
pub proof fn lemma_ceil_sqrt_exists(n: nat)
    ensures
        is_ceil_sqrt(n, ceil_sqrt(n)),
    decreases n,
{
    if n == 0 {
        assert(is_ceil_sqrt(0, 0));
    } else {
        lemma_ceil_sqrt_exists((n - 1) as nat);
        let p = ceil_sqrt((n - 1) as nat);
        if p * p >= n {
            assert(is_ceil_sqrt(n, p));
        } else {
            assert((p + 1) * (p + 1) >= n) by (nonlinear_arith)
                requires
                    p * p >= n - 1,
            ;
            assert(((p + 1) - 1) * ((p + 1) - 1) == p * p);
            assert(is_ceil_sqrt(n, (p + 1) as nat));
        }
    }
}

/// The rounded-up square root is unique.
pub proof fn lemma_ceil_sqrt_unique(n: nat, h: nat)
    requires
        is_ceil_sqrt(n, h),
    ensures
        h == ceil_sqrt(n),
{
    lemma_ceil_sqrt_exists(n);
    let c = ceil_sqrt(n);
    if h < c {
        assert(h * h <= (c - 1) * (c - 1)) by (nonlinear_arith)
            requires
                0 <= h <= c - 1,
        ;
    } else if c < h {
        assert(c * c <= (h - 1) * (h - 1)) by (nonlinear_arith)
            requires
                0 <= c <= h - 1,
        ;
    }
}

/// Computes the square root of `n`, rounded up, by bisection.
pub fn ceil_sqrt_u32(n: u32) -> (h: u32)
    ensures
        h == ceil_sqrt(n as nat),
        h <= 65536,
{
    let mut lo: u64 = 0;
    let mut hi: u64 = 65536;
    while lo < hi
        invariant
            lo <= hi <= 65536,
            hi * hi >= n,
            lo > 0 ==> (lo - 1) * (lo - 1) < n,
        decreases hi - lo,
    {
        let mid: u64 = lo + (hi - lo) / 2;
        assert(mid * mid <= 65536 * 65536) by (nonlinear_arith)
            requires
                mid <= 65536,
        ;
        if mid * mid >= n as u64 {
            hi = mid;
        } else {
            lo = mid + 1;
        }
    }
    proof {
        lemma_ceil_sqrt_unique(n as nat, lo as nat);
    }
    lo as u32
}

} // verus!
