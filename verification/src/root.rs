//! Integer square roots.

use vstd::prelude::*;

verus! {

/// Whether `root` is the square root of `n`, rounded down.
pub open spec fn is_floor_sqrt(n: nat, root: nat) -> bool {
    root * root <= n < (root + 1) * (root + 1)
}

/// The square root of `n`, rounded down to a whole number.
pub open spec fn floor_sqrt(n: nat) -> nat {
    choose|root: nat| is_floor_sqrt(n, root)
}

/// Only one number is the rounded-down square root of `n`.
pub proof fn lemma_floor_sqrt_unique(n: nat, root: nat)
    requires
        is_floor_sqrt(n, root),
    ensures
        floor_sqrt(n) == root,
{
    let other = floor_sqrt(n);
    assert(is_floor_sqrt(n, other));
    assert(other == root) by (nonlinear_arith)
        requires
            root * root <= n < (root + 1) * (root + 1),
            other * other <= n < (other + 1) * (other + 1),
    ;
}

/// Every number has a rounded-down square root.
pub proof fn lemma_floor_sqrt_exists(n: nat)
    ensures
        is_floor_sqrt(n, floor_sqrt(n)),
    decreases n,
{
    if n == 0 {
        assert(is_floor_sqrt(0, 0)) by (nonlinear_arith);
    } else {
        lemma_floor_sqrt_exists((n - 1) as nat);
        let below = floor_sqrt((n - 1) as nat);
        let root = if (below + 1) * (below + 1) <= n {
            below + 1
        } else {
            below
        };
        assert(is_floor_sqrt(n, root)) by (nonlinear_arith)
            requires
                below * below <= n - 1 < (below + 1) * (below + 1),
                root == if (below + 1) * (below + 1) <= n {
                    below + 1
                } else {
                    below
                },
        ;
    }
}

/// Every square root of a 128-bit number is below this limit.
pub const ROOT_LIMIT: u128 = 0x1_0000_0000_0000_0000;

/// Computes the square root of `n`, rounded down, by bisection between
/// zero and `above`, a number whose square is larger than `n`.
pub fn isqrt_below(n: u128, above: u128) -> (root: u64)
    requires
        above <= ROOT_LIMIT,
        n < above * above,
    ensures
        is_floor_sqrt(n as nat, root as nat),
        root == floor_sqrt(n as nat),
        root < above,
{
    let mut lo: u128 = 0;
    let mut hi: u128 = above;
    assert(lo < hi) by (nonlinear_arith)
        requires
            lo == 0,
            n < hi * hi,
    ;
    while hi - lo > 1
        invariant
            lo < hi <= above <= ROOT_LIMIT,
            lo * lo <= n,
            n < hi * hi,
        decreases hi - lo,
    {
        let mid = lo + (hi - lo) / 2;
        assert(mid * mid <= u128::MAX) by (nonlinear_arith)
            requires
                mid <= 0xFFFF_FFFF_FFFF_FFFF,
        ;
        if mid * mid <= n {
            lo = mid;
        } else {
            hi = mid;
        }
    }
    proof {
        lemma_floor_sqrt_unique(n as nat, lo as nat);
    }
    lo as u64
}

/// Computes the square root of `n`, rounded down.
pub fn isqrt(n: u128) -> (root: u64)
    ensures
        is_floor_sqrt(n as nat, root as nat),
        root == floor_sqrt(n as nat),
{
    isqrt_below(n, ROOT_LIMIT)
}

} // verus!
