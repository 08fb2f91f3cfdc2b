//! Integer square roots.

use vstd::prelude::*;

verus! {

/// Whether `r` is the square root of `n`, rounded down.
pub open spec fn is_floor_sqrt(n: nat, r: nat) -> bool {
    r * r <= n < (r + 1) * (r + 1)
}

/// The square root of `n`, rounded down to a whole number.
pub open spec fn floor_sqrt(n: nat) -> nat
    decreases n,
{
    if n == 0 {
        0
    } else {
        let r = floor_sqrt((n - 1) as nat);
        if (r + 1) * (r + 1) <= n {
            r + 1
        } else {
            r
        }
    }
}

/// `floor_sqrt(n)` is the square root of `n`, rounded down.
pub proof fn lemma_floor_sqrt_holds(n: nat)
    ensures
        is_floor_sqrt(n, floor_sqrt(n)),
    decreases n,
{
    if n > 0 {
        lemma_floor_sqrt_holds((n - 1) as nat);
        let r = floor_sqrt((n - 1) as nat);
        let next = r + 1;
        assert(r * r <= next * next < (next + 1) * (next + 1)) by (nonlinear_arith)
            requires
                next == r + 1,
        ;
    } else {
        assert(is_floor_sqrt(0, 0)) by (nonlinear_arith);
    }
}

/// Squaring keeps the order of natural numbers.
pub proof fn lemma_square_order(a: nat, b: nat)
    by (nonlinear_arith)
    ensures
        a <= b ==> a * a <= b * b,
        a < b ==> (a + 1) * (a + 1) <= b * b,
{
}

/// No other number is the square root of `n`, rounded down.
pub proof fn lemma_floor_sqrt_unique(n: nat, r: nat)
    requires
        is_floor_sqrt(n, r),
    ensures
        r == floor_sqrt(n),
{
    lemma_floor_sqrt_holds(n);
    let s = floor_sqrt(n);
    lemma_square_order(r, s);
    lemma_square_order(s, r);
}

/// A larger number has no smaller root.
pub proof fn lemma_floor_sqrt_monotone(a: nat, b: nat)
    requires
        a <= b,
    ensures
        floor_sqrt(a) <= floor_sqrt(b),
{
    lemma_floor_sqrt_holds(a);
    lemma_floor_sqrt_holds(b);
    lemma_square_order(floor_sqrt(b), floor_sqrt(a));
}

/// The square root of `n`, rounded down to a whole number.
pub fn sqrt(n: u128) -> (r: u64)
    ensures
        r == floor_sqrt(n as nat),
        is_floor_sqrt(n as nat, r as nat),
{
    let mut lo: u128 = 0;
    let mut hi: u128 = 0x1_0000_0000_0000_0000;
    assert(0x1_0000_0000_0000_0000int * 0x1_0000_0000_0000_0000int > u128::MAX) by (nonlinear_arith);
    while hi - lo > 1
        invariant
            lo < hi <= 0x1_0000_0000_0000_0000,
            lo * lo <= n < hi * hi,
        decreases hi - lo,
    {
        let mid: u128 = lo + (hi - lo) / 2;
        assert(mid * mid <= 0xffff_ffff_ffff_ffff * 0xffff_ffff_ffff_ffff) by (nonlinear_arith)
            requires
                mid <= 0xffff_ffff_ffff_ffff,
        ;
        if mid * mid <= n {
            lo = mid;
        } else {
            hi = mid;
        }
    }
    proof {
        assert(hi == lo + 1);
        lemma_floor_sqrt_unique(n as nat, lo as nat);
    }
    lo as u64
}

} // verus!
