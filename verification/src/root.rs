//! The integer nearest to a square root.

use vstd::prelude::*;

verus! {

/// `m` is the integer nearest to the square root of `n`: `m - 1/2 < sqrt(n) < m + 1/2`.
///
/// Squaring and using that `n` is an integer, `sqrt(n) < m + 1/2` says
/// `n <= m * m + m`, and for positive `m`, `m - 1/2 < sqrt(n)` says
/// `m * m - m < n`. The square root of an integer is never half way between
/// two integers, so no tie has to be broken.
pub open spec fn is_nearest_root(n: nat, m: nat) -> bool {
    &&& n <= m * (m + 1)
    &&& m > 0 ==> (m - 1) * m < n
}

/// The square root of `n`, rounded to the nearest integer.
pub open spec fn nearest_root(n: nat) -> nat {
    choose|m: nat| is_nearest_root(n, m)
}

/// At most one integer is nearest to a square root.
pub proof fn lemma_nearest_root_unique(n: nat, a: nat, b: nat)
    requires
        is_nearest_root(n, a),
        is_nearest_root(n, b),
    ensures
        a == b,
{
    if a < b {
        assert(a * (a + 1) <= (b - 1) * b) by (nonlinear_arith)
            requires
                0 <= a <= b - 1,
        ;
    } else if b < a {
        assert(b * (b + 1) <= (a - 1) * a) by (nonlinear_arith)
            requires
                0 <= b <= a - 1,
        ;
    }
}

/// Every natural number has a nearest root, and [`nearest_root`] is it.
pub proof fn lemma_nearest_root_exists(n: nat)
    ensures
        is_nearest_root(n, nearest_root(n)),
    decreases n,
{
    if n == 0 {
        assert(is_nearest_root(0, 0));
    } else {
        lemma_nearest_root_exists((n - 1) as nat);
        let m = nearest_root((n - 1) as nat);
        if n <= m * (m + 1) {
            assert(is_nearest_root(n, m));
        } else {
            assert((m + 1) * (m + 2) == m * (m + 1) + 2 * m + 2) by (nonlinear_arith);
            assert(is_nearest_root(n, m + 1));
        }
    }
}

/// Whatever integer passes the test of [`is_nearest_root`] is the nearest root.
pub proof fn lemma_nearest_root_is(n: nat, m: nat)
    requires
        is_nearest_root(n, m),
    ensures
        nearest_root(n) == m,
{
    lemma_nearest_root_exists(n);
    lemma_nearest_root_unique(n, m, nearest_root(n));
}

/// Numbers above `254 * 255` have a nearest root of at least 255.
pub proof fn lemma_nearest_root_large(n: nat)
    requires
        n > 254 * 255,
    ensures
        nearest_root(n) >= 255,
{
    lemma_nearest_root_exists(n);
    let m = nearest_root(n);
    if m < 255 {
        assert(m * (m + 1) <= 254 * 255) by (nonlinear_arith)
            requires
                0 <= m <= 254,
        ;
    }
}

/// The nearest root of `n`, capped at 255.
pub open spec fn capped_root(n: nat) -> nat {
    if nearest_root(n) >= 255 {
        255
    } else {
        nearest_root(n)
    }
}

/// Computes the nearest root of `n`, capped at 255, by bisection on `m * (m + 1)`.
pub fn capped_nearest_root(n: u32) -> (m: u8)
    ensures
        m == capped_root(n as nat),
{
    if n > 254 * 255 {
        proof {
            lemma_nearest_root_large(n as nat);
        }
        return 255;
    }
    let mut lo: u32 = 0;
    let mut hi: u32 = 254;
    while lo < hi
        invariant
            lo <= hi <= 254,
            n <= hi * (hi + 1),
            lo > 0 ==> (lo - 1) * lo < n,
        decreases hi - lo,
    {
        let mid: u32 = lo + (hi - lo) / 2;
        assert(mid * (mid + 1) <= 254 * 255) by (nonlinear_arith)
            requires
                0 <= mid <= 254,
        ;
        if n <= mid * (mid + 1) {
            hi = mid;
        } else {
            lo = mid + 1;
        }
    }
    proof {
        lemma_nearest_root_is(n as nat, lo as nat);
    }
    lo as u8
}

} // verus!
