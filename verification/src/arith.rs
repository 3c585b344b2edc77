//! Integer facts that the fixed-point colour arithmetic rests on.

use vstd::arithmetic::div_mod::lemma_fundamental_div_mod_converse;
use vstd::prelude::*;

verus! {

/// A quotient is pinned by the two multiples of the divisor that enclose
/// the dividend.
pub proof fn lemma_floor_quotient(x: int, d: int, q: int)
    requires
        d > 0,
        q * d <= x < (q + 1) * d,
    ensures
        x / d == q,
        x % d == x - q * d,
{
    assert((q + 1) * d == q * d + d) by (nonlinear_arith);
    lemma_fundamental_div_mod_converse(x, d, q, x - q * d);
}

/// Adding whole multiples of the divisor moves the quotient by as many
/// steps and leaves the remainder alone.
pub proof fn lemma_shift_quotient(x: int, k: int, d: int)
    requires
        d > 0,
    ensures
        (x + k * d) / d == x / d + k,
        (x + k * d) % d == x % d,
{
    let q = x / d;
    let r = x % d;
    assert(x == q * d + r && 0 <= r < d) by (nonlinear_arith)
        requires
            d > 0,
            q == x / d,
            r == x % d,
    ;
    assert(x + k * d == (q + k) * d + r) by (nonlinear_arith)
        requires
            x == q * d + r,
    ;
    lemma_fundamental_div_mod_converse(x + k * d, d, q + k, r);
}

/// Whether `r` is the largest natural whose square does not exceed `n`.
pub open spec fn is_floor_sqrt(n: nat, r: nat) -> bool {
    r * r <= n < (r + 1) * (r + 1)
}

/// The integer square root: the largest `r` whose square does not exceed
/// `n`.
pub open spec fn floor_sqrt(n: nat) -> nat {
    choose|r: nat| is_floor_sqrt(n, r)
}

/// Squaring keeps the order of naturals.
pub proof fn lemma_square_monotonic(a: nat, b: nat)
    by (nonlinear_arith)
    requires
        a <= b,
    ensures
        a * a <= b * b,
{
}

/// Every natural has an integer square root.
pub proof fn lemma_floor_sqrt_exists(n: nat)
    ensures
        exists|r: nat| is_floor_sqrt(n, r),
    decreases n,
{
    if n == 0 {
        assert(is_floor_sqrt(n, 0)) by (nonlinear_arith)
            requires
                n == 0,
        ;
    } else {
        let m = (n - 1) as nat;
        lemma_floor_sqrt_exists(m);
        let r = choose|r: nat| is_floor_sqrt(m, r);
        if n < (r + 1) * (r + 1) {
            assert(is_floor_sqrt(n, r));
        } else {
            let t = r + 1;
            assert(t * t <= n < (t + 1) * (t + 1)) by (nonlinear_arith)
                requires
                    t == r + 1,
                    m < t * t,
                    n == m + 1,
                    n >= t * t,
            ;
            assert(is_floor_sqrt(n, t));
        }
    }
}

/// The only `r` with `r * r <= n < (r + 1) * (r + 1)` is `floor_sqrt(n)`.
pub proof fn lemma_floor_sqrt_unique(n: nat, r: nat)
    requires
        is_floor_sqrt(n, r),
    ensures
        floor_sqrt(n) == r,
{
    let q = floor_sqrt(n);
    if q < r {
        lemma_square_monotonic(q + 1, r);
    } else if r < q {
        lemma_square_monotonic(r + 1, q);
    }
}

/// `floor_sqrt(n)` squared does not exceed `n`, and the next square does.
pub proof fn lemma_floor_sqrt(n: nat)
    ensures
        is_floor_sqrt(n, floor_sqrt(n)),
{
    lemma_floor_sqrt_exists(n);
}

/// Computes the integer square root by bisection.
pub fn isqrt(n: u64) -> (r: u64)
    ensures
        r == floor_sqrt(n as nat),
        r * r <= n < (r + 1) * (r + 1),
{
    let mut lo: u64 = 0;
    let mut hi: u64 = 0x1_0000_0000;
    while hi - lo > 1
        invariant
            lo < hi <= 0x1_0000_0000,
            lo * lo <= n < hi * hi,
        decreases hi - lo,
    {
        let mid: u64 = lo + (hi - lo) / 2;
        assert(mid * mid <= 0xffff_ffff * 0xffff_ffff) by (nonlinear_arith)
            requires
                mid <= 0xffff_ffff,
        ;
        if mid * mid <= n {
            lo = mid;
        } else {
            hi = mid;
        }
    }
    proof {
        lemma_floor_sqrt_unique(n as nat, lo as nat);
    }
    lo
}

} // verus!
