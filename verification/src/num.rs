//! Fixed-point arithmetic base: all geometric and radiometric quantities in
//! this crate are integers scaled by `SCALE` (one world unit or one unit of
//! radiance equals `SCALE`). Division follows the machine's truncating
//! semantics, captured by the spec function `tdiv`.

use vstd::prelude::*;

verus! {

/// One world unit / full radiance channel, in fixed-point ticks.
pub const SCALE: i64 = 1_000_000;

/// Largest magnitude allowed for a position or radius coordinate.
pub const POS_MAX: i64 = 0x40_0000_0000;

/// Largest magnitude allowed for a direction component.
pub const DIR_MAX: i64 = 0x40_0000;

/// Truncating (round-toward-zero) division, the semantics of the machine's
/// `/` on signed integers. Meaningful for `b > 0`.
pub open spec fn tdiv(a: int, b: int) -> int {
    if a >= 0 {
        a / b
    } else {
        -((-a) / b)
    }
}

/// Truncating division never grows magnitude: for `b >= 1`,
/// `tdiv(a, b)` lies between `0` and `a`.
pub proof fn lemma_tdiv_shrinks(a: int, b: int)
    requires
        b >= 1,
    ensures
        a >= 0 ==> 0 <= tdiv(a, b) <= a,
        a <= 0 ==> a <= tdiv(a, b) <= 0,
{
    if a >= 0 {
        vstd::arithmetic::div_mod::lemma_div_is_ordered_by_denominator(a, 1, b);
        vstd::arithmetic::div_mod::lemma_div_by_multiple(a, 1);
        vstd::arithmetic::div_mod::lemma_div_pos_is_pos(a, b);
    } else {
        vstd::arithmetic::div_mod::lemma_div_is_ordered_by_denominator(-a, 1, b);
        vstd::arithmetic::div_mod::lemma_div_by_multiple(-a, 1);
        vstd::arithmetic::div_mod::lemma_div_pos_is_pos(-a, b);
    }
}

/// Truncating division is monotone in the bound of the numerator.
pub proof fn lemma_tdiv_bounded(a: int, b: int, m: int)
    requires
        b >= 1,
        0 <= m,
        -m <= a <= m,
    ensures
        -tdiv(m, b) <= tdiv(a, b) <= tdiv(m, b),
        tdiv(m, b) <= m,
{
    lemma_tdiv_shrinks(a, b);
    lemma_tdiv_shrinks(m, b);
    if a >= 0 {
        vstd::arithmetic::div_mod::lemma_div_is_ordered(a, m, b);
    } else {
        vstd::arithmetic::div_mod::lemma_div_is_ordered(-a, m, b);
    }
}

/// Fixed-point product: multiplies two scaled values and rescales,
/// rounding toward zero.
pub fn mul_fp(a: i64, b: i64) -> (r: i64)
    requires
        -0x4000_0000_0000_0000 <= a * b <= 0x4000_0000_0000_0000,
    ensures
        r == tdiv(a * b, SCALE as int),
{
    proof {
        assert((a as i128) * (b as i128) == a * b) by (nonlinear_arith);
        lemma_tdiv_shrinks(a * b, SCALE as int);
    }
    let p: i128 = (a as i128) * (b as i128);
    let q: i128 = p / (SCALE as i128);
    q as i64
}

/// Upper limit of `isqrt`'s domain.
pub const SQRT_DOM: u128 = 0x4000_0000_0000_0000_0000_0000_0000_0000;

/// The mathematical integer square root: the unique `q >= 0` with
/// `q * q <= n < (q + 1) * (q + 1)`.
pub open spec fn int_sqrt(n: int) -> int {
    choose|q: int| q >= 0 && #[trigger] (q * q) <= n < (q + 1) * (q + 1)
}

/// Any nonnegative integer has an integer square root.
pub proof fn lemma_int_sqrt_exists(n: int)
    requires
        n >= 0,
    ensures
        int_sqrt(n) >= 0,
        int_sqrt(n) * int_sqrt(n) <= n < (int_sqrt(n) + 1) * (int_sqrt(n) + 1),
    decreases n,
{
    if n == 0 {
        let w: int = 0;
        assert(w >= 0 && w * w <= n < (w + 1) * (w + 1)) by (nonlinear_arith)
            requires
                n == 0,
                w == 0,
        ;
    } else {
        lemma_int_sqrt_exists(n - 1);
        let r = int_sqrt(n - 1);
        if (r + 1) * (r + 1) <= n {
            assert(n - 1 < (r + 1) * (r + 1));
            assert((r + 1) * (r + 1) <= n < (r + 2) * (r + 2)) by (nonlinear_arith)
                requires
                    r >= 0,
                    (r + 1) * (r + 1) <= n,
                    n - 1 < (r + 1) * (r + 1),
            ;
        } else {
            assert(r * r <= n < (r + 1) * (r + 1));
        }
    }
    let q = int_sqrt(n);
    assert(q >= 0 && q * q <= n < (q + 1) * (q + 1));
}

/// Only one integer satisfies the square-root characterisation of `n`.
pub proof fn lemma_int_sqrt_unique(n: int, r: int)
    requires
        r >= 0,
        r * r <= n < (r + 1) * (r + 1),
    ensures
        int_sqrt(n) == r,
{
    lemma_int_sqrt_exists(n);
    let s = int_sqrt(n);
    if s < r {
        assert((s + 1) * (s + 1) <= r * r) by (nonlinear_arith)
            requires
                0 <= s,
                s + 1 <= r,
        ;
        assert(false);
    }
    if r < s {
        assert((r + 1) * (r + 1) <= s * s) by (nonlinear_arith)
            requires
                0 <= r,
                r + 1 <= s,
        ;
        assert(false);
    }
}

/// Integer square root: the greatest `r` with `r * r <= n`.
pub fn isqrt(n: u128) -> (r: u64)
    requires
        n < SQRT_DOM,
    ensures
        r * r <= n < (r + 1) * (r + 1),
        r == int_sqrt(n as int),
{
    let mut lo: u128 = 0;
    let mut hi: u128 = 0x8000_0000_0000_0000;
    proof {
        assert(0x8000_0000_0000_0000u128 * 0x8000_0000_0000_0000u128 == SQRT_DOM)
            by (nonlinear_arith);
    }
    while lo + 1 < hi
        invariant
            0 <= lo < hi <= 0x8000_0000_0000_0000u128,
            lo * lo <= n,
            n < hi * hi,
        decreases hi - lo,
    {
        let mid: u128 = lo + (hi - lo) / 2;
        proof {
            assert(mid * mid <= 0x8000_0000_0000_0000u128 * 0x8000_0000_0000_0000u128)
                by (nonlinear_arith)
                requires
                    0 <= mid <= 0x8000_0000_0000_0000u128,
            ;
            assert(0x8000_0000_0000_0000u128 * 0x8000_0000_0000_0000u128 == SQRT_DOM)
                by (nonlinear_arith);
        }
        if mid * mid <= n {
            lo = mid;
        } else {
            hi = mid;
        }
    }
    proof {
        assert(lo * lo <= n < (lo + 1) * (lo + 1));
        lemma_int_sqrt_unique(n as int, lo as int);
    }
    lo as u64
}

} // verus!
