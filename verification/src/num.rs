//! Fixed-point arithmetic: every geometric quantity in this crate is an
//! integer count of `1/SCALE` units.  The helpers here give the exact
//! integer semantics (truncating division, floor square root) that the
//! geometric contracts are stated over.

use vstd::prelude::*;

verus! {

/// Fixed-point scale: a real value `v` is represented by the integer
/// closest to `v * SCALE`.
pub const SCALE: i64 = 65536;

/// Largest magnitude allowed for a scene coordinate (fixed-point units).
pub const COORD_MAX: i64 = 16777216;

/// Floor of the square root of a natural number.
pub open spec fn sqrt_floor(n: nat) -> nat
    decreases n,
{
    if n == 0 {
        0
    } else {
        let r = sqrt_floor((n - 1) as nat);
        if (r + 1) * (r + 1) <= n {
            r + 1
        } else {
            r
        }
    }
}

/// `sqrt_floor(n)` is the unique natural number whose square is at most `n`
/// while the next square exceeds `n`.
pub proof fn lemma_sqrt_floor(n: nat)
    ensures
        sqrt_floor(n) * sqrt_floor(n) <= n,
        n < (sqrt_floor(n) + 1) * (sqrt_floor(n) + 1),
    decreases n,
{
    reveal_with_fuel(sqrt_floor, 2);
    if n == 0 {
        let s = sqrt_floor(n);
        assert(s == 0);
        assert(s * s <= n && n < (s + 1) * (s + 1)) by (nonlinear_arith)
            requires
                n == 0,
                s == 0,
        ;
    } else {
        lemma_sqrt_floor((n - 1) as nat);
        let r = sqrt_floor((n - 1) as nat);
        if (r + 1) * (r + 1) <= n {
            assert(sqrt_floor(n) == r + 1);
            assert(n < (r + 2) * (r + 2)) by (nonlinear_arith)
                requires
                    n <= (r + 1) * (r + 1) + 1,
                    (r + 1) * (r + 1) <= n,
                    r >= 0,
            ;
            assert((sqrt_floor(n) + 1) * (sqrt_floor(n) + 1) == (r + 2) * (r + 2));
        } else {
            assert(sqrt_floor(n) == r);
        }
    }
}

/// A number bracketed by `r * r` and `(r + 1) * (r + 1)` is pinned down:
/// `r` is the floor square root.
pub proof fn lemma_sqrt_floor_unique(n: nat, r: nat)
    requires
        r * r <= n,
        n < (r + 1) * (r + 1),
    ensures
        r == sqrt_floor(n),
{
    lemma_sqrt_floor(n);
    let s = sqrt_floor(n);
    if r < s {
        assert((r + 1) * (r + 1) <= s * s) by (nonlinear_arith)
            requires
                r + 1 <= s,
                r >= 0,
        ;
    }
    if s < r {
        assert((s + 1) * (s + 1) <= r * r) by (nonlinear_arith)
            requires
                s + 1 <= r,
                s >= 0,
        ;
    }
}

/// Division that rounds toward zero, the semantics every fixed-point
/// division in this crate follows.
pub open spec fn tdiv(a: int, b: int) -> int {
    if a >= 0 {
        a / b
    } else {
        -((-a) / b)
    }
}

/// Truncating division keeps magnitudes bounded: if `|a| <= m * b` then
/// `|tdiv(a, b)| <= m`.
pub proof fn lemma_tdiv_le(a: int, b: int, m: int)
    requires
        b > 0,
        m >= 0,
        -(m * b) <= a <= m * b,
    ensures
        -m <= tdiv(a, b) <= m,
{
    if a >= 0 {
        assert(a / b <= m && a / b >= 0) by (nonlinear_arith)
            requires
                b > 0,
                m >= 0,
                0 <= a <= m * b,
        ;
    } else {
        assert((-a) / b <= m && (-a) / b >= 0) by (nonlinear_arith)
            requires
                b > 0,
                m >= 0,
                0 <= -a <= m * b,
        ;
    }
}

/// Truncating division of a non-negative value is non-negative.
pub proof fn lemma_tdiv_nonneg(a: int, b: int)
    requires
        b > 0,
        a >= 0,
    ensures
        tdiv(a, b) >= 0,
        tdiv(a, b) <= a,
{
    assert(a / b >= 0 && a / b <= a) by (nonlinear_arith)
        requires
            b > 0,
            a >= 0,
    ;
}

/// Lower bound for truncating division: `a >= m * b` gives `tdiv(a, b) >= m`.
pub proof fn lemma_tdiv_ge(a: int, b: int, m: int)
    requires
        b > 0,
        m >= 0,
        a >= m * b,
    ensures
        tdiv(a, b) >= m,
{
    assert(a / b >= m) by (nonlinear_arith)
        requires
            b > 0,
            m >= 0,
            a >= m * b,
    ;
}

/// Product bound: factors bounded in magnitude give a bounded product.
pub proof fn lemma_mul_bound(a: int, b: int, m: int, n: int) by (nonlinear_arith)
    requires
        -m <= a <= m,
        -n <= b <= n,
        0 <= m,
        0 <= n,
    ensures
        -(m * n) <= a * b <= m * n,
{
}

/// Floor square root of a 128-bit integer, by bisection.
pub fn isqrt(n: u128) -> (r: u128)
    ensures
        r == sqrt_floor(n as nat),
        r * r <= n,
{
    let mut lo: u128 = 0;
    let mut hi: u128 = 0x1_0000_0000_0000_0000;
    proof {
        assert((n as nat) < (hi as nat) * (hi as nat)) by (nonlinear_arith)
            requires
                hi == 0x1_0000_0000_0000_0000u128,
                n <= u128::MAX,
        ;
    }
    while lo + 1 < hi
        invariant
            lo < hi,
            hi <= 0x1_0000_0000_0000_0000,
            (lo as nat) * (lo as nat) <= n as nat,
            (n as nat) < (hi as nat) * (hi as nat),
        decreases hi - lo,
    {
        let mid: u128 = lo + (hi - lo) / 2;
        proof {
            assert((mid as nat) * (mid as nat) < 0x1_0000_0000_0000_0000u128 as nat * 0x1_0000_0000_0000_0000u128 as nat) by (nonlinear_arith)
                requires
                    mid < 0x1_0000_0000_0000_0000u128,
            ;
        }
        if mid * mid <= n {
            lo = mid;
        } else {
            hi = mid;
        }
    }
    proof {
        lemma_sqrt_floor_unique(n as nat, lo as nat);
    }
    lo
}

/// Division rounding toward zero on 128-bit integers, matching `tdiv`.
pub fn div_trunc(a: i128, b: i128) -> (r: i128)
    requires
        b > 0,
        a > i128::MIN,
    ensures
        r == tdiv(a as int, b as int),
{
    if a >= 0 {
        let q: u128 = (a as u128) / (b as u128);
        q as i128
    } else {
        let m: i128 = -a;
        let q: u128 = (m as u128) / (b as u128);
        proof {
            assert((m as u128) / (b as u128) <= m as u128) by (nonlinear_arith)
                requires
                    (b as u128) >= 1,
            ;
        }
        -(q as i128)
    }
}

} // verus!
