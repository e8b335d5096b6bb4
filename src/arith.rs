//! Integer helpers: range checks, truncating division and the integer square root.
use vstd::prelude::*;

verus! {

/// Whether `v` is representable as an `i32`.
pub open spec fn fits_i32(v: int) -> bool {
    i32::MIN <= v <= i32::MAX
}

pub open spec fn abs(v: int) -> int {
    if v < 0 {
        -v
    } else {
        v
    }
}

/// Division of `a` by a positive `m`, rounding toward zero.
pub open spec fn trunc_div(a: int, m: int) -> int {
    if a >= 0 {
        a / m
    } else {
        -((-a) / m)
    }
}

/// The largest `r` with `r * r <= n`.
pub open spec fn isqrt(n: nat) -> nat
    decreases n,
{
    if n == 0 {
        0
    } else {
        let r = isqrt((n - 1) as nat);
        if (r + 1) * (r + 1) <= n {
            r + 1
        } else {
            r
        }
    }
}

proof fn lemma_square_monotonic(a: int, b: int)
    requires
        0 <= a <= b,
    ensures
        a * a <= b * b,
{
    assert(a * a <= b * b) by (nonlinear_arith)
        requires
            0 <= a <= b,
    ;
}

/// `isqrt(n)` is the floor of the square root of `n`.
pub proof fn lemma_isqrt(n: nat)
    ensures
        isqrt(n) * isqrt(n) <= n < (isqrt(n) + 1) * (isqrt(n) + 1),
    decreases n,
{
    if n > 0 {
        lemma_isqrt((n - 1) as nat);
        let r = isqrt((n - 1) as nat) as int;
        let b = (r + 1) * (r + 1);
        let c = (r + 2) * (r + 2);
        assert(b < c) by (nonlinear_arith)
            requires
                r >= 0,
                b == (r + 1) * (r + 1),
                c == (r + 2) * (r + 2),
        ;
        if b <= n {
            assert(isqrt(n) == r + 1);
            assert(n <= b);
            assert(n < c);
            assert(isqrt(n) * isqrt(n) == b);
            assert((isqrt(n) + 1) * (isqrt(n) + 1) == c);
        } else {
            assert(isqrt(n) == r);
            assert((isqrt(n) + 1) * (isqrt(n) + 1) == b);
            assert(isqrt(n) * isqrt(n) <= n);
        }
    } else {
        let s = isqrt(n) as int;
        assert(s == 0);
        assert((s + 1) * (s + 1) == 1) by (nonlinear_arith)
            requires
                s == 0,
        ;
    }
}

/// Only one number has the defining property of the integer square root.
pub proof fn lemma_isqrt_unique(n: nat, r: nat)
    requires
        r * r <= n < (r + 1) * (r + 1),
    ensures
        r == isqrt(n),
{
    lemma_isqrt(n);
    let s = isqrt(n);
    if r < s {
        lemma_square_monotonic(r + 1int, s as int);
    } else if s < r {
        lemma_square_monotonic(s + 1int, r as int);
    }
}

/// The integer square root of `n`, by bisection.
pub fn isqrt_u128(n: u128) -> (r: u128)
    requires
        n <= 0x4_0000_0000_0000_0000u128,
    ensures
        r == isqrt(n as nat),
        r * r <= n < (r + 1) * (r + 1),
        r <= 0x2_0000_0000u128,
{
    let mut lo: u128 = 0;
    let mut hi: u128 = 0x2_0000_0001;
    assert(n < hi * hi) by (nonlinear_arith)
        requires
            n <= 0x4_0000_0000_0000_0000u128,
            hi == 0x2_0000_0001u128,
    ;
    while hi - lo > 1
        invariant
            lo < hi <= 0x2_0000_0001u128,
            lo * lo <= n < hi * hi,
        decreases hi - lo,
    {
        let mid: u128 = lo + (hi - lo) / 2;
        assert(mid * mid <= 0x4_0000_0004_0000_0001u128) by (nonlinear_arith)
            requires
                mid <= 0x2_0000_0001u128,
        ;
        if mid * mid <= n {
            lo = mid;
        } else {
            hi = mid;
        }
    }
    proof {
        lemma_isqrt_unique(n as nat, lo as nat);
        if lo > 0x2_0000_0000u128 {
            lemma_square_monotonic(0x2_0000_0001, lo as int);
        }
    }
    lo
}

/// Division of `a` by a positive `m`, rounding toward zero.
pub fn trunc_div_i128(a: i128, m: i128) -> (r: i128)
    requires
        m > 0,
        abs(a as int) <= 0x4000_0000_0000_0000_0000_0000_0000_0000i128,
    ensures
        r == trunc_div(a as int, m as int),
        abs(r as int) <= abs(a as int),
{
    let x: u128 = if a >= 0 {
        a as u128
    } else {
        (-a) as u128
    };
    let q: u128 = x / (m as u128);
    assert(q <= x) by (nonlinear_arith)
        requires
            q == x / (m as u128),
            m >= 1,
    ;
    if a >= 0 {
        q as i128
    } else {
        -(q as i128)
    }
}

} // verus!
