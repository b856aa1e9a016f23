//! Fixed-point numeric kernel: the micro-unit scale, truncating division,
//! integer square root and integer fifth root (used for gamma correction).

use vstd::prelude::*;
use vstd::arithmetic::div_mod::{lemma_div_nonincreasing, lemma_div_pos_is_pos};

verus! {

/// One world unit in the micro fixed-point scale.
pub const ONE: i64 = 1_000_000;

/// Magnitude of an integer.
pub open spec fn abs1(a: int) -> int {
    if a >= 0 {
        a
    } else {
        -a
    }
}

/// Truncating signed division (round toward zero), the semantics of Rust's
/// `/` on signed integers. In spec arithmetic `/` is Euclidean, so the two
/// differ on negative dividends; every contract in this crate that divides a
/// possibly negative quantity is stated with this function.
pub open spec fn tdiv(a: int, b: int) -> int {
    if a >= 0 {
        a / b
    } else {
        -((-a) / b)
    }
}

/// Truncating division of an `i64` by a positive divisor, with its exact
/// value as the contract.
pub fn tdiv64(a: i64, b: i64) -> (q: i64)
    requires
        1 <= b,
    ensures
        q as int == tdiv(a as int, b as int),
        abs1(q as int) <= abs1(a as int),
{
    proof {
        if a >= 0 {
            lemma_div_pos_is_pos(a as int, b as int);
            lemma_div_nonincreasing(a as int, b as int);
        } else {
            lemma_div_pos_is_pos(-(a as int), b as int);
            lemma_div_nonincreasing(-(a as int), b as int);
        }
    }
    a / b
}

/// If `|a| <= b * c` then the truncated quotient `a / b` has magnitude at
/// most `c`.
pub proof fn lemma_tdiv_abs_le(a: int, b: int, c: int)
    requires
        1 <= b,
        0 <= c,
        abs1(a) <= b * c,
    ensures
        abs1(tdiv(a, b)) <= c,
{
    let m = abs1(a);
    lemma_div_pos_is_pos(m, b);
    vstd::arithmetic::div_mod::lemma_div_is_ordered(m, b * c, b);
    vstd::arithmetic::div_mod::lemma_div_multiples_vanish(c, b);
}

/// A nonnegative dividend below `amax` divides to a quotient below
/// `amax / b`.
pub proof fn lemma_div_le_bound(a: int, amax: int, b: int)
    requires
        0 <= a,
        a <= amax,
        1 <= b,
    ensures
        0 <= a / b,
        a / b <= amax / b,
{
    lemma_div_pos_is_pos(a, b);
    vstd::arithmetic::div_mod::lemma_div_is_ordered(a, amax, b);
}

/// Floor of the real square root, as a predicate.
pub open spec fn is_sqrt_floor(n: int, r: int) -> bool {
    0 <= r && r * r <= n && n < (r + 1) * (r + 1)
}

/// The floor of the square root of `n` (meaningful for `n >= 0`).
pub open spec fn sqrt_floor(n: int) -> int {
    choose|r: int| is_sqrt_floor(n, r)
}

/// The square-root predicate pins a unique witness, so any witness is
/// `sqrt_floor`.
pub proof fn lemma_sqrt_floor_is(n: int, r: int)
    requires
        is_sqrt_floor(n, r),
    ensures
        sqrt_floor(n) == r,
{
    let s = sqrt_floor(n);
    assert(is_sqrt_floor(n, s));
    if s < r {
        assert((s + 1) * (s + 1) <= r * r) by (nonlinear_arith)
            requires
                0 <= s,
                s + 1 <= r,
        ;
        assert(false);
    }
    if r < s {
        assert((r + 1) * (r + 1) <= s * s) by (nonlinear_arith)
            requires
                0 <= r,
                r + 1 <= s,
        ;
        assert(false);
    }
}

/// Every nonnegative integer has a square-root floor, so `sqrt_floor` is
/// well defined on all of them.
pub proof fn lemma_sqrt_floor_exists(n: int)
    requires
        0 <= n,
    ensures
        is_sqrt_floor(n, sqrt_floor(n)),
    decreases n,
{
    if n == 0 {
        assert(is_sqrt_floor(0, 0));
    } else {
        lemma_sqrt_floor_exists(n - 1);
        let r = sqrt_floor(n - 1);
        if n < (r + 1) * (r + 1) {
            assert(is_sqrt_floor(n, r));
        } else {
            assert(n == (r + 1) * (r + 1));
            assert((r + 1) * (r + 1) < (r + 2) * (r + 2)) by (nonlinear_arith)
                requires
                    0 <= r,
            ;
            assert(is_sqrt_floor(n, r + 1));
        }
    }
}

/// Integer square root by bisection.
pub fn isqrt(n: u64) -> (r: u64)
    ensures
        is_sqrt_floor(n as int, r as int),
        r as int == sqrt_floor(n as int),
        r < 4_294_967_296,
{
    let mut lo: u64 = 0;
    let mut hi: u64 = 4_294_967_296;
    while lo + 1 < hi
        invariant
            lo < hi,
            hi <= 4_294_967_296,
            lo * lo <= n,
            n < hi * hi,
        decreases hi - lo,
    {
        let mid: u64 = lo + (hi - lo) / 2;
        proof {
            assert(mid < hi);
            assert((mid as int) * (mid as int) <= 18446744065119617025) by (nonlinear_arith)
                requires
                    0 <= (mid as int) <= 4294967295,
            ;
        }
        if mid * mid <= n {
            lo = mid;
        } else {
            hi = mid;
        }
    }
    proof {
        lemma_sqrt_floor_is(n as int, lo as int);
    }
    lo
}

/// Fifth power.
pub open spec fn pow5(x: int) -> int {
    x * x * x * x * x
}

/// Floor of the real fifth root, as a predicate.
pub open spec fn is_root5_floor(n: int, r: int) -> bool {
    0 <= r && pow5(r) <= n && n < pow5(r + 1)
}

/// The floor of the fifth root of `n` (meaningful for `n >= 0`).
pub open spec fn root5_floor(n: int) -> int {
    choose|r: int| is_root5_floor(n, r)
}

/// The fifth-root predicate pins a unique witness, so any witness is
/// `root5_floor`.
pub proof fn lemma_root5_floor_is(n: int, r: int)
    requires
        is_root5_floor(n, r),
    ensures
        root5_floor(n) == r,
{
    let s = root5_floor(n);
    assert(is_root5_floor(n, s));
    if s < r {
        assert((s + 1) * (s + 1) * (s + 1) * (s + 1) * (s + 1) <= r * r * r * r * r)
            by (nonlinear_arith)
            requires
                0 <= s,
                s + 1 <= r,
        ;
        assert(false);
    }
    if r < s {
        assert((r + 1) * (r + 1) * (r + 1) * (r + 1) * (r + 1) <= s * s * s * s * s)
            by (nonlinear_arith)
            requires
                0 <= r,
                r + 1 <= s,
        ;
        assert(false);
    }
}

/// Integer fifth root by bisection, for arguments up to `10^30` (the largest
/// gamma-correction operand: a micro-unit intensity to the fourth power,
/// rescaled by `ONE`).
pub fn root5(n: u128) -> (r: u64)
    requires
        n <= 1_000_000_000_000_000_000_000_000_000_000,
    ensures
        is_root5_floor(n as int, r as int),
        r as int == root5_floor(n as int),
        r <= 1_000_000,
{
    let mut lo: u64 = 0;
    let mut hi: u64 = 1_000_001;
    while lo + 1 < hi
        invariant
            lo < hi,
            hi <= 1_000_001,
            pow5(lo as int) <= n,
            (n as int) < pow5(hi as int),
        decreases hi - lo,
    {
        let mid: u64 = lo + (hi - lo) / 2;
        proof {
            assert(mid < hi);
        }
        let m: u128 = mid as u128;
        proof {
            assert((m as int) * (m as int) <= 1_000_000_000_000) by (nonlinear_arith)
                requires
                    0 <= (m as int) <= 1_000_000,
            ;
        }
        let m2: u128 = m * m;
        proof {
            assert((m2 as int) * (m2 as int) <= 1_000_000_000_000_000_000_000_000)
                by (nonlinear_arith)
                requires
                    0 <= (m2 as int) <= 1_000_000_000_000,
            ;
        }
        let m4: u128 = m2 * m2;
        proof {
            assert((m4 as int) * (m as int) <= 1_000_000_000_000_000_000_000_000_000_000)
                by (nonlinear_arith)
                requires
                    0 <= (m4 as int) <= 1_000_000_000_000_000_000_000_000,
                    0 <= (m as int) <= 1_000_000,
            ;
        }
        let m5: u128 = m4 * m;
        proof {
            let z = mid as int;
            assert((m5 as int) == z * z * z * z * z) by (nonlinear_arith)
                requires
                    (m2 as int) == z * z,
                    (m4 as int) == (m2 as int) * (m2 as int),
                    (m5 as int) == (m4 as int) * z,
            ;
            assert((m5 as int) == pow5(z));
        }
        if m5 <= n {
            lo = mid;
        } else {
            hi = mid;
        }
    }
    proof {
        lemma_root5_floor_is(n as int, lo as int);
    }
    lo
}

} // verus!
