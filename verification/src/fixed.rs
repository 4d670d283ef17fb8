//! Fixed-point scalar arithmetic: truncating division and integer square
//! roots, with exact specifications.
//!
//! A fixed-point value is an `i64` counting thousandths of a world unit.
//! Scaling a value by a ratio `m / d` is done as `(v * m) / d` with the
//! division truncated toward zero; `tdiv` is the specification of that
//! rounding and `div_fix` the executable form.

use vstd::prelude::*;
use vstd::arithmetic::div_mod::{
    lemma_div_of0, lemma_div_pos_is_pos, lemma_fundamental_div_mod, lemma_div_nonincreasing,
};

verus! {

/// Fixed-point sub-units per world unit: all coordinates, speeds and
/// weights are stored in thousandths.
pub const FIX_ONE: i64 = 1000;

/// Division rounded toward zero (Rust's `/` on machine integers), defined
/// over mathematical integers for a positive divisor.
pub open spec fn tdiv(a: int, b: int) -> int
    recommends
        b >= 1,
{
    if a >= 0 {
        a / b
    } else {
        -((-a) / b)
    }
}

/// `tdiv(a, b) * b` never overshoots `a` and lands within `b` of it:
/// truncation shrinks the magnitude, and by less than one divisor.
pub proof fn lemma_tdiv_mag(a: int, b: int)
    requires
        b >= 1,
    ensures
        a >= 0 ==> 0 <= tdiv(a, b) * b <= a && a - b < tdiv(a, b) * b,
        a < 0 ==> a <= tdiv(a, b) * b <= 0 && tdiv(a, b) * b < a + b,
{
    if a >= 0 {
        let q: int = a / b;
        lemma_fundamental_div_mod(a, b);
        lemma_div_pos_is_pos(a, b);
        assert(a == b * q + a % b);
        assert(b * q == q * b) by (nonlinear_arith);
        assert(q * b >= 0) by (nonlinear_arith)
            requires
                q >= 0,
                b >= 1,
        ;
        assert(tdiv(a, b) * b == q * b);
    } else {
        let q: int = (-a) / b;
        lemma_fundamental_div_mod(-a, b);
        lemma_div_pos_is_pos(-a, b);
        assert(-a == b * q + (-a) % b);
        assert(b * q == q * b) by (nonlinear_arith);
        assert(q * b >= 0) by (nonlinear_arith)
            requires
                q >= 0,
                b >= 1,
        ;
        assert((-q) * b == -(q * b)) by (nonlinear_arith);
        assert(tdiv(a, b) * b == (-q) * b);
    }
}

/// If `|a| <= b * c` then `|tdiv(a, b)| <= c`.
pub proof fn lemma_tdiv_le(a: int, b: int, c: int)
    requires
        b >= 1,
        -(b * c) <= a <= b * c,
    ensures
        -c <= tdiv(a, b) <= c,
{
    lemma_tdiv_mag(a, b);
    assert(-c <= tdiv(a, b) <= c) by (nonlinear_arith)
        requires
            b >= 1,
            -(b * c) <= a <= b * c,
            a >= 0 ==> 0 <= tdiv(a, b) * b <= a,
            a < 0 ==> a <= tdiv(a, b) * b <= 0,
    ;
}

/// Truncating division keeps the dividend's sign (or yields zero).
pub proof fn lemma_tdiv_sign(a: int, b: int)
    requires
        b >= 1,
    ensures
        a >= 0 ==> tdiv(a, b) >= 0,
        a <= 0 ==> tdiv(a, b) <= 0,
{
    lemma_tdiv_mag(a, b);
    assert((a >= 0 ==> tdiv(a, b) >= 0) && (a <= 0 ==> tdiv(a, b) <= 0)) by (nonlinear_arith)
        requires
            b >= 1,
            a >= 0 ==> 0 <= tdiv(a, b) * b,
            a < 0 ==> tdiv(a, b) * b <= 0,
    ;
}

/// Executable truncating division for a positive divisor.
pub fn div_fix(a: i64, b: i64) -> (r: i64)
    requires
        b >= 1,
    ensures
        r as int == tdiv(a as int, b as int),
{
    proof {
        let x: int = a as int;
        let d: int = b as int;
        if x > 0 {
            lemma_div_pos_is_pos(x, d);
            lemma_div_nonincreasing(x, d);
        } else if x == 0 {
            lemma_div_of0(d);
        } else {
            lemma_div_pos_is_pos(-x, d);
            lemma_div_nonincreasing(-x, d);
        }
    }
    match a.checked_div(b) {
        Some(q) => q,
        None => {
            proof {
                assert(false);
            }
            0
        },
    }
}

/// Floor of the square root, defined by counting up.
pub open spec fn sqrt_floor(n: int) -> int
    decreases n,
{
    if n <= 0 {
        0
    } else {
        let p: int = sqrt_floor(n - 1);
        if (p + 1) * (p + 1) <= n {
            p + 1
        } else {
            p
        }
    }
}

/// `sqrt_floor(n)` is the unique `r >= 0` with `r^2 <= n < (r+1)^2`.
pub proof fn lemma_sqrt_floor(n: int)
    requires
        n >= 0,
    ensures
        0 <= sqrt_floor(n),
        sqrt_floor(n) * sqrt_floor(n) <= n,
        n < (sqrt_floor(n) + 1) * (sqrt_floor(n) + 1),
    decreases n,
{
    if n == 0 {
    } else {
        lemma_sqrt_floor(n - 1);
        let p: int = sqrt_floor(n - 1);
        if (p + 1) * (p + 1) <= n {
            assert(n - 1 < (p + 1) * (p + 1));
            assert(n < (p + 2) * (p + 2)) by (nonlinear_arith)
                requires
                    p >= 0,
                    n <= (p + 1) * (p + 1),
            ;
        }
    }
}

/// Two integers that both satisfy the floor-square-root property of `n`
/// are equal.
pub proof fn lemma_sqrt_floor_unique(n: int, r: int)
    requires
        0 <= r,
        r * r <= n,
        n < (r + 1) * (r + 1),
    ensures
        r == sqrt_floor(n),
{
    lemma_sqrt_floor(n);
    let s: int = sqrt_floor(n);
    assert(r == s) by (nonlinear_arith)
        requires
            0 <= r,
            0 <= s,
            r * r <= n,
            s * s <= n,
            n < (r + 1) * (r + 1),
            n < (s + 1) * (s + 1),
    ;
}

/// Ceiling of the square root, derived from the floor.
pub open spec fn sqrt_ceil(n: int) -> int {
    if sqrt_floor(n) * sqrt_floor(n) == n {
        sqrt_floor(n)
    } else {
        sqrt_floor(n) + 1
    }
}

/// For `n >= 1`, `sqrt_ceil(n)` is at least 1 and squares to at least `n`,
/// while `(sqrt_ceil(n) - 1)^2` stays below `n`.
pub proof fn lemma_sqrt_ceil(n: int)
    requires
        n >= 1,
    ensures
        1 <= sqrt_ceil(n),
        n <= sqrt_ceil(n) * sqrt_ceil(n),
        (sqrt_ceil(n) - 1) * (sqrt_ceil(n) - 1) < n,
{
    lemma_sqrt_floor(n);
    let p: int = sqrt_floor(n);
    if p * p == n {
        assert((p - 1) * (p - 1) < p * p) by (nonlinear_arith)
            requires
                p >= 1,
        ;
    }
}

/// Executable floor square root by binary search.
pub fn isqrt64(n: u64) -> (r: u64)
    requires
        n <= 0x7fff_ffff_ffff_ffff,
    ensures
        r as int == sqrt_floor(n as int),
        r <= 3_037_000_499,
{
    let mut lo: u64 = 0;
    let mut hi: u64 = 3_037_000_499;
    proof {
        assert(3_037_000_500int * 3_037_000_500int == 9_223_372_037_000_250_000int);
    }
    while lo < hi
        invariant
            lo <= hi,
            hi <= 3_037_000_499,
            n <= 0x7fff_ffff_ffff_ffff,
            lo * lo <= n as int,
            (n as int) < (hi + 1) * (hi + 1),
        decreases hi - lo,
    {
        let mid: u64 = lo + (hi - lo + 1) / 2;
        assert(lo < mid <= hi);
        proof {
            assert(mid * mid <= 3_037_000_499int * 3_037_000_499int) by (nonlinear_arith)
                requires
                    0 <= mid <= 3_037_000_499,
            ;
        }
        if mid * mid <= n {
            lo = mid;
        } else {
            hi = mid - 1;
        }
    }
    proof {
        lemma_sqrt_floor_unique(n as int, lo as int);
    }
    lo
}


/// Executable truncating division for a positive divisor, on `i128`
/// intermediates.
pub fn div_fix128(a: i128, b: i128) -> (r: i128)
    requires
        b >= 1,
    ensures
        r as int == tdiv(a as int, b as int),
{
    proof {
        let x: int = a as int;
        let d: int = b as int;
        if x > 0 {
            lemma_div_pos_is_pos(x, d);
            lemma_div_nonincreasing(x, d);
        } else if x == 0 {
            lemma_div_of0(d);
        } else {
            lemma_div_pos_is_pos(-x, d);
            lemma_div_nonincreasing(-x, d);
        }
    }
    match a.checked_div(b) {
        Some(q) => q,
        None => {
            proof {
                assert(false);
            }
            0
        },
    }
}

/// Executable floor square root on `u128`, by binary search.
pub fn isqrt128(n: u128) -> (r: u128)
    ensures
        r as int == sqrt_floor(n as int),
        r <= 0xffff_ffff_ffff_ffff,
{
    let mut lo: u128 = 0;
    let mut hi: u128 = 0xffff_ffff_ffff_ffff;
    proof {
        assert(0x1_0000_0000_0000_0000int * 0x1_0000_0000_0000_0000int
            == 0x1_0000_0000_0000_0000_0000_0000_0000_0000int);
    }
    while lo < hi
        invariant
            lo <= hi,
            hi <= 0xffff_ffff_ffff_ffff,
            lo * lo <= n as int,
            (n as int) < (hi + 1) * (hi + 1),
        decreases hi - lo,
    {
        let mid: u128 = lo + (hi - lo + 1) / 2;
        assert(lo < mid <= hi);
        proof {
            assert(mid * mid <= 0xffff_ffff_ffff_ffffint * 0xffff_ffff_ffff_ffffint)
                by (nonlinear_arith)
                requires
                    0 <= mid <= 0xffff_ffff_ffff_ffff,
            ;
        }
        if mid * mid <= n {
            lo = mid;
        } else {
            hi = mid - 1;
        }
    }
    proof {
        lemma_sqrt_floor_unique(n as int, lo as int);
    }
    lo
}

/// Clamp a scalar into `[lo, hi]`; callers keep `lo <= hi`.
pub fn clamp_fix(v: i64, lo: i64, hi: i64) -> (r: i64)
    requires
        lo <= hi,
    ensures
        r as int == clamp_spec(v as int, lo as int, hi as int),
{
    if v < lo {
        lo
    } else if v > hi {
        hi
    } else {
        v
    }
}

/// Specification of scalar clamping.
pub open spec fn clamp_spec(v: int, lo: int, hi: int) -> int
    recommends
        lo <= hi,
{
    if v < lo {
        lo
    } else if v > hi {
        hi
    } else {
        v
    }
}

} // verus!
