//! Fixed-point 2D vectors and the exact integer semantics of the vector
//! operations the simulation uses: squared norm, normalization, rescaling
//! to a target length, and length clamping.
//!
//! Every executable operation is specified componentwise over mathematical
//! integer pairs (the view of a vector), so callers reason about exact
//! values.  Divisions by a vector's length use the ceiling of the integer
//! square root: dividing by the rounded-up length can only shrink a
//! vector, which is what makes the clamping bounds below exact.  Where a
//! shortfall also matters — the speed floor — the length is measured at a
//! million-fold amplification (the fine unit direction), so the result
//! reaches its target up to a few units whatever the input's magnitude.

use vstd::prelude::*;
use crate::fixed::{
    tdiv, div_fix, div_fix128, sqrt_floor, sqrt_ceil, lemma_sqrt_ceil, lemma_sqrt_floor_unique,
    isqrt64, isqrt128, lemma_tdiv_mag, lemma_tdiv_le, lemma_tdiv_sign, FIX_ONE,
};
use vstd::math::abs;

verus! {

/// Largest coordinate magnitude the vector routines accept: with both
/// components at most 2 * 10^9 in magnitude, a squared norm still fits in
/// an `i64`.
pub const COORD_LIMIT: i64 = 2_000_000_000;

/// A 2D vector in fixed-point world coordinates (thousandths of a unit).
#[derive(Clone, Copy, PartialEq, Eq, Structural, Debug)]
pub struct Vec2Fix {
    pub x: i64,
    pub y: i64,
}

impl View for Vec2Fix {
    type V = (int, int);

    open spec fn view(&self) -> (int, int) {
        (self.x as int, self.y as int)
    }
}

/// Both components lie in `[-lim, lim]`.
pub open spec fn in_lim(p: (int, int), lim: int) -> bool {
    -lim <= p.0 <= lim && -lim <= p.1 <= lim
}

/// Squared Euclidean norm.
pub open spec fn nsq2(p: (int, int)) -> int {
    p.0 * p.0 + p.1 * p.1
}

/// Componentwise sum.
pub open spec fn add2(a: (int, int), b: (int, int)) -> (int, int) {
    (a.0 + b.0, a.1 + b.1)
}

/// Componentwise difference.
pub open spec fn sub2(a: (int, int), b: (int, int)) -> (int, int) {
    (a.0 - b.0, a.1 - b.1)
}

/// Scale by the ratio `m / d`, each component truncated toward zero.
pub open spec fn scale_div2(p: (int, int), m: int, d: int) -> (int, int)
    recommends
        d >= 1,
{
    (tdiv(p.0 * m, d), tdiv(p.1 * m, d))
}

/// Rounded-up length: the ceiling of the square root of the squared norm.
pub open spec fn len_up2(p: (int, int)) -> int {
    sqrt_ceil(nsq2(p))
}

/// Unit vector scaled to `FIX_ONE`, or zero for the zero vector.
pub open spec fn norm2(p: (int, int)) -> (int, int) {
    if nsq2(p) == 0 {
        (0, 0)
    } else {
        scale_div2(p, FIX_ONE as int, len_up2(p))
    }
}

/// The vector, shortened to length `m` if it is longer than `m`.
pub open spec fn clamp_len2(p: (int, int), m: int) -> (int, int) {
    if nsq2(p) <= m * m {
        p
    } else {
        scale_div2(p, m, len_up2(p))
    }
}

/// A squared norm is never negative, and bounds each component's square.
pub proof fn lemma_nsq_nonneg(p: (int, int))
    ensures
        nsq2(p) >= 0,
        p.0 * p.0 <= nsq2(p),
        p.1 * p.1 <= nsq2(p),
{
    assert(p.0 * p.0 >= 0) by (nonlinear_arith);
    assert(p.1 * p.1 >= 0) by (nonlinear_arith);
}

/// If the squared norm is bounded by `c^2` with `c >= 0`, each component's
/// magnitude is bounded by `c`.
pub proof fn lemma_nsq_comp_bound(p: (int, int), c: int)
    requires
        nsq2(p) <= c * c,
        c >= 0,
    ensures
        -c <= p.0 <= c,
        -c <= p.1 <= c,
{
    lemma_nsq_nonneg(p);
    assert(-c <= p.0 <= c && -c <= p.1 <= c) by (nonlinear_arith)
        requires
            p.0 * p.0 <= c * c,
            p.1 * p.1 <= c * c,
            c >= 0,
    ;
}


/// Scaling by `m / d` multiplies the squared norm by at most `(m / d)^2`:
/// the product form of the shrink bound.
pub proof fn lemma_scale_div_norm_gen(p: (int, int), m: int, d: int)
    requires
        d >= 1,
    ensures
        nsq2(scale_div2(p, m, d)) * (d * d) <= nsq2(p) * (m * m),
{
    let a0: int = p.0 * m;
    let a1: int = p.1 * m;
    let q0: int = tdiv(a0, d);
    let q1: int = tdiv(a1, d);
    lemma_tdiv_mag(a0, d);
    lemma_tdiv_mag(a1, d);
    assert((q0 * d) * (q0 * d) <= a0 * a0) by (nonlinear_arith)
        requires
            a0 >= 0 ==> 0 <= q0 * d <= a0,
            a0 < 0 ==> a0 <= q0 * d <= 0,
    ;
    assert((q1 * d) * (q1 * d) <= a1 * a1) by (nonlinear_arith)
        requires
            a1 >= 0 ==> 0 <= q1 * d <= a1,
            a1 < 0 ==> a1 <= q1 * d <= 0,
    ;
    assert((q0 * d) * (q0 * d) == (q0 * q0) * (d * d)) by (nonlinear_arith);
    assert((q1 * d) * (q1 * d) == (q1 * q1) * (d * d)) by (nonlinear_arith);
    assert((p.0 * m) * (p.0 * m) == (p.0 * p.0) * (m * m)) by (nonlinear_arith);
    assert((p.1 * m) * (p.1 * m) == (p.1 * p.1) * (m * m)) by (nonlinear_arith);
    assert((q0 * q0 + q1 * q1) * (d * d) == (q0 * q0) * (d * d) + (q1 * q1) * (d * d))
        by (nonlinear_arith);
    assert((p.0 * p.0 + p.1 * p.1) * (m * m) == (p.0 * p.0) * (m * m) + (p.1 * p.1) * (m * m))
        by (nonlinear_arith);
}

/// Scaling by `m / d` with `d` at least the vector's rounded-up length
/// cannot make the vector longer than `|m|`: dividing by an overestimate
/// of the length only shrinks.  This single fact carries the steering
/// clamp, the speed ceiling and the spawn-jitter bound.
pub proof fn lemma_scale_div_norm(p: (int, int), m: int, d: int)
    requires
        d >= 1,
        nsq2(p) <= d * d,
    ensures
        nsq2(scale_div2(p, m, d)) <= m * m,
{
    lemma_scale_div_norm_gen(p, m, d);
    let q: (int, int) = scale_div2(p, m, d);
    assert(nsq2(p) * (m * m) <= (d * d) * (m * m)) by (nonlinear_arith)
        requires
            nsq2(p) <= d * d,
    ;
    assert(nsq2(q) <= m * m) by (nonlinear_arith)
        requires
            nsq2(q) * (d * d) <= (d * d) * (m * m),
            d >= 1,
    ;
}

/// Scaling the zero vector gives the zero vector.
pub proof fn lemma_scale_div_zero(m: int, d: int)
    requires
        d >= 1,
    ensures
        scale_div2((0, 0), m, d) == (0int, 0int),
{
    vstd::arithmetic::div_mod::lemma_div_of0(d);
}

impl Vec2Fix {
    /// The zero vector.
    pub fn zero() -> (r: Vec2Fix)
        ensures
            r@ == (0int, 0int),
    {
        Vec2Fix { x: 0, y: 0 }
    }

    /// Build a vector from fixed-point components.
    pub fn new(x: i64, y: i64) -> (r: Vec2Fix)
        ensures
            r@ == (x as int, y as int),
    {
        Vec2Fix { x, y }
    }

    /// Componentwise sum.
    pub fn plus(self, o: Vec2Fix) -> (r: Vec2Fix)
        requires
            i64::MIN <= self.x + o.x <= i64::MAX,
            i64::MIN <= self.y + o.y <= i64::MAX,
        ensures
            r@ == add2(self@, o@),
    {
        Vec2Fix { x: self.x + o.x, y: self.y + o.y }
    }

    /// Componentwise difference.
    pub fn minus(self, o: Vec2Fix) -> (r: Vec2Fix)
        requires
            i64::MIN <= self.x - o.x <= i64::MAX,
            i64::MIN <= self.y - o.y <= i64::MAX,
        ensures
            r@ == sub2(self@, o@),
    {
        Vec2Fix { x: self.x - o.x, y: self.y - o.y }
    }

    /// Squared norm, exact.
    pub fn norm_sq(self) -> (r: i64)
        requires
            in_lim(self@, COORD_LIMIT as int),
        ensures
            r as int == nsq2(self@),
            r >= 0,
    {
        proof {
            lemma_nsq_nonneg(self@);
            assert(self.x * self.x <= 2_000_000_000int * 2_000_000_000int && self.y * self.y
                <= 2_000_000_000int * 2_000_000_000int) by (nonlinear_arith)
                requires
                    -2_000_000_000 <= self.x <= 2_000_000_000,
                    -2_000_000_000 <= self.y <= 2_000_000_000,
            ;
        }
        self.x * self.x + self.y * self.y
    }

    /// Rounded-up length: the ceiling of the square root of the squared
    /// norm.
    pub fn len_up(self) -> (r: i64)
        requires
            in_lim(self@, COORD_LIMIT as int),
        ensures
            r as int == len_up2(self@),
            0 <= r <= 3_037_000_500,
            nsq2(self@) == 0 ==> r == 0,
            nsq2(self@) >= 1 ==> 1 <= r && nsq2(self@) <= r * r,
    {
        let ns: i64 = self.norm_sq();
        let fl: u64 = isqrt64(ns as u64);
        proof {
            if ns as int >= 1 {
                lemma_sqrt_ceil(ns as int);
            } else {
                lemma_sqrt_floor_unique(0, 0);
            }
        }
        let fli: i64 = fl as i64;
        if fli * fli == ns {
            fli
        } else {
            fli + 1
        }
    }

    /// The vector rescaled to length `s` through the fine unit direction
    /// (zero stays zero): never longer than `s`, and at least `s - 10`
    /// long once `s` reaches 10 (see [`lemma_rescale_fine`]).
    pub fn rescale_fine(self, s: i64) -> (r: Vec2Fix)
        requires
            in_lim(self@, FINE_LIMIT as int),
            0 <= s <= DIR_SCALE,
        ensures
            r@ == rescale_fine2(self@, s as int),
    {
        let sx: i128 = self.x as i128;
        let sy: i128 = self.y as i128;
        proof {
            assert(sx * sx + sy * sy <= 2 * (2_100_000_000_000int * 2_100_000_000_000int)
                && sx * sx >= 0 && sy * sy >= 0) by (nonlinear_arith)
                requires
                    -2_100_000_000_000 <= sx <= 2_100_000_000_000,
                    -2_100_000_000_000 <= sy <= 2_100_000_000_000,
            ;
        }
        let nn: i128 = sx * sx + sy * sy;
        if nn == 0 {
            proof {
                lemma_nsq_nonneg(self@);
            }
            Vec2Fix { x: 0, y: 0 }
        } else {
            let scsq: i128 = (DIR_SCALE as i128) * (DIR_SCALE as i128);
            let amp: u128 = (nn as u128) * (scsq as u128);
            let fl: u128 = isqrt128(amp);
            proof {
                assert(fl * fl <= 0xffff_ffff_ffff_ffffint * 0xffff_ffff_ffff_ffffint)
                    by (nonlinear_arith)
                    requires
                        0 <= fl <= 0xffff_ffff_ffff_ffff,
                ;
            }
            let l3: i128 = if fl * fl == amp {
                fl as i128
            } else {
                (fl + 1) as i128
            };
            proof {
                crate::fixed::lemma_sqrt_floor(amp as int);
                assert(l3 as int == len_fine2(self@));
                lemma_unit_fine(self@);
            }
            let ux: i64 = div_fix128(sx * scsq, l3) as i64;
            let uy: i64 = div_fix128(sy * scsq, l3) as i64;
            proof {
                assert((ux as int, uy as int) == unit_fine2(self@));
                assert(-(1_000_000int * 1_000_000int) <= ux * s <= 1_000_000int * 1_000_000int
                    && -(1_000_000int * 1_000_000int) <= uy * s <= 1_000_000int * 1_000_000int)
                    by (nonlinear_arith)
                    requires
                        -1_000_000 <= ux <= 1_000_000,
                        -1_000_000 <= uy <= 1_000_000,
                        0 <= s <= 1_000_000,
                ;
            }
            let rx: i64 = div_fix(ux * s, DIR_SCALE);
            let ry: i64 = div_fix(uy * s, DIR_SCALE);
            Vec2Fix { x: rx, y: ry }
        }
    }

    /// Unit vector at length `FIX_ONE`, or zero for the zero vector.
    pub fn normalize_or_zero(self) -> (r: Vec2Fix)
        requires
            in_lim(self@, COORD_LIMIT as int),
        ensures
            r@ == norm2(self@),
            nsq2(r@) <= FIX_ONE as int * FIX_ONE as int,
            in_lim(r@, FIX_ONE as int),
    {
        let ns: i64 = self.norm_sq();
        if ns == 0 {
            Vec2Fix::zero()
        } else {
            let l: i64 = self.len_up();
            proof {
                lemma_scale_div_norm(self@, FIX_ONE as int, l as int);
                lemma_nsq_comp_bound(scale_div2(self@, FIX_ONE as int, l as int), FIX_ONE as int);
            }
            Vec2Fix { x: div_fix(self.x * FIX_ONE, l), y: div_fix(self.y * FIX_ONE, l) }
        }
    }

    /// The vector, shortened to length `m` if it is longer than `m`; the
    /// result is never longer than `m`.
    pub fn clamp_len(self, m: i64) -> (r: Vec2Fix)
        requires
            in_lim(self@, COORD_LIMIT as int),
            0 <= m <= COORD_LIMIT,
        ensures
            r@ == clamp_len2(self@, m as int),
            nsq2(r@) <= m * m,
            in_lim(r@, m as int),
    {
        let ns: i64 = self.norm_sq();
        proof {
            assert(m * m <= 2_000_000_000int * 2_000_000_000int) by (nonlinear_arith)
                requires
                    0 <= m <= 2_000_000_000,
            ;
        }
        if ns <= m * m {
            proof {
                lemma_nsq_comp_bound(self@, m as int);
            }
            self
        } else {
            let l: i64 = self.len_up();
            proof {
                assert(self.x * m <= 2_000_000_000int * 2_000_000_000int && self.x * m
                    >= -(2_000_000_000int * 2_000_000_000int) && self.y * m <= 2_000_000_000int
                    * 2_000_000_000int && self.y * m >= -(2_000_000_000int * 2_000_000_000int))
                    by (nonlinear_arith)
                    requires
                        -2_000_000_000 <= self.x <= 2_000_000_000,
                        -2_000_000_000 <= self.y <= 2_000_000_000,
                        0 <= m <= 2_000_000_000,
                ;
                lemma_scale_div_norm(self@, m as int, l as int);
                lemma_nsq_comp_bound(scale_div2(self@, m as int, l as int), m as int);
            }
            Vec2Fix { x: div_fix(self.x * m, l), y: div_fix(self.y * m, l) }
        }
    }
}




/// Precision of the fine unit direction used by the speed clamp: the
/// direction of any nonzero integer vector is computed at this
/// amplification, so its relative error stays below a few millionths
/// whatever the vector's magnitude.
pub const DIR_SCALE: i64 = 1_000_000;

/// Largest component magnitude the fine rescale accepts; covers any
/// integrated velocity (speed and acceleration-times-time limits, both
/// amplified by `FIX_ONE`).
pub const FINE_LIMIT: i64 = 2_100_000_000_000;

/// Length of `p` amplified by `DIR_SCALE`, rounded up.
pub open spec fn len_fine2(p: (int, int)) -> int {
    sqrt_ceil(nsq2(p) * (DIR_SCALE as int * DIR_SCALE as int))
}

/// Unit vector of `p` at length `DIR_SCALE` (callers guard the zero
/// vector).
pub open spec fn unit_fine2(p: (int, int)) -> (int, int) {
    scale_div2(p, DIR_SCALE as int * DIR_SCALE as int, len_fine2(p))
}

/// `p` rescaled to length `s` through the fine unit direction; zero
/// stays zero.
pub open spec fn rescale_fine2(p: (int, int), s: int) -> (int, int) {
    if nsq2(p) == 0 {
        (0, 0)
    } else {
        scale_div2(unit_fine2(p), s, DIR_SCALE as int)
    }
}

/// Scaling by `m / d` loses less than one `d` per component: the product
/// form of the loss bound, with the cross term over component magnitudes.
pub proof fn lemma_scale_div_lower(p: (int, int), m: int, d: int)
    requires
        d >= 1,
        m >= 0,
    ensures
        nsq2(scale_div2(p, m, d)) * (d * d) >= nsq2(p) * (m * m) - 2 * d * m * (abs(p.0) + abs(
            p.1,
        )),
{
    let a0: int = p.0 * m;
    let a1: int = p.1 * m;
    let q0: int = tdiv(a0, d);
    let q1: int = tdiv(a1, d);
    lemma_tdiv_mag(a0, d);
    lemma_tdiv_mag(a1, d);
    let m0: int = if a0 >= 0 {
        a0
    } else {
        -a0
    };
    let m1: int = if a1 >= 0 {
        a1
    } else {
        -a1
    };
    assert((q0 * d) * (q0 * d) >= a0 * a0 - 2 * d * m0) by (nonlinear_arith)
        requires
            d >= 1,
            a0 >= 0 ==> 0 <= q0 * d <= a0 && a0 - d < q0 * d,
            a0 < 0 ==> a0 <= q0 * d <= 0 && q0 * d < a0 + d,
            m0 == (if a0 >= 0 { a0 } else { -a0 }),
    ;
    assert((q1 * d) * (q1 * d) >= a1 * a1 - 2 * d * m1) by (nonlinear_arith)
        requires
            d >= 1,
            a1 >= 0 ==> 0 <= q1 * d <= a1 && a1 - d < q1 * d,
            a1 < 0 ==> a1 <= q1 * d <= 0 && q1 * d < a1 + d,
            m1 == (if a1 >= 0 { a1 } else { -a1 }),
    ;
    let pm0: int = abs(p.0) as int;
    let pm1: int = abs(p.1) as int;
    assert(m0 == pm0 * m && m1 == pm1 * m) by (nonlinear_arith)
        requires
            m >= 0,
            a0 == p.0 * m,
            a1 == p.1 * m,
            m0 == (if a0 >= 0 { a0 } else { -a0 }),
            m1 == (if a1 >= 0 { a1 } else { -a1 }),
            pm0 == (if p.0 >= 0 { p.0 } else { -p.0 }),
            pm1 == (if p.1 >= 0 { p.1 } else { -p.1 }),
    ;
    assert((q0 * d) * (q0 * d) == (q0 * q0) * (d * d)) by (nonlinear_arith);
    assert((q1 * d) * (q1 * d) == (q1 * q1) * (d * d)) by (nonlinear_arith);
    assert(a0 * a0 == (p.0 * p.0) * (m * m)) by (nonlinear_arith)
        requires
            a0 == p.0 * m,
    ;
    assert(a1 * a1 == (p.1 * p.1) * (m * m)) by (nonlinear_arith)
        requires
            a1 == p.1 * m,
    ;
    assert((q0 * q0 + q1 * q1) * (d * d) == (q0 * q0) * (d * d) + (q1 * q1) * (d * d))
        by (nonlinear_arith);
    assert((p.0 * p.0 + p.1 * p.1) * (m * m) == (p.0 * p.0) * (m * m) + (p.1 * p.1) * (m * m))
        by (nonlinear_arith);
    assert(2 * d * (pm0 * m) + 2 * d * (pm1 * m) == 2 * d * m * (pm0 + pm1)) by (nonlinear_arith);
}

/// For a nonzero `p`, the fine unit direction has length `DIR_SCALE` up
/// to a handful of units, each component within `DIR_SCALE`, and each
/// component keeping the sign of `p`'s.
pub proof fn lemma_unit_fine(p: (int, int))
    requires
        nsq2(p) >= 1,
    ensures
        len_fine2(p) >= DIR_SCALE as int,
        nsq2(unit_fine2(p)) <= (DIR_SCALE as int) * (DIR_SCALE as int),
        nsq2(unit_fine2(p)) > (DIR_SCALE as int) * (DIR_SCALE as int) - 6 * (DIR_SCALE as int),
        in_lim(unit_fine2(p), DIR_SCALE as int),
        p.0 >= 0 ==> unit_fine2(p).0 >= 0,
        p.0 <= 0 ==> unit_fine2(p).0 <= 0,
        p.1 >= 0 ==> unit_fine2(p).1 >= 0,
        p.1 <= 0 ==> unit_fine2(p).1 <= 0,
{
    let sc: int = DIR_SCALE as int;
    let nn: int = nsq2(p) * (sc * sc);
    let u: (int, int) = unit_fine2(p);
    assert(nn >= sc * sc) by (nonlinear_arith)
        requires
            nn == nsq2(p) * (sc * sc),
            nsq2(p) >= 1,
            sc >= 1,
    ;
    lemma_sqrt_ceil(nn);
    let d: int = len_fine2(p);
    assert(d >= sc) by (nonlinear_arith)
        requires
            nn <= d * d,
            nn >= sc * sc,
            d >= 1,
            sc >= 1,
    ;
    lemma_scale_div_norm_gen(p, sc * sc, d);
    assert(nsq2(p) * ((sc * sc) * (sc * sc)) == nn * (sc * sc)) by (nonlinear_arith)
        requires
            nn == nsq2(p) * (sc * sc),
    ;
    assert(nn * (sc * sc) <= (d * d) * (sc * sc)) by (nonlinear_arith)
        requires
            nn <= d * d,
    ;
    assert(nsq2(u) <= sc * sc) by (nonlinear_arith)
        requires
            nsq2(u) * (d * d) <= (d * d) * (sc * sc),
            d >= 1,
    ;
    lemma_nsq_comp_bound(u, sc);
    lemma_scale_div_lower(p, sc * sc, d);
    lemma_nsq_nonneg(p);
    let pm0: int = abs(p.0) as int;
    let pm1: int = abs(p.1) as int;
    assert(pm0 * pm0 == p.0 * p.0 && pm1 * pm1 == p.1 * p.1) by (nonlinear_arith)
        requires
            pm0 == (if p.0 >= 0 { p.0 } else { -p.0 }),
            pm1 == (if p.1 >= 0 { p.1 } else { -p.1 }),
    ;
    assert(pm0 * sc <= d && pm1 * sc <= d) by (nonlinear_arith)
        requires
            pm0 * pm0 <= nsq2(p),
            pm1 * pm1 <= nsq2(p),
            nsq2(p) * (sc * sc) <= d * d,
            pm0 == (if p.0 >= 0 { p.0 } else { -p.0 }),
            pm1 == (if p.1 >= 0 { p.1 } else { -p.1 }),
            p.0 * p.0 == pm0 * pm0,
            p.1 * p.1 == pm1 * pm1,
            sc >= 1,
            d >= 1,
    ;
    assert(2 * d * (sc * sc) * (pm0 + pm1) <= 4 * sc * (d * d)) by (nonlinear_arith)
        requires
            pm0 * sc <= d,
            pm1 * sc <= d,
            pm0 >= 0,
            pm1 >= 0,
            sc >= 1,
            d >= 1,
    ;
    assert(nn * (sc * sc) > ((d - 1) * (d - 1)) * (sc * sc)) by (nonlinear_arith)
        requires
            (d - 1) * (d - 1) < nn,
            sc >= 1,
    ;
    assert(((d - 1) * (d - 1)) * (sc * sc) >= (d * d) * (sc * sc) - 2 * d * (sc * sc))
        by (nonlinear_arith);
    assert(2 * d * (sc * sc) <= 2 * sc * (d * d)) by (nonlinear_arith)
        requires
            sc <= d,
            d >= 1,
            sc >= 1,
    ;
    assert(nn * (sc * sc) > (d * d) * (sc * sc) - 2 * sc * (d * d)) by (nonlinear_arith)
        requires
            nn * (sc * sc) > ((d - 1) * (d - 1)) * (sc * sc),
            ((d - 1) * (d - 1)) * (sc * sc) >= (d * d) * (sc * sc) - 2 * d * (sc * sc),
            2 * d * (sc * sc) <= 2 * sc * (d * d),
    ;
    assert(nsq2(u) > sc * sc - 6 * sc) by (nonlinear_arith)
        requires
            nsq2(u) * (d * d) >= nn * (sc * sc) - 2 * d * (sc * sc) * (pm0 + pm1),
            nn * (sc * sc) > (d * d) * (sc * sc) - 2 * sc * (d * d),
            2 * d * (sc * sc) * (pm0 + pm1) <= 4 * sc * (d * d),
            d >= 1,
    ;
    lemma_tdiv_sign(p.0 * (sc * sc), d);
    lemma_tdiv_sign(p.1 * (sc * sc), d);
    assert((p.0 >= 0 ==> p.0 * (sc * sc) >= 0) && (p.0 <= 0 ==> p.0 * (sc * sc) <= 0) && (p.1 >= 0
        ==> p.1 * (sc * sc) >= 0) && (p.1 <= 0 ==> p.1 * (sc * sc) <= 0)) by (nonlinear_arith)
        requires
            sc >= 1,
    ;
}

/// Rescaling a nonzero vector to a target length `s` through the fine
/// unit direction: never longer than `s`, and shorter by less than 10
/// units — so at least `s - 10` long once `s` reaches 10.  Components
/// keep the sign of `p`'s.
pub proof fn lemma_rescale_fine(p: (int, int), s: int)
    requires
        nsq2(p) >= 1,
        0 <= s <= DIR_SCALE as int,
    ensures
        nsq2(rescale_fine2(p, s)) <= s * s,
        nsq2(rescale_fine2(p, s)) >= s * s - 10 * s,
        in_lim(rescale_fine2(p, s), s),
        s >= 10 ==> nsq2(rescale_fine2(p, s)) >= (s - 10) * (s - 10),
        p.0 >= 0 ==> rescale_fine2(p, s).0 >= 0,
        p.0 <= 0 ==> rescale_fine2(p, s).0 <= 0,
        p.1 >= 0 ==> rescale_fine2(p, s).1 >= 0,
        p.1 <= 0 ==> rescale_fine2(p, s).1 <= 0,
{
    let sc: int = DIR_SCALE as int;
    let u: (int, int) = unit_fine2(p);
    let r: (int, int) = rescale_fine2(p, s);
    lemma_unit_fine(p);
    lemma_scale_div_norm(u, s, sc);
    lemma_nsq_comp_bound(r, s);
    lemma_scale_div_lower(u, s, sc);
    let um0: int = abs(u.0) as int;
    let um1: int = abs(u.1) as int;
    assert(um0 <= sc && um1 <= sc) by (nonlinear_arith)
        requires
            -sc <= u.0 <= sc,
            -sc <= u.1 <= sc,
            um0 == (if u.0 >= 0 { u.0 } else { -u.0 }),
            um1 == (if u.1 >= 0 { u.1 } else { -u.1 }),
    ;
    assert(2 * sc * s * (um0 + um1) <= 4 * s * (sc * sc)) by (nonlinear_arith)
        requires
            0 <= um0 <= sc,
            0 <= um1 <= sc,
            s >= 0,
            sc >= 1,
    ;
    assert(nsq2(u) * (s * s) >= (sc * sc - 6 * sc) * (s * s)) by (nonlinear_arith)
        requires
            nsq2(u) >= sc * sc - 6 * sc,
            s * s >= 0,
    ;
    assert((sc * sc - 6 * sc) * (s * s) >= (s * s) * (sc * sc) - 6 * s * (sc * sc))
        by (nonlinear_arith)
        requires
            0 <= s <= sc,
            sc >= 1,
    ;
    assert(s * s >= 0) by (nonlinear_arith);
    assert(nsq2(r) * (sc * sc) >= (s * s - 10 * s) * (sc * sc)) by (nonlinear_arith)
        requires
            nsq2(r) * (sc * sc) >= nsq2(u) * (s * s) - 2 * sc * s * (um0 + um1),
            nsq2(u) * (s * s) >= (s * s) * (sc * sc) - 6 * s * (sc * sc),
            2 * sc * s * (um0 + um1) <= 4 * s * (sc * sc),
    ;
    assert(nsq2(r) >= s * s - 10 * s) by (nonlinear_arith)
        requires
            nsq2(r) * (sc * sc) >= (s * s - 10 * s) * (sc * sc),
            sc >= 1,
    ;
    assert(s >= 10 ==> s * s - 10 * s >= (s - 10) * (s - 10)) by (nonlinear_arith);
    lemma_tdiv_sign(u.0 * s, sc);
    lemma_tdiv_sign(u.1 * s, sc);
    assert((u.0 >= 0 ==> u.0 * s >= 0) && (u.0 <= 0 ==> u.0 * s <= 0) && (u.1 >= 0 ==> u.1 * s
        >= 0) && (u.1 <= 0 ==> u.1 * s <= 0)) by (nonlinear_arith)
        requires
            s >= 0,
    ;
}

} // verus!
