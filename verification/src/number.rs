//! Decimal fixed-point numbers.
//!
//! Every length, angle, cosine and coordinate of this crate is a `Fixed`: a
//! signed 64-bit count of units of `10^-15`, so that `raw` stands for the real
//! number `raw / 10^15`. Products and quotients are taken in 128 bits and
//! rounded to the nearest unit, halves away from zero.

use vstd::prelude::*;

verus! {

/// A number in units of `10^-15`: the value `raw / SCALE`.
pub type Fixed = i64;

/// How many units of a `Fixed` make one.
pub const SCALE: i64 = 1_000_000_000_000_000;

/// Whether `v` is the raw value of some `Fixed`.
pub open spec fn fits(v: int) -> bool {
    i64::MIN <= v <= i64::MAX
}

/// The quotient `n / d` rounded towards zero (`d` is not zero).
pub open spec fn trunc_div(n: int, d: int) -> int {
    if n >= 0 {
        if d > 0 {
            n / d
        } else {
            -(n / (-d))
        }
    } else {
        if d > 0 {
            -((-n) / d)
        } else {
            (-n) / (-d)
        }
    }
}

/// The quotient `n / d` rounded to the nearest integer, halves away from zero
/// (`d` is not zero).
pub open spec fn round_div(n: int, d: int) -> int {
    let an = if n >= 0 { n } else { -n };
    let ad = if d >= 0 { d } else { -d };
    let q = (2 * an + ad) / (2 * ad);
    if (n >= 0) == (d > 0) {
        q
    } else {
        -q
    }
}

/// The raw value of the product of two fixed-point numbers, rounded to the
/// nearest unit.
pub open spec fn fixed_mul(a: int, b: int) -> int {
    round_div(a * b, SCALE as int)
}

/// Whether `r` is the largest number that is not negative and whose square is at most `n`.
pub open spec fn is_int_sqrt(n: int, r: int) -> bool {
    0 <= r && r * r <= n < (r + 1) * (r + 1)
}

/// The largest `r >= 0` with `r * r <= n`, for `n >= 0`.
pub open spec fn int_sqrt(n: int) -> int {
    choose|r: int| is_int_sqrt(n, r)
}

/// `trunc_div` never leaves the interval between zero and the numerator.
pub proof fn lemma_trunc_div_bounds(n: int, d: int)
    requires
        d != 0,
    ensures
        n >= 0 ==> -n <= trunc_div(n, d) <= n,
        n <= 0 ==> n <= trunc_div(n, d) <= -n,
{
    let an = if n >= 0 { n } else { -n };
    let ad = if d > 0 { d } else { -d };
    assert(0 <= an / ad <= an) by (nonlinear_arith)
        requires
            an >= 0,
            ad >= 1,
    ;
}

/// A rounded quotient is at most half a divisor away from the exact one:
/// twice what it leaves of the numerator is at most the divisor.
pub proof fn lemma_round_div_is_near(n: int, d: int)
    requires
        d != 0,
    ensures
        -d <= 2 * (n - round_div(n, d) * d) <= d || d <= 2 * (n - round_div(n, d) * d) <= -d,
        n >= 0 ==> -n - 1 <= round_div(n, d) <= n + 1,
        n <= 0 ==> n - 1 <= round_div(n, d) <= -n + 1,
{
    let an = if n >= 0 { n } else { -n };
    let ad = if d >= 0 { d } else { -d };
    let q = (2 * an + ad) / (2 * ad);
    assert(0 <= (2 * an + ad) - q * (2 * ad) < 2 * ad && 0 <= q <= an + 1) by (nonlinear_arith)
        requires
            an >= 0,
            ad > 0,
            q == (2 * an + ad) / (2 * ad),
    ;
    assert(q * (2 * ad) == 2 * (q * ad)) by (nonlinear_arith);
    assert((-q) * d == -(q * d)) by (nonlinear_arith);
    assert(q * (-d) == -(q * d)) by (nonlinear_arith);
}

/// A product of two 64-bit numbers lies within 127 bits.
pub proof fn lemma_product_bounds(a: int, b: int)
    requires
        fits(a),
        fits(b),
    ensures
        -0x4000_0000_0000_0000_0000_0000_0000_0000 <= a * b
            <= 0x4000_0000_0000_0000_0000_0000_0000_0000,
{
    assert(a * b <= 0x4000_0000_0000_0000_0000_0000_0000_0000) by (nonlinear_arith)
        requires
            -0x8000_0000_0000_0000 <= a <= 0x7fff_ffff_ffff_ffff,
            -0x8000_0000_0000_0000 <= b <= 0x7fff_ffff_ffff_ffff,
    ;
    assert(a * b >= -0x4000_0000_0000_0000_0000_0000_0000_0000) by (nonlinear_arith)
        requires
            -0x8000_0000_0000_0000 <= a <= 0x7fff_ffff_ffff_ffff,
            -0x8000_0000_0000_0000 <= b <= 0x7fff_ffff_ffff_ffff,
    ;
}

/// At most one number is the integer square root of `n`.
pub proof fn lemma_int_sqrt_unique(n: int, r: int)
    requires
        is_int_sqrt(n, r),
    ensures
        int_sqrt(n) == r,
{
    let s = int_sqrt(n);
    assert(is_int_sqrt(n, s));
    if s < r {
        assert((s + 1) * (s + 1) <= r * r) by (nonlinear_arith)
            requires
                0 <= s,
                s + 1 <= r,
        ;
    }
    if r < s {
        assert((r + 1) * (r + 1) <= s * s) by (nonlinear_arith)
            requires
                0 <= r,
                r + 1 <= s,
        ;
    }
}

/// Every number that is not negative has an integer square root.
pub proof fn lemma_int_sqrt_exists(n: int) -> (r: int)
    requires
        n >= 0,
    ensures
        is_int_sqrt(n, r),
        r == int_sqrt(n),
    decreases n,
{
    if n == 0 {
        assert(is_int_sqrt(0, 0));
        lemma_int_sqrt_unique(0, 0);
        0
    } else {
        let s = lemma_int_sqrt_exists(n - 1);
        let r = if (s + 1) * (s + 1) <= n { s + 1 } else { s };
        assert(is_int_sqrt(n, r)) by (nonlinear_arith)
            requires
                0 <= s,
                s * s <= n - 1 < (s + 1) * (s + 1),
                r == (if (s + 1) * (s + 1) <= n { s + 1 } else { s }),
        ;
        lemma_int_sqrt_unique(n, r);
        r
    }
}

/// `n / d` rounded towards zero.
pub fn div_trunc(n: i128, d: i128) -> (q: i128)
    requires
        d != 0,
        n > i128::MIN,
        d > i128::MIN,
    ensures
        q == trunc_div(n as int, d as int),
{
    proof {
        lemma_trunc_div_bounds(n as int, d as int);
    }
    if d > 0 {
        n / d
    } else {
        -(n / (-d))
    }
}

/// `n / d` rounded to the nearest integer, halves away from zero.
pub fn div_round(n: i128, d: i128) -> (q: i128)
    requires
        d != 0,
        -0x4000_0000_0000_0000_0000_0000_0000_0000 <= n <= 0x4000_0000_0000_0000_0000_0000_0000_0000,
        -0x4000_0000_0000_0000_0000_0000_0000_0000 <= d <= 0x4000_0000_0000_0000_0000_0000_0000_0000,
    ensures
        q == round_div(n as int, d as int),
{
    proof {
        lemma_round_div_is_near(n as int, d as int);
    }
    let an: u128 = if n >= 0 { n as u128 } else { (-n) as u128 };
    let ad: u128 = if d >= 0 { d as u128 } else { (-d) as u128 };
    let q: u128 = (2 * an + ad) / (2 * ad);
    if (n >= 0) == (d > 0) {
        q as i128
    } else {
        -(q as i128)
    }
}

/// The product of two fixed-point numbers, as a raw value in 128 bits.
pub fn mul_fixed(a: Fixed, b: Fixed) -> (p: i128)
    ensures
        p == fixed_mul(a as int, b as int),
        -0x1_0000_0000_0000_0000_0000 <= p <= 0x1_0000_0000_0000_0000_0000,
{
    proof {
        lemma_product_bounds(a as int, b as int);
        let n = a * b;
        let m = if n >= 0 { n } else { -n };
        assert((2 * m + 1_000_000_000_000_000) / 2_000_000_000_000_000
            <= 0x1_0000_0000_0000_0000_0000);
    }
    let wide: i128 = (a as i128) * (b as i128);
    div_round(wide, SCALE as i128)
}

/// `v` as a `Fixed`, where it is one.
pub fn narrow(v: i128) -> (r: Option<Fixed>)
    ensures
        r == (if fits(v as int) { Some(v as i64) } else { None::<i64> }),
{
    if v < i64::MIN as i128 || v > i64::MAX as i128 {
        None
    } else {
        Some(v as i64)
    }
}

/// The integer square root of `n`.
pub fn sqrt_floor(n: u128) -> (r: u64)
    ensures
        r == int_sqrt(n as int),
{
    let mut lo: u128 = 0;
    let mut hi: u128 = 0x1_0000_0000_0000_0000;
    assert(0x1_0000_0000_0000_0000int * 0x1_0000_0000_0000_0000int > n);
    while hi - lo > 1
        invariant
            lo < hi <= 0x1_0000_0000_0000_0000,
            lo * lo <= n < hi * hi,
        decreases hi - lo,
    {
        let mid: u128 = lo + (hi - lo) / 2;
        assert(mid * mid < 0x1_0000_0000_0000_0000int * 0x1_0000_0000_0000_0000int)
            by (nonlinear_arith)
            requires
                0 <= mid < 0x1_0000_0000_0000_0000int,
        ;
        if mid * mid <= n {
            lo = mid;
        } else {
            hi = mid;
        }
    }
    proof {
        lemma_int_sqrt_unique(n as int, lo as int);
    }
    lo as u64
}

} // verus!
