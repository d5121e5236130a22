//! Fixed-point arithmetic shared by the whole engine.
//!
//! A real quantity `q` (a coordinate, a normalized position, a colour
//! channel, a number of seconds) is held as the integer `q * UNIT`. With
//! `UNIT` equal to 10^9 a duration in seconds is a number of nanoseconds.

use vstd::prelude::*;
use vstd::arithmetic::div_mod::lemma_fundamental_div_mod;
use vstd::arithmetic::div_mod::lemma_fundamental_div_mod_converse;

verus! {

/// The integer that stands for the real number 1.
pub const UNIT: i64 = 1_000_000_000;

/// `v` limited to the closed interval from `lo` to `hi`.
pub open spec fn clamp(v: int, lo: int, hi: int) -> int {
    if v < lo {
        lo
    } else if v > hi {
        hi
    } else {
        v
    }
}

/// The distance between two integers.
pub open spec fn distance(a: int, b: int) -> int {
    if a >= b {
        a - b
    } else {
        b - a
    }
}

/// Limits a normalized position to the interval from 0 to 1.
pub fn clamp_unit(p: i64) -> (r: i64)
    ensures
        r == clamp(p as int, 0, UNIT as int),
{
    if p < 0 {
        0
    } else if p > UNIT {
        UNIT
    } else {
        p
    }
}

/// Limits a wide integer to the range of `i64`.
pub fn saturate(v: i128) -> (r: i64)
    ensures
        r == clamp(v as int, i64::MIN as int, i64::MAX as int),
{
    if v < i64::MIN as i128 {
        i64::MIN
    } else if v > i64::MAX as i128 {
        i64::MAX
    } else {
        v as i64
    }
}

/// Quotient rounded towards negative infinity, for a positive divisor.
pub fn div_floor(n: i128, d: i128) -> (q: i128)
    requires
        d > 0,
    ensures
        q == n as int / d as int,
{
    if n >= 0 {
        n / d
    } else {
        let m: i128 = -(n + 1);
        let k: i128 = m / d;
        proof {
            let r = m as int % d as int;
            lemma_fundamental_div_mod(m as int, d as int);
            assert(0 <= r < d) by (nonlinear_arith)
                requires
                    r == m as int % d as int,
                    d > 0,
            ;
            assert(0 <= k <= m) by (nonlinear_arith)
                requires
                    k == m as int / d as int,
                    m >= 0,
                    d > 0,
            ;
            assert(n as int == (-k - 1) * d + (d - 1 - r)) by (nonlinear_arith)
                requires
                    m as int == d * k + r,
                    n as int == -m - 1,
            ;
            lemma_fundamental_div_mod_converse(n as int, d as int, -k - 1, d - 1 - r);
        }
        -k - 1
    }
}

/// The distance between two values, computed without overflow.
pub fn distance_of(a: i64, b: i64) -> (r: i128)
    ensures
        r == distance(a as int, b as int),
{
    if a >= b {
        a as i128 - b as i128
    } else {
        b as i128 - a as i128
    }
}

} // verus!
