//! Small integer operations.

use vstd::prelude::*;

verus! {

/// Division rounded towards zero.
pub open spec fn trunc_div(a: int, b: int) -> int {
    if a >= 0 {
        a / b
    } else {
        -((-a) / b)
    }
}

/// The value nearest to `x` within `lo..=hi`.
pub open spec fn clamped(x: int, lo: int, hi: int) -> int {
    if x < lo {
        lo
    } else if x > hi {
        hi
    } else {
        x
    }
}

/// Distance from zero.
pub open spec fn magnitude(x: int) -> int {
    if x < 0 {
        -x
    } else {
        x
    }
}

pub open spec fn larger(a: int, b: int) -> int {
    if a < b {
        b
    } else {
        a
    }
}

pub open spec fn smaller(a: int, b: int) -> int {
    if b < a {
        b
    } else {
        a
    }
}

/// The value nearest to `x` within `lo..=hi`.
pub fn clamp_i32(x: i32, lo: i32, hi: i32) -> (r: i32)
    requires
        lo <= hi,
    ensures
        r == clamped(x as int, lo as int, hi as int),
{
    if x < lo {
        lo
    } else if x > hi {
        hi
    } else {
        x
    }
}

/// Division rounded towards zero.
pub fn trunc_div_i64(a: i64, b: i64) -> (r: i64)
    requires
        a > i64::MIN,
        b > 0,
    ensures
        r == trunc_div(a as int, b as int),
{
    if a >= 0 {
        let q: u64 = a as u64 / b as u64;
        proof {
            lemma_quotient_bound(a as int, b as int);
        }
        q as i64
    } else {
        let q: u64 = (-a) as u64 / b as u64;
        proof {
            lemma_quotient_bound(-(a as int), b as int);
        }
        -(q as i64)
    }
}

/// A quotient is no larger than its dividend.
pub proof fn lemma_quotient_bound(a: int, b: int)
    requires
        a >= 0,
        b > 0,
    ensures
        0 <= a / b <= a,
{
    assert(0 <= a / b && a / b <= a) by (nonlinear_arith)
        requires
            a >= 0,
            b > 0,
    ;
}

/// A truncated quotient has the sign of its dividend and no larger magnitude.
pub proof fn lemma_trunc_div_bound(a: int, b: int)
    requires
        b > 0,
    ensures
        a >= 0 ==> 0 <= trunc_div(a, b) <= a,
        a <= 0 ==> a <= trunc_div(a, b) <= 0,
{
    if a >= 0 {
        lemma_quotient_bound(a, b);
    } else {
        lemma_quotient_bound(-a, b);
    }
}

/// `a - b`, kept within the type.
pub fn difference(a: i32, b: i32) -> (d: i32)
    ensures
        d == clamped(a - b, i32::MIN as int, i32::MAX as int),
{
    let d: i64 = a as i64 - b as i64;
    if d < -0x8000_0000 {
        i32::MIN
    } else if d > 0x7FFF_FFFF {
        i32::MAX
    } else {
        d as i32
    }
}

} // verus!
