//! Integer helpers shared by the algebra and the rasterizers: Rust's
//! truncating division stated over mathematical integers.
use vstd::prelude::*;

verus! {

/// Absolute value of a mathematical integer.
pub open spec fn abs(a: int) -> int {
    if a < 0 { -a } else { a }
}

/// Quotient of `n / d` rounded toward zero, as Rust's `/` and `as` casts
/// of a quotient compute it (`d != 0`).
pub open spec fn trunc_div(n: int, d: int) -> int {
    let q = abs(n) / abs(d);
    if (n >= 0) == (d > 0) { q } else { -q }
}

/// For a positive divisor, a truncated quotient stays in any integer range
/// that holds the exact quotient.
pub proof fn lemma_trunc_div_between(n: int, d: int, lo: int, hi: int)
    requires
        d > 0,
        lo * d <= n <= hi * d,
    ensures
        lo <= trunc_div(n, d) <= hi,
{
    if n >= 0 {
        vstd::arithmetic::div_mod::lemma_div_pos_is_pos(n, d);
        if lo > 0 {
            vstd::arithmetic::div_mod::lemma_div_is_ordered(lo * d, n, d);
            vstd::arithmetic::div_mod::lemma_div_by_multiple(lo, d);
        }
        assert(hi >= 0) by (nonlinear_arith)
            requires
                d > 0,
                hi * d >= 0,
        ;
        vstd::arithmetic::div_mod::lemma_div_is_ordered(n, hi * d, d);
        vstd::arithmetic::div_mod::lemma_div_by_multiple(hi, d);
    } else {
        vstd::arithmetic::div_mod::lemma_div_pos_is_pos(-n, d);
        assert(lo < 0) by (nonlinear_arith)
            requires
                d > 0,
                lo * d < 0,
        ;
        assert((-lo) * d == -(lo * d)) by (nonlinear_arith);
        vstd::arithmetic::div_mod::lemma_div_is_ordered(-n, (-lo) * d, d);
        vstd::arithmetic::div_mod::lemma_div_by_multiple(-lo, d);
        if hi < 0 {
            assert((-hi) * d == -(hi * d)) by (nonlinear_arith);
            vstd::arithmetic::div_mod::lemma_div_is_ordered((-hi) * d, -n, d);
            vstd::arithmetic::div_mod::lemma_div_by_multiple(-hi, d);
        }
    }
}

pub open spec fn min(a: int, b: int) -> int {
    if a <= b { a } else { b }
}

pub open spec fn max(a: int, b: int) -> int {
    if a <= b { b } else { a }
}

/// The point `t / n` of the way from `u` to `v`, that is
/// `u + (v - u) * t / n`, rounded toward zero.
pub open spec fn lerp_trunc(u: int, v: int, t: int, n: int) -> int {
    trunc_div(u * (n - t) + v * t, n)
}

/// A point between `u` and `v`, rounded toward zero, stays between them.
pub proof fn lemma_lerp_between(u: int, v: int, t: int, n: int)
    requires
        n > 0,
        0 <= t <= n,
    ensures
        min(u, v) <= lerp_trunc(u, v, t, n) <= max(u, v),
{
    if u <= v {
        assert(u * n <= u * (n - t) + v * t <= v * n) by (nonlinear_arith)
            requires
                u <= v,
                0 <= t <= n,
        ;
        lemma_trunc_div_between(u * (n - t) + v * t, n, u, v);
    } else {
        assert(v * n <= u * (n - t) + v * t <= u * n) by (nonlinear_arith)
            requires
                v < u,
                0 <= t <= n,
        ;
        lemma_trunc_div_between(u * (n - t) + v * t, n, v, u);
    }
}

/// The point `t / n` of the way from `u` to `v`, rounded toward zero.
pub fn lerp_trunc_i32(u: i32, v: i32, t: i64, n: i64) -> (r: i32)
    requires
        n > 0,
        0 <= t <= n,
    ensures
        r == lerp_trunc(u as int, v as int, t as int, n as int),
        min(u as int, v as int) <= r <= max(u as int, v as int),
{
    proof {
        assert(-0x8000_0000_0000_0000_0000_0000 <= (u as int) * ((n - t) as int) <= 0x8000_0000_0000_0000_0000_0000)
            by (nonlinear_arith)
            requires
                -0x8000_0000 <= u <= 0x8000_0000,
                0 <= n - t <= 0x8000_0000_0000_0000,
        ;
        assert(-0x8000_0000_0000_0000_0000_0000 <= (v as int) * (t as int) <= 0x8000_0000_0000_0000_0000_0000)
            by (nonlinear_arith)
            requires
                -0x8000_0000 <= v <= 0x8000_0000,
                0 <= t <= 0x8000_0000_0000_0000,
        ;
        lemma_lerp_between(u as int, v as int, t as int, n as int);
    }
    let num: i128 = (u as i128) * ((n - t) as i128) + (v as i128) * (t as i128);
    let q: i128 = trunc_div_i128(num, n as i128);
    q as i32
}

/// Rust's truncating division on `i128`, for a positive divisor.
pub fn trunc_div_i128(n: i128, d: i128) -> (r: i128)
    requires
        d > 0,
        n > i128::MIN,
    ensures
        r == trunc_div(n as int, d as int),
{
    if n >= 0 {
        n / d
    } else {
        let q: i128 = (-n) / d;
        proof {
            vstd::arithmetic::div_mod::lemma_div_pos_is_pos(-n as int, d as int);
            vstd::arithmetic::div_mod::lemma_div_is_ordered_by_denominator(-n as int, 1, d as int);
        }
        -q
    }
}

} // verus!
