use vstd::prelude::*;

verus! {

/// Division that rounds toward zero, as Rust's `/` on signed integers does.
pub open spec fn tdiv(a: int, b: int) -> int {
    if a >= 0 {
        a / b
    } else {
        -((-a) / b)
    }
}

/// `v` saturated to the closed range `[-lim, lim]`.
pub open spec fn clamp_to(v: int, lim: int) -> int {
    if v > lim {
        lim
    } else if v < -lim {
        -lim
    } else {
        v
    }
}

/// `v` held to the range of `i64` (without its least value).
pub open spec fn wide(v: int) -> int {
    clamp_to(v, i64::MAX as int)
}

/// The integer square root: the largest `r` with `r * r <= n`.
pub open spec fn is_isqrt(n: int, r: int) -> bool {
    0 <= r && r * r <= n && n < (r + 1) * (r + 1)
}

pub fn div_toward_zero(a: i128, b: i128) -> (q: i128)
    requires
        b > 0,
        a > i128::MIN,
    ensures
        q == tdiv(a as int, b as int),
{
    if a >= 0 {
        a / b
    } else {
        -((-a) / b)
    }
}

pub proof fn lemma_tdiv_bounds(a: int, b: int)
    requires
        b > 0,
    ensures
        b == 1 ==> tdiv(a, b) == a,
        a >= 0 ==> 0 <= tdiv(a, b) <= a,
        a <= 0 ==> a <= tdiv(a, b) <= 0,
{
    assert(b == 1 ==> a / b == a && (-a) / b == -a);
    if a >= 0 {
        assert(a / b <= a) by (nonlinear_arith) requires a >= 0, b > 0;
        assert(a / b >= 0) by (nonlinear_arith) requires a >= 0, b > 0;
    } else {
        assert((-a) / b <= -a) by (nonlinear_arith) requires -a >= 0, b > 0;
        assert((-a) / b >= 0) by (nonlinear_arith) requires -a >= 0, b > 0;
    }
}

/// Saturates `v` to `[-lim, lim]` and narrows it to `i64`.
pub fn saturate(v: i128, lim: i64) -> (r: i64)
    requires
        lim >= 0,
    ensures
        r == clamp_to(v as int, lim as int),
{
    if v > lim as i128 {
        lim
    } else if v < -(lim as i128) {
        -lim
    } else {
        v as i64
    }
}

/// Saturates `v` to the range of `i64` (without its least value).
pub fn narrow(v: i128) -> (r: i64)
    ensures
        r == wide(v as int),
{
    saturate(v, i64::MAX)
}

/// Integer square root by bisection.
pub fn isqrt(n: u128) -> (r: u128)
    ensures
        is_isqrt(n as int, r as int),
{
    let mut lo: u128 = 0;
    let mut hi: u128 = 0x1_0000_0000_0000_0000u128;
    while hi - lo > 1
        invariant
            lo < hi,
            hi <= 0x1_0000_0000_0000_0000u128,
            lo * lo <= n,
            n < hi * hi,
        decreases hi - lo,
    {
        let mid: u128 = lo + (hi - lo) / 2;
        assert(mid < 0x1_0000_0000_0000_0000u128);
        assert(mid * mid < 0x1_0000_0000_0000_0000u128 * 0x1_0000_0000_0000_0000u128)
            by (nonlinear_arith) requires mid < 0x1_0000_0000_0000_0000u128;
        if mid * mid <= n {
            lo = mid;
        } else {
            hi = mid;
        }
    }
    assert(hi == lo + 1);
    lo
}

} // verus!
