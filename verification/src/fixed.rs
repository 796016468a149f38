//! The sample scale and integer helpers that the signal path shares.

use vstd::prelude::*;

verus! {

/// Full scale of a sample: the integer that stands for an amplitude of one.
pub const ONE: i32 = 32768;

/// The quotient of `x` by a positive `d`, rounded toward zero.
pub open spec fn trunc_div(x: int, d: int) -> int {
    if x >= 0 {
        x / d
    } else {
        -((-x) / d)
    }
}

/// The quotient of `x` by a positive `d`, rounded to the nearest integer;
/// a quotient half-way between two integers goes to the one further from
/// zero.
pub open spec fn round_div(x: int, d: int) -> int {
    if x >= 0 {
        (2 * x + d) / (2 * d)
    } else {
        -((2 * (-x) + d) / (2 * d))
    }
}

/// `x` limited to the range from `-ONE` to `ONE`.
pub open spec fn clamp_unit(x: int) -> int {
    if x < -ONE {
        -ONE as int
    } else if x > ONE {
        ONE as int
    } else {
        x
    }
}

/// The magnitude of `x`.
pub open spec fn magnitude(x: int) -> int {
    if x < 0 {
        -x
    } else {
        x
    }
}

/// Rounding toward zero keeps a quotient within the bound of its numerator:
/// if `|x| <= bound * d` then `|x / d| <= bound`.
pub proof fn lemma_trunc_div_bound(x: int, d: int, bound: int)
    requires
        d > 0,
        bound >= 0,
        -(bound * d) <= x <= bound * d,
    ensures
        -bound <= trunc_div(x, d) <= bound,
{
    if x >= 0 {
        assert(x / d <= bound) by (nonlinear_arith)
            requires
                d > 0,
                0 <= x <= bound * d,
        ;
        assert(0 <= x / d) by (nonlinear_arith)
            requires
                d > 0,
                0 <= x,
        ;
    } else {
        let y = -x;
        assert(y / d <= bound) by (nonlinear_arith)
            requires
                d > 0,
                0 <= y <= bound * d,
        ;
        assert(0 <= y / d) by (nonlinear_arith)
            requires
                d > 0,
                0 <= y,
        ;
    }
}

/// Rounding toward zero is symmetric and never leaves the sign of `x`.
pub proof fn lemma_trunc_div_sign(x: int, d: int)
    requires
        d > 0,
    ensures
        trunc_div(-x, d) == -trunc_div(x, d),
        x >= 0 ==> trunc_div(x, d) >= 0,
        x <= 0 ==> trunc_div(x, d) <= 0,
        x == 0 ==> trunc_div(x, d) == 0,
{
    let y = magnitude(x);
    assert(0 <= y / d) by (nonlinear_arith)
        requires
            d > 0,
            0 <= y,
    ;
    assert(0int / d == 0) by (nonlinear_arith)
        requires
            d > 0,
    ;
}

/// Rounding to the nearest keeps a quotient within the bound of its
/// numerator, and takes a numerator of less than half the divisor to zero.
pub proof fn lemma_round_div_bound(x: int, d: int, bound: int)
    requires
        d > 0,
        bound >= 0,
        -(bound * d) <= x <= bound * d,
    ensures
        -bound <= round_div(x, d) <= bound,
        -d < 2 * x < d ==> round_div(x, d) == 0,
        round_div(-x, d) == -round_div(x, d),
{
    let y = magnitude(x);
    let n = 2 * y + d;
    let m = 2 * d;
    assert(0 <= n / m <= bound) by (nonlinear_arith)
        requires
            m == 2 * d,
            d > 0,
            0 <= n,
            n <= 2 * (bound * d) + d,
            bound >= 0,
    {
        assert(n < (bound + 1) * m);
    }
    if -d < 2 * x < d {
        assert(n / m == 0) by (nonlinear_arith)
            requires
                0 <= n < m,
        ;
    }
    assert(d / (2 * d) == 0) by (nonlinear_arith)
        requires
            d > 0,
    ;
}

/// Limits a mixed value to the range of a sample.
pub fn clamp_sample(x: i64) -> (r: i32)
    ensures
        r == clamp_unit(x as int),
        -ONE <= r <= ONE,
{
    if x < -(ONE as i64) {
        -ONE
    } else if x > ONE as i64 {
        ONE
    } else {
        x as i32
    }
}

} // verus!
