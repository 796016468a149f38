//! The sine wave, to within one sample step of the true sine.
//!
//! The sine of the first quarter of a cycle is computed from its Taylor
//! series around zero, up to the ninth power of the angle, in fixed-point
//! arithmetic with thirty bits after the point; the other three quarters
//! follow by symmetry. `lemma_sine_accuracy` proves how close the result is:
//! it lies within one sample step of every number between the Taylor
//! polynomial of the eleventh degree and that of the ninth, taken at the
//! angle of the phase, and the true sine is such a number.

use vstd::prelude::*;
use crate::fixed::ONE;

verus! {

/// The phase at the end of the first quarter of a cycle. It also serves as
/// the fixed-point scale of the series: a number `n` stands for `n / 2^30`.
pub const QUARTER: u32 = 0x4000_0000;

/// The phase at the middle of a cycle.
pub const HALF_CYCLE: u32 = 0x8000_0000;

/// The coefficient of the first power of the series, `pi / 2`, rounded down.
pub const C1: u32 = 1686629713;

/// The coefficient of the third power, `(pi / 2)^3 / 3!`, rounded down.
pub const C3: u32 = 693598668;

/// The coefficient of the fifth power, `(pi / 2)^5 / 5!`, rounded down.
pub const C5: u32 = 85569305;

/// The coefficient of the seventh power, `(pi / 2)^7 / 7!`, rounded down.
pub const C7: u32 = 5026995;

/// The coefficient of the ninth power, `(pi / 2)^9 / 9!`, rounded down.
pub const C9: u32 = 172272;

/// The coefficient of the eleventh power, `(pi / 2)^11 / 11!`, rounded down.
/// The code stops before this power; the proof of its accuracy needs it.
pub const C11: u32 = 3864;

/// One step of the series in Horner's form: `c - w * p`, in fixed point.
pub open spec fn series_step(c: int, w: int, p: int) -> int {
    c - (w * p) / (QUARTER as int)
}

/// The series at position `q` of a quarter cycle of `2^30` steps, before it
/// is rounded to a sample: with `z = q / 2^30`, the fixed-point value of
/// `z * (C1 - z^2 * (C3 - z^2 * (C5 - z^2 * (C7 - z^2 * C9))))`.
pub open spec fn series(q: int) -> int {
    let w = (q * q) / (QUARTER as int);
    let h7 = series_step(C7 as int, w, C9 as int);
    let h5 = series_step(C5 as int, w, h7);
    let h3 = series_step(C3 as int, w, h5);
    let h1 = series_step(C1 as int, w, h3);
    (q * h1) / (QUARTER as int)
}

/// The sine at position `q` of the first quarter of a cycle: the series,
/// rounded to the nearest sample and no higher than full scale.
pub open spec fn sine_quarter(q: int) -> int {
    let rounded = (series(q) + 16384) / 32768;
    if rounded > ONE {
        ONE as int
    } else {
        rounded
    }
}

/// How far `phase` is from the nearest start or middle of a cycle: the
/// position within the first quarter at which the sine has the same
/// magnitude.
pub open spec fn quarter_position(phase: int) -> int {
    let within = phase % (HALF_CYCLE as int);
    if within <= QUARTER {
        within
    } else {
        HALF_CYCLE - within
    }
}

/// Sine wave: the sine of the quarter position, positive in the first half
/// of the cycle and negative in the second.
pub open spec fn sine(phase: int) -> int {
    if phase < HALF_CYCLE {
        sine_quarter(quarter_position(phase))
    } else {
        -sine_quarter(quarter_position(phase))
    }
}

/// What a step of the series is bounded by: it takes off no more than `p`.
proof fn lemma_series_step_range(c: int, w: int, p: int)
    requires
        0 <= w <= QUARTER,
        0 <= p,
    ensures
        c - p <= series_step(c, w, p) <= c,
        QUARTER * ((w * p) / (QUARTER as int)) <= w * p < QUARTER * ((w * p) / (QUARTER as int))
            + QUARTER,
{
    let s = QUARTER as int;
    let x = w * p;
    assert(0 <= x <= s * p) by (nonlinear_arith)
        requires
            x == w * p,
            0 <= w <= s,
            0 <= p,
    ;
    assert(0 <= x / s <= p && s * (x / s) <= x < s * (x / s) + s) by (nonlinear_arith)
        requires
            0 <= x <= s * p,
            s == 0x4000_0000,
    ;
}

/// One step of a Taylor polynomial in Horner's form, in exact arithmetic:
/// where `next / scale` is the value of the inner part, `q2 / 2^60` the
/// square of the position and `c / 2^30` a coefficient, the numerator of
/// `c / 2^30 - (q2 / 2^60) * (next / scale)` over `exact_scale(scale)`.
pub open spec fn exact_step(c: int, q2: int, next: int, scale: int) -> int {
    c * (QUARTER * scale) - q2 * next
}

/// The denominator that goes with `exact_step`: `2^60 * scale`.
pub open spec fn exact_scale(scale: int) -> int {
    QUARTER * (QUARTER * scale)
}

/// Where the inner part of the series is at least its exact value less
/// `slack`, the next step is at most its exact value plus `slack + 4` and the
/// difference of the coefficients.
proof fn lemma_step_from_above(
    code: int,
    c: int,
    q2: int,
    w: int,
    inner: int,
    next: int,
    scale: int,
    slack: int,
)
    requires
        0 <= q2,
        QUARTER * w <= q2 < QUARTER * w + QUARTER,
        0 <= w <= QUARTER,
        0 <= inner <= 2 * QUARTER,
        0 < scale,
        0 <= slack <= QUARTER,
        inner * scale >= QUARTER * next - slack * scale,
    ensures
        series_step(code, w, inner) * exact_scale(scale) <= QUARTER * exact_step(
            c,
            q2,
            next,
            scale,
        ) + (slack + 4 + code - c) * exact_scale(scale),
{
    let s = QUARTER as int;
    lemma_series_step_range(code, w, inner);
    let f = (w * inner) / s;
    let both = inner + slack;
    let a = both * scale;
    assert(s * next <= a) by (nonlinear_arith)
        requires
            inner * scale >= s * next - slack * scale,
            a == (inner + slack) * scale,
    ;
    assert(0 <= a) by (nonlinear_arith)
        requires
            a == both * scale,
            0 <= both,
            0 < scale,
    ;
    // q2 * (s * next) <= q2 * a <= (s * w + s) * a
    let left = q2 * next;
    assert(s * left <= q2 * a) by (nonlinear_arith)
        requires
            left == q2 * next,
            s * next <= a,
            0 <= q2,
    ;
    assert(q2 * a <= (s * w + s) * a) by (nonlinear_arith)
        requires
            q2 <= s * w + s,
            0 <= a,
    ;
    // (w + 1) * both <= s * (f + slack + 4)
    let wide = (w + 1) * both;
    assert(wide <= s * (f + slack + 4)) by (nonlinear_arith)
        requires
            wide == (w + 1) * (inner + slack),
            w * inner < s * f + s,
            0 <= inner <= 2 * s,
            0 <= w <= s,
            0 <= slack <= s,
            s == 0x4000_0000,
    {
        assert(wide == w * inner + inner + w * slack + slack);
        assert(w * slack <= s * slack);
    }
    let g = f + slack + 4;
    assert((s * w + s) * a == s * (wide * scale)) by (nonlinear_arith)
        requires
            a == both * scale,
            wide == (w + 1) * both,
    ;
    assert(wide * scale <= s * (g * scale)) by (nonlinear_arith)
        requires
            wide <= s * g,
            0 < scale,
    ;
    let gs = g * scale;
    assert(s * left <= s * (s * gs));
    // unfold the claim
    let fs = f * scale;
    let cs = code * scale;
    let es = (slack + 4 + code - c) * scale;
    assert(gs == fs + (slack + 4) * scale) by (nonlinear_arith)
        requires
            gs == (f + slack + 4) * scale,
            fs == f * scale,
    ;
    assert(series_step(code, w, inner) * exact_scale(scale) == s * (s * (cs - fs)))
        by (nonlinear_arith)
        requires
            series_step(code, w, inner) == code - f,
            exact_scale(scale) == s * (s * scale),
            cs == code * scale,
            fs == f * scale,
    ;
    assert(s * exact_step(c, q2, next, scale) + (slack + 4 + code - c) * exact_scale(scale) == s
        * (s * (cs + (slack + 4) * scale)) - s * left) by (nonlinear_arith)
        requires
            exact_step(c, q2, next, scale) == c * (s * scale) - left,
            exact_scale(scale) == s * (s * scale),
            cs == code * scale,
    ;
}

/// Where the inner part of the series is at most its exact value plus
/// `slack`, the next step is at least its exact value less `slack` and the
/// difference of the coefficients.
proof fn lemma_step_from_below(
    code: int,
    c: int,
    q2: int,
    w: int,
    inner: int,
    next: int,
    scale: int,
    slack: int,
)
    requires
        0 <= q2,
        QUARTER * w <= q2 < QUARTER * w + QUARTER,
        0 <= w <= QUARTER,
        0 <= slack <= inner,
        0 < scale,
        inner * scale <= QUARTER * next + slack * scale,
    ensures
        series_step(code, w, inner) * exact_scale(scale) >= QUARTER * exact_step(
            c,
            q2,
            next,
            scale,
        ) - (slack + c - code) * exact_scale(scale),
{
    let s = QUARTER as int;
    lemma_series_step_range(code, w, inner);
    let f = (w * inner) / s;
    let less = inner - slack;
    let a = less * scale;
    assert(a <= s * next) by (nonlinear_arith)
        requires
            inner * scale <= s * next + slack * scale,
            a == (inner - slack) * scale,
    ;
    assert(0 <= a) by (nonlinear_arith)
        requires
            a == less * scale,
            0 <= less,
            0 < scale,
    ;
    let left = q2 * next;
    assert(q2 * a <= s * left) by (nonlinear_arith)
        requires
            left == q2 * next,
            a <= s * next,
            0 <= q2,
    ;
    assert((s * w) * a <= q2 * a) by (nonlinear_arith)
        requires
            s * w <= q2,
            0 <= a,
    ;
    let narrow = w * less;
    assert(narrow >= s * (f - slack)) by (nonlinear_arith)
        requires
            narrow == w * (inner - slack),
            s * f <= w * inner,
            0 <= w <= s,
            0 <= slack,
    {
        assert(narrow == w * inner - w * slack);
        assert(w * slack <= s * slack);
    }
    let g = f - slack;
    assert((s * w) * a == s * (narrow * scale)) by (nonlinear_arith)
        requires
            a == less * scale,
            narrow == w * less,
    ;
    assert(narrow * scale >= s * (g * scale)) by (nonlinear_arith)
        requires
            narrow >= s * g,
            0 < scale,
    ;
    let gs = g * scale;
    assert(s * left >= s * (s * gs));
    let fs = f * scale;
    let cs = code * scale;
    assert(gs == fs - slack * scale) by (nonlinear_arith)
        requires
            gs == (f - slack) * scale,
            fs == f * scale,
    ;
    assert(series_step(code, w, inner) * exact_scale(scale) == s * (s * (cs - fs)))
        by (nonlinear_arith)
        requires
            series_step(code, w, inner) == code - f,
            exact_scale(scale) == s * (s * scale),
            cs == code * scale,
            fs == f * scale,
    ;
    assert(s * exact_step(c, q2, next, scale) - (slack + c - code) * exact_scale(scale) == s * (s
        * (cs - slack * scale)) - s * left) by (nonlinear_arith)
        requires
            exact_step(c, q2, next, scale) == c * (s * scale) - left,
            exact_scale(scale) == s * (s * scale),
            cs == code * scale,
    ;
}

/// The Taylor polynomial of the sine at position `q` of a quarter cycle, in
/// exact arithmetic. With `z = q / 2^30` and each coefficient in units of
/// `2^-30`, the result is the numerator of
/// `c1 z - c3 z^3 + c5 z^5 - c7 z^7 + c9 z^9 - c11 z^11` over
/// `2^30 * taylor_scale()`.
pub open spec fn taylor(q: int, c1: int, c3: int, c5: int, c7: int, c9: int, c11: int) -> int {
    q * taylor_core(q * q, c1, c3, c5, c7, c9, c11)
}

/// The Taylor polynomial without its outermost factor: with `q2 / 2^60` the
/// square of the position, the numerator of
/// `c1 - c3 z^2 + c5 z^4 - c7 z^6 + c9 z^8 - c11 z^10` over `taylor_scale()`.
pub open spec fn taylor_core(q2: int, c1: int, c3: int, c5: int, c7: int, c9: int, c11: int)
    -> int {
    let d5 = QUARTER as int;
    let n4 = exact_step(c9, q2, c11, d5);
    let d4 = exact_scale(d5);
    let n3 = exact_step(c7, q2, n4, d4);
    let d3 = exact_scale(d4);
    let n2 = exact_step(c5, q2, n3, d3);
    let d2 = exact_scale(d3);
    let n1 = exact_step(c3, q2, n2, d2);
    let d1 = exact_scale(d2);
    exact_step(c1, q2, n1, d1)
}

/// The denominator that goes with `taylor`, less one factor of `2^30`:
/// `2^330`.
pub open spec fn taylor_scale() -> int {
    exact_scale(exact_scale(exact_scale(exact_scale(exact_scale(QUARTER as int)))))
}

/// A sample on the scale of `taylor`: where a numerator `n` of that scale
/// stands for the number `t`, `sample <= ONE * t` holds exactly when
/// `sample_on_taylor_scale(sample) <= n`, and likewise the other way round.
pub open spec fn sample_on_taylor_scale(sample: int) -> int {
    sample * (32768 * taylor_scale())
}

/// The Taylor polynomial of the eleventh degree with every coefficient
/// rounded against it: a number that is at most the sine of the angle of `q`.
pub open spec fn taylor_below(q: int) -> int {
    taylor(q, C1 as int, C3 + 1, C5 as int, C7 + 1, C9 as int, C11 + 1)
}

/// The Taylor polynomial of the ninth degree with every coefficient rounded
/// in its favour: a number that is at least the sine of the angle of `q`.
pub open spec fn taylor_above(q: int) -> int {
    taylor(q, C1 + 1, C3 as int, C5 + 1, C7 as int, C9 + 1, 0)
}

/// The odd powers of `x` up to the eleventh.
pub open spec fn odd_power(x: int, k: int) -> int {
    let x2 = x * x;
    let x3 = x2 * x;
    let x5 = x3 * x2;
    let x7 = x5 * x2;
    let x9 = x7 * x2;
    if k == 1 {
        x
    } else if k == 3 {
        x3
    } else if k == 5 {
        x5
    } else if k == 7 {
        x7
    } else if k == 9 {
        x9
    } else {
        x9 * x2
    }
}

/// The factorials of the odd numbers up to eleven.
pub open spec fn odd_factorial(k: int) -> int {
    if k == 1 {
        1
    } else if k == 3 {
        6
    } else if k == 5 {
        120
    } else if k == 7 {
        5040
    } else if k == 9 {
        362880
    } else {
        39916800
    }
}

/// Whether `c / 2^30 <= (p / 2)^k / k! <= (c + 1) / 2^30` for every number
/// `p` from 3.141592653589793 to 3.141592653589794, and so for `pi`.
pub open spec fn is_coefficient(c: int, k: int) -> bool {
    let unit = 1_000_000_000_000_000int;
    let low = 3_141_592_653_589_793int;
    let high = 3_141_592_653_589_794int;
    &&& c * odd_factorial(k) * odd_power(2 * unit, k) <= QUARTER * odd_power(low, k)
    &&& QUARTER * odd_power(high, k) <= (c + 1) * odd_factorial(k) * odd_power(2 * unit, k)
}

/// Each coefficient of the series is that of the Taylor series of
/// `sin(z * pi / 2)`, rounded down to a multiple of `2^-30`.
pub proof fn lemma_coefficients()
    ensures
        is_coefficient(C1 as int, 1),
        is_coefficient(C3 as int, 3),
        is_coefficient(C5 as int, 5),
        is_coefficient(C7 as int, 7),
        is_coefficient(C9 as int, 9),
        is_coefficient(C11 as int, 11),
{
    assert(is_coefficient(1686629713, 1)) by (nonlinear_arith);
    assert(is_coefficient(693598668, 3)) by (nonlinear_arith);
    assert(is_coefficient(85569305, 5)) by (nonlinear_arith);
    assert(is_coefficient(5026995, 7)) by (nonlinear_arith);
    assert(is_coefficient(172272, 9)) by (nonlinear_arith);
    assert(is_coefficient(3864, 11)) by (nonlinear_arith);
}

/// The steps of the series at square `w`, from the innermost out.
spec fn steps(w: int) -> (int, int, int, int) {
    let h7 = series_step(C7 as int, w, C9 as int);
    let h5 = series_step(C5 as int, w, h7);
    let h3 = series_step(C3 as int, w, h5);
    let h1 = series_step(C1 as int, w, h3);
    (h7, h5, h3, h1)
}

/// Every step of the series stays near its coefficient.
proof fn lemma_steps_range(w: int)
    requires
        0 <= w <= QUARTER,
    ensures
        4854723 <= steps(w).0 <= 5026995,
        80542310 <= steps(w).1 <= 85569305,
        608029363 <= steps(w).2 <= 693598668,
        993031045 <= steps(w).3 <= 1686629713,
{
    let (h7, h5, h3, h1) = steps(w);
    lemma_series_step_range(C7 as int, w, C9 as int);
    lemma_series_step_range(C5 as int, w, h7);
    lemma_series_step_range(C3 as int, w, h5);
    lemma_series_step_range(C1 as int, w, h3);
}

/// The square of a position of the quarter cycle, and its fixed-point value.
proof fn lemma_square(q: int)
    requires
        0 <= q <= QUARTER,
    ensures
        0 <= q * q <= 0x1000_0000_0000_0000,
        0 <= (q * q) / (QUARTER as int) <= QUARTER,
        QUARTER * ((q * q) / (QUARTER as int)) <= q * q < QUARTER * ((q * q) / (QUARTER as int))
            + QUARTER,
{
    let s = QUARTER as int;
    let q2 = q * q;
    assert(0 <= q2 <= s * s) by (nonlinear_arith)
        requires
            q2 == q * q,
            0 <= q <= s,
    ;
    assert(0 <= q2 / s <= s && s * (q2 / s) <= q2 < s * (q2 / s) + s) by (nonlinear_arith)
        requires
            0 <= q2 <= s * s,
            s == 0x4000_0000,
    ;
}

/// The outermost step of the series is at least the Taylor polynomial of the
/// ninth degree, rounded in its favour, less eleven units of `2^-30`.
proof fn lemma_series_core_above(q: int)
    requires
        0 <= q <= QUARTER,
    ensures
        steps((q * q) / (QUARTER as int)).3 * taylor_scale() >= QUARTER * taylor_core(
            q * q,
            C1 + 1,
            C3 as int,
            C5 + 1,
            C7 as int,
            C9 + 1,
            0,
        ) - 11 * taylor_scale(),
{
    let s = QUARTER as int;
    let q2 = q * q;
    let w = q2 / s;
    lemma_square(q);
    lemma_steps_range(w);
    let (h7, h5, h3, h1) = steps(w);
    let d5 = s;
    let n4 = exact_step(C9 + 1, q2, 0, d5);
    let d4 = exact_scale(d5);
    let n3 = exact_step(C7 as int, q2, n4, d4);
    let d3 = exact_scale(d4);
    let n2 = exact_step(C5 + 1, q2, n3, d3);
    let d2 = exact_scale(d3);
    let n1 = exact_step(C3 as int, q2, n2, d2);
    let d1 = exact_scale(d2);
    assert(q2 * 0 == 0);
    assert(C9 * d4 >= s * n4 - 1 * d4);
    lemma_step_from_above(C7 as int, C7 as int, q2, w, C9 as int, n4, d4, 1);
    lemma_step_from_below(C5 as int, C5 + 1, q2, w, h7, n3, d3, 5);
    lemma_step_from_above(C3 as int, C3 as int, q2, w, h5, n2, d2, 6);
    lemma_step_from_below(C1 as int, C1 + 1, q2, w, h3, n1, d1, 10);
}

/// The outermost step of the series is at most the Taylor polynomial of the
/// eleventh degree, rounded against it, plus 3875 units of `2^-30`.
proof fn lemma_series_core_below(q: int)
    requires
        0 <= q <= QUARTER,
    ensures
        steps((q * q) / (QUARTER as int)).3 * taylor_scale() <= QUARTER * taylor_core(
            q * q,
            C1 as int,
            C3 + 1,
            C5 as int,
            C7 + 1,
            C9 as int,
            C11 + 1,
        ) + 3875 * taylor_scale(),
{
    let s = QUARTER as int;
    let q2 = q * q;
    let w = q2 / s;
    lemma_square(q);
    lemma_steps_range(w);
    let (h7, h5, h3, h1) = steps(w);
    let d5 = s;
    let n4 = exact_step(C9 as int, q2, C11 + 1, d5);
    let d4 = exact_scale(d5);
    let n3 = exact_step(C7 + 1, q2, n4, d4);
    let d3 = exact_scale(d4);
    let n2 = exact_step(C5 as int, q2, n3, d3);
    let d2 = exact_scale(d3);
    let n1 = exact_step(C3 + 1, q2, n2, d2);
    let d1 = exact_scale(d2);
    assert(q2 <= s * s) by (nonlinear_arith)
        requires
            q2 == q * q,
            0 <= q <= s,
    ;
    assert(C9 * d4 <= s * n4 + 3865 * d4);
    lemma_step_from_below(C7 as int, C7 + 1, q2, w, C9 as int, n4, d4, 3865);
    lemma_step_from_above(C5 as int, C5 as int, q2, w, h7, n3, d3, 3866);
    lemma_step_from_below(C3 as int, C3 + 1, q2, w, h5, n2, d2, 3870);
    lemma_step_from_above(C1 as int, C1 as int, q2, w, h3, n1, d1, 3871);
}

/// The sine of the first quarter of a cycle lies within one sample step of
/// the true sine.
///
/// Position `q` stands for the angle `x = (q / 2^30) * (pi / 2)`. For every
/// angle from zero on, the Taylor polynomials of the sine that end in a
/// negative term lie at or below the sine, and those that end in a positive
/// term at or above it. So `taylor_below(q)` stands for a number that is at
/// most `sin(x)`, and `taylor_above(q)` for one that is at least `sin(x)`
/// (see `lemma_coefficients` for their coefficients). This lemma proves
/// `sine_quarter(q) - 1 <= ONE * below` and `ONE * above <= sine_quarter(q)
/// + 1`; the second is left out where the result is `ONE`, which no sine
/// exceeds. Together: `|sine_quarter(q) - ONE * sin(x)| <= 1`.
pub proof fn lemma_sine_quarter_accuracy(q: int)
    requires
        0 <= q <= QUARTER,
    ensures
        0 <= sine_quarter(q) <= ONE,
        sample_on_taylor_scale(sine_quarter(q) - 1) <= taylor_below(q),
        sine_quarter(q) == ONE || taylor_above(q) <= sample_on_taylor_scale(sine_quarter(q) + 1),
{
    let s = QUARTER as int;
    let q2 = q * q;
    let w = q2 / s;
    lemma_square(q);
    lemma_steps_range(w);
    lemma_series_core_above(q);
    lemma_series_core_below(q);
    let h1 = steps(w).3;
    let d0 = taylor_scale();
    let below = taylor_core(q2, C1 as int, C3 + 1, C5 as int, C7 + 1, C9 as int, C11 + 1);
    let above = taylor_core(q2, C1 + 1, C3 as int, C5 + 1, C7 as int, C9 + 1, 0);
    let qp = q * h1;
    let r = qp / s;
    assert(r == series(q));
    assert(0 <= qp) by (nonlinear_arith)
        requires
            qp == q * h1,
            0 <= q,
            0 <= h1,
    ;
    assert(0 <= r && s * r <= qp < s * r + s) by (nonlinear_arith)
        requires
            r == qp / s,
            0 <= qp,
            s == 0x4000_0000,
    ;
    let rounded = (r + 16384) / 32768;
    let sample = sine_quarter(q);
    assert(0 <= rounded && 32768 * rounded <= r + 16384 < 32768 * rounded + 32768);
    assert(0 < d0);
    let qpd = qp * d0;
    let qd = q * d0;
    let rd = r * d0;
    let sd = sample * d0;
    assert(0 <= qd <= s * d0) by (nonlinear_arith)
        requires
            qd == q * d0,
            0 <= q <= s,
            0 < d0,
    ;
    assert(s * rd <= qpd < s * rd + s * d0) by (nonlinear_arith)
        requires
            qpd == qp * d0,
            rd == r * d0,
            s * r <= qp < s * r + s,
            0 < d0,
    ;
    assert(qpd <= s * (q * below) + 3875 * qd) by (nonlinear_arith)
        requires
            qpd == (q * h1) * d0,
            qd == q * d0,
            h1 * d0 <= s * below + 3875 * d0,
            0 <= q,
    {
        assert(q * (h1 * d0) <= q * (s * below + 3875 * d0));
    }
    assert(qpd >= s * (q * above) - 11 * qd) by (nonlinear_arith)
        requires
            qpd == (q * h1) * d0,
            qd == q * d0,
            h1 * d0 >= s * above - 11 * d0,
            0 <= q,
    {
        assert(q * (h1 * d0) >= q * (s * above - 11 * d0));
    }
    assert(32768 * sd <= rd + 16384 * d0) by (nonlinear_arith)
        requires
            sd == sample * d0,
            rd == r * d0,
            32768 * sample <= r + 16384,
            0 < d0,
    ;
    assert(sample_on_taylor_scale(sample - 1) == 32768 * sd - 32768 * d0) by (nonlinear_arith)
        requires
            sample_on_taylor_scale(sample - 1) == (sample - 1) * (32768 * d0),
            sd == sample * d0,
    ;
    assert(sample_on_taylor_scale(sample + 1) == 32768 * sd + 32768 * d0) by (nonlinear_arith)
        requires
            sample_on_taylor_scale(sample + 1) == (sample + 1) * (32768 * d0),
            sd == sample * d0,
    ;
    if sample != ONE {
        assert(sample == rounded);
        assert(32768 * sd + 32768 * d0 >= rd + 16385 * d0) by (nonlinear_arith)
            requires
                sd == sample * d0,
                rd == r * d0,
                32768 * sample + 32768 >= r + 16385,
                0 < d0,
        ;
    }
}

/// Whether `sample` lies within one sample step of `ONE` times the true sine
/// of `phase`: it has the sign of the sine, and its magnitude lies within
/// one step of every number from `taylor_below` to `taylor_above` at the
/// quarter position of the phase, none of them taken above one.
pub open spec fn within_a_step_of_the_sine(sample: int, phase: int) -> bool {
    let q = quarter_position(phase);
    let size = crate::fixed::magnitude(sample);
    &&& phase < HALF_CYCLE ==> sample >= 0
    &&& phase >= HALF_CYCLE ==> sample <= 0
    &&& size <= ONE
    &&& sample_on_taylor_scale(size - 1) <= taylor_below(q)
    &&& size == ONE || taylor_above(q) <= sample_on_taylor_scale(size + 1)
}

/// The sine lies within one sample step of the true sine, at every phase.
///
/// The sine of a phase has the magnitude of the sine at its quarter position
/// and the sign of its half of the cycle. For the magnitude see
/// `lemma_sine_quarter_accuracy`, whose bounds this lemma hands on.
pub proof fn lemma_sine_accuracy(phase: int)
    requires
        0 <= phase < 0x1_0000_0000,
    ensures
        within_a_step_of_the_sine(sine(phase), phase),
        0 <= quarter_position(phase) <= QUARTER,
        -ONE <= sine(phase) <= ONE,
        phase < HALF_CYCLE ==> 0 <= sine(phase) == sine_quarter(quarter_position(phase)),
        phase >= HALF_CYCLE ==> 0 >= sine(phase) == -sine_quarter(quarter_position(phase)),
        sample_on_taylor_scale(sine_quarter(quarter_position(phase)) - 1) <= taylor_below(
            quarter_position(phase),
        ),
        sine_quarter(quarter_position(phase)) == ONE || taylor_above(quarter_position(phase))
            <= sample_on_taylor_scale(sine_quarter(quarter_position(phase)) + 1),
{
    lemma_sine_quarter_accuracy(quarter_position(phase));
}

/// The sine wave passes through zero at the start and the middle of the
/// cycle and reaches full scale at the quarters.
pub proof fn lemma_sine_landmarks()
    ensures
        sine(0) == 0,
        sine(0x4000_0000) == ONE,
        sine(0x8000_0000) == 0,
        sine(0xC000_0000) == -ONE,
{
    assert(quarter_position(0) == 0);
    assert(quarter_position(0x4000_0000) == 0x4000_0000);
    assert(quarter_position(0x8000_0000) == 0);
    assert(quarter_position(0xC000_0000) == 0x4000_0000);
    assert(sine_quarter(0) == 0) by (nonlinear_arith);
    assert(sine_quarter(0x4000_0000) == 32768) by (nonlinear_arith);
}

/// The second half of the sine wave is the first turned upside down, and
/// each half is the same read forwards and backwards.
pub proof fn lemma_sine_symmetry(phase: int)
    requires
        0 <= phase < HALF_CYCLE,
    ensures
        sine(phase + HALF_CYCLE) == -sine(phase),
        0 < phase ==> sine(HALF_CYCLE - phase) == sine(phase),
{
    assert((phase + 0x8000_0000) % 0x8000_0000 == phase % 0x8000_0000);
}

/// Sine wave at `phase`.
pub fn sine_wave(phase: u32) -> (sample: i32)
    ensures
        sample == sine(phase as int),
        within_a_step_of_the_sine(sample as int, phase as int),
        -ONE <= sample <= ONE,
{
    let within: u32 = phase % HALF_CYCLE;
    let q: u64 = if within <= QUARTER {
        within as u64
    } else {
        (HALF_CYCLE - within) as u64
    };
    let scale: u64 = QUARTER as u64;
    proof {
        lemma_sine_accuracy(phase as int);
        lemma_square(q as int);
        let w = (q * q) / (scale as int);
        lemma_steps_range(w);
        let (h7, h5, h3, h1) = steps(w);
        lemma_series_step_range(C7 as int, w, C9 as int);
        lemma_series_step_range(C5 as int, w, h7);
        lemma_series_step_range(C3 as int, w, h5);
        lemma_series_step_range(C1 as int, w, h3);
        assert(0 <= q * h1 <= 0x4000_0000 * 1686629713) by (nonlinear_arith)
            requires
                0 <= q <= 0x4000_0000,
                0 <= h1 <= 1686629713,
        ;
    }
    let w: u64 = (q * q) / scale;
    let h7: u64 = C7 as u64 - (w * (C9 as u64)) / scale;
    let h5: u64 = C5 as u64 - (w * h7) / scale;
    let h3: u64 = C3 as u64 - (w * h5) / scale;
    let h1: u64 = C1 as u64 - (w * h3) / scale;
    let series: u64 = (q * h1) / scale;
    let rounded: u64 = (series + 16384) / 32768;
    let magnitude: i32 = if rounded > 32768 {
        ONE
    } else {
        rounded as i32
    };
    if phase < HALF_CYCLE {
        magnitude
    } else {
        -magnitude
    }
}

} // verus!
