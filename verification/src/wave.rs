//! The four waveforms of an oscillator and their weighted mix.
//!
//! A phase is a position within one cycle, counted in `2^32` steps. Every
//! waveform maps a phase to a sample between `-ONE` and `ONE`. Square,
//! sawtooth and triangle are here; the sine has a file of its own.

use vstd::prelude::*;
use crate::fixed::ONE;
use crate::fixed::magnitude;
use crate::sine::HALF_CYCLE;
use crate::sine::lemma_sine_accuracy;
use crate::sine::sine;
use crate::sine::sine_wave;

verus! {

/// The sum that the four weights of a mix come to.
pub const WEIGHT_TOTAL: u8 = 100;

/// Square wave: full scale in the first half of the cycle, its negative in
/// the second.
pub open spec fn square(phase: int) -> int {
    if phase < HALF_CYCLE {
        ONE as int
    } else {
        -ONE as int
    }
}

/// Sawtooth wave: a ramp from `-ONE` at the start of the cycle up to `ONE`
/// at its end, `phase / 2^32 * 2 * ONE - ONE` rounded to the nearest sample.
pub open spec fn sawtooth(phase: int) -> int {
    (phase + 32768) / 65536 - ONE
}

/// Triangle wave: the ramp folded at the middle of the cycle, so that it
/// falls from `ONE` to `-ONE` over the first half of the cycle and rises
/// again over the second: with `d` the distance of the phase from the
/// middle, `d / 2^31 * 2 * ONE - ONE` rounded to the nearest sample.
pub open spec fn triangle(phase: int) -> int {
    (magnitude(phase - HALF_CYCLE) + 16384) / 32768 - ONE
}

/// The sawtooth and the triangle are their exact values rounded to the
/// nearest sample: 65536 times the sawtooth is within 32768 of
/// `phase - 2^31`, and 32768 times the triangle within 16384 of the distance
/// of the phase from the middle of the cycle less `2^30`.
pub proof fn lemma_ramp_accuracy(phase: int)
    requires
        0 <= phase < 0x1_0000_0000,
    ensures
        -32768 <= 65536 * sawtooth(phase) - (phase - HALF_CYCLE) <= 32768,
        -16384 <= 32768 * triangle(phase) - (magnitude(phase - HALF_CYCLE) - 0x4000_0000) <= 16384,
{
}

/// Every waveform stays within full scale.
pub proof fn lemma_waveform_bounds(phase: int)
    requires
        0 <= phase < 0x1_0000_0000,
    ensures
        -ONE <= square(phase) <= ONE,
        -ONE <= sawtooth(phase) <= ONE,
        -ONE <= triangle(phase) <= ONE,
        -ONE <= sine(phase) <= ONE,
{
    lemma_sine_accuracy(phase);
}

/// Square wave at `phase`.
pub fn square_wave(phase: u32) -> (s: i32)
    ensures
        s == square(phase as int),
{
    if phase < HALF_CYCLE {
        ONE
    } else {
        -ONE
    }
}

/// Sawtooth wave at `phase`.
pub fn sawtooth_wave(phase: u32) -> (s: i32)
    ensures
        s == sawtooth(phase as int),
{
    ((phase as u64 + 32768) / 65536) as i32 - ONE
}

/// Triangle wave at `phase`.
pub fn triangle_wave(phase: u32) -> (s: i32)
    ensures
        s == triangle(phase as int),
{
    let distance: u32 = if phase < HALF_CYCLE {
        HALF_CYCLE - phase
    } else {
        phase - HALF_CYCLE
    };
    ((distance as u64 + 16384) / 32768) as i32 - ONE
}

/// The weights with which the four waveforms enter a voice's tone, in
/// hundredths.
#[derive(Clone, Copy, Debug, PartialEq, Eq)]
pub struct WaveMix {
    pub sine: u8,
    pub square: u8,
    pub sawtooth: u8,
    pub triangle: u8,
}

impl WaveMix {
    /// The weights come to one whole.
    pub open spec fn wf(self) -> bool {
        self.sine + self.square + self.sawtooth + self.triangle == WEIGHT_TOTAL
    }

    /// The mix of the four given weights, if they come to `WEIGHT_TOTAL`.
    pub fn new(sine: u8, square: u8, sawtooth: u8, triangle: u8) -> (mix: Option<WaveMix>)
        ensures
            sine + square + sawtooth + triangle == WEIGHT_TOTAL ==> mix == Some(
                (WaveMix { sine, square, sawtooth, triangle }),
            ),
            sine + square + sawtooth + triangle != WEIGHT_TOTAL ==> mix is None,
    {
        let total: u16 = sine as u16 + square as u16 + sawtooth as u16 + triangle as u16;
        if total == WEIGHT_TOTAL as u16 {
            Some(WaveMix { sine, square, sawtooth, triangle })
        } else {
            None
        }
    }

    /// Three tenths each of sine and square, two tenths each of sawtooth and
    /// triangle.
    pub fn classic() -> (mix: WaveMix)
        ensures
            mix == (WaveMix { sine: 30, square: 30, sawtooth: 20, triangle: 20 }),
            mix.wf(),
    {
        WaveMix { sine: 30, square: 30, sawtooth: 20, triangle: 20 }
    }

    /// The weighted sum of the four waveforms at `phase`, in hundredths of a
    /// sample.
    pub open spec fn weighted(self, phase: int) -> int {
        self.sine * sine(phase) + self.square * square(phase) + self.sawtooth * sawtooth(phase)
            + self.triangle * triangle(phase)
    }

    /// The weighted sum of the four waveforms at `phase`, in hundredths of a
    /// sample.
    pub fn weighted_sum(&self, phase: u32) -> (sum: i32)
        requires
            self.wf(),
        ensures
            sum == self.weighted(phase as int),
            -(WEIGHT_TOTAL * ONE) <= sum <= WEIGHT_TOTAL * ONE,
    {
        proof {
            lemma_waveform_bounds(phase as int);
            lemma_weighted_bound(*self, phase as int);
        }
        let a: i32 = (self.sine as i32) * sine_wave(phase);
        let b: i32 = (self.square as i32) * square_wave(phase);
        let c: i32 = (self.sawtooth as i32) * sawtooth_wave(phase);
        let d: i32 = (self.triangle as i32) * triangle_wave(phase);
        a + b + c + d
    }
}

/// A mix of waveforms within full scale stays within full scale.
pub proof fn lemma_weighted_bound(mix: WaveMix, phase: int)
    requires
        mix.wf(),
        0 <= phase < 0x1_0000_0000,
    ensures
        -(WEIGHT_TOTAL * ONE) <= mix.weighted(phase) <= WEIGHT_TOTAL * ONE,
        -(mix.sine * ONE) <= mix.sine * sine(phase) <= mix.sine * ONE,
        -(mix.square * ONE) <= mix.square * square(phase) <= mix.square * ONE,
        -(mix.sawtooth * ONE) <= mix.sawtooth * sawtooth(phase) <= mix.sawtooth * ONE,
        -(mix.triangle * ONE) <= mix.triangle * triangle(phase) <= mix.triangle * ONE,
{
    lemma_waveform_bounds(phase);
    lemma_scaled_bound(mix.sine as int, sine(phase));
    lemma_scaled_bound(mix.square as int, square(phase));
    lemma_scaled_bound(mix.sawtooth as int, sawtooth(phase));
    lemma_scaled_bound(mix.triangle as int, triangle(phase));
}

proof fn lemma_scaled_bound(w: int, x: int)
    requires
        0 <= w,
        -ONE <= x <= ONE,
    ensures
        -(w * ONE) <= w * x <= w * ONE,
{
    assert(-(w * 32768) <= w * x <= w * 32768) by (nonlinear_arith)
        requires
            0 <= w,
            -32768 <= x <= 32768,
    ;
}

} // verus!
