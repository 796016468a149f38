//! Pitch to frequency, in equal temperament.
//!
//! A frequency is an integer count of `1 / 65536` hertz. The frequency of a
//! pitch is the exact value `440 * 2^((pitch - 69) / 12)` hertz, rounded down
//! to that unit. The code keeps the twelve frequencies of the highest octave
//! and halves them once per octave below; `lemma_frequency_equal_tempered`
//! proves that this gives the rounded exact value for every pitch.

use vstd::prelude::*;
use vstd::arithmetic::power2::pow2;
use vstd::arithmetic::power2::lemma2_to64;
use vstd::arithmetic::power2::lemma_pow2_unfold;
use vstd::arithmetic::power2::lemma_pow2_pos;

verus! {

/// The highest pitch.
pub const MAX_PITCH: u8 = 127;

/// The pitch of the reference tone, 440 hertz.
pub const REFERENCE_PITCH: u8 = 69;

/// How many frequency units make one hertz.
pub const UNITS_PER_HERTZ: u32 = 65536;

/// The frequency of the reference tone, in frequency units.
pub const REFERENCE_FREQUENCY: u32 = 28835840;

/// Whether `pitch` names a tone of the scale.
pub open spec fn valid_pitch(pitch: int) -> bool {
    0 <= pitch <= 127
}

/// The frequencies of the highest octave, pitches 116 to 127, by their
/// distance `k` from pitch 116.
pub open spec fn top_octave(k: int) -> int {
    if k == 0 {
        435478538
    } else if k == 1 {
        461373440
    } else if k == 2 {
        488808132
    } else if k == 3 {
        517874176
    } else if k == 4 {
        548668577
    } else if k == 5 {
        581294108
    } else if k == 6 {
        615859655
    } else if k == 7 {
        652480576
    } else if k == 8 {
        691279090
    } else if k == 9 {
        732384684
    } else if k == 10 {
        775934543
    } else {
        822074012
    }
}

/// The frequency of `pitch` in frequency units: an entry of the highest
/// octave, halved once for every octave that `pitch` lies below it.
pub open spec fn frequency(pitch: int) -> int
    decreases 127 - pitch,
{
    if pitch >= 116 {
        top_octave(pitch - 116)
    } else if pitch >= 0 {
        frequency(pitch + 12) / 2
    } else {
        0
    }
}

/// By how much the phase of a tone of `pitch` grows per frame at
/// `sample_rate` frames per second, a full cycle being `2^32`.
pub open spec fn phase_increment(pitch: int, sample_rate: int) -> int {
    frequency(pitch) * 65536 / sample_rate
}

/// `x` to the power of twelve.
pub open spec fn twelfth_power(x: int) -> int {
    let x2 = x * x;
    let x4 = x2 * x2;
    (x4 * x4) * x4
}

/// The twelfth power of the exact frequency of pitch 127, in frequency units:
/// `(440 * 65536)^12 * 2^58`, an integer although that frequency is not.
pub open spec fn top_pitch_power() -> int {
    twelfth_power(28835840int) * 0x400_0000_0000_0000int
}

/// Whether `f` is `440 * 65536 * 2^((pitch - 69) / 12)` rounded down.
///
/// With `e = 127 - pitch`, the exact frequency of `pitch` is that of pitch 127
/// divided by `2^(e / 12)`. So `f` is at most the exact frequency when
/// `f^12 * 2^e` is at most the twelfth power of the frequency of pitch 127,
/// and `f + 1` is above it when `(f + 1)^12 * 2^e` is greater.
pub open spec fn is_equal_tempered(f: int, pitch: int) -> bool {
    &&& 0 <= f
    &&& twelfth_power(f) * pow2((127 - pitch) as nat) <= top_pitch_power()
    &&& top_pitch_power() < twelfth_power(f + 1) * pow2((127 - pitch) as nat)
}

proof fn lemma_twelfth_power_increases(x: int, y: int)
    requires
        0 <= x <= y,
    ensures
        0 <= twelfth_power(x) <= twelfth_power(y),
{
    let x2 = x * x;
    let y2 = y * y;
    assert(0 <= x2 <= y2) by (nonlinear_arith)
        requires
            0 <= x <= y,
            x2 == x * x,
            y2 == y * y,
    ;
    let x4 = x2 * x2;
    let y4 = y2 * y2;
    assert(0 <= x4 <= y4) by (nonlinear_arith)
        requires
            0 <= x2 <= y2,
            x4 == x2 * x2,
            y4 == y2 * y2,
    ;
    assert(0 <= (x4 * x4) * x4 <= (y4 * y4) * y4) by (nonlinear_arith)
        requires
            0 <= x4 <= y4,
    ;
}

proof fn lemma_twelfth_power_of_double(x: int)
    ensures
        twelfth_power(2 * x) == 4096 * twelfth_power(x),
{
    let x2 = x * x;
    let d2 = (2 * x) * (2 * x);
    assert(d2 == 4 * x2) by (nonlinear_arith)
        requires
            x2 == x * x,
            d2 == (2 * x) * (2 * x),
    ;
    let x4 = x2 * x2;
    let d4 = d2 * d2;
    assert(d4 == 16 * x4) by (nonlinear_arith)
        requires
            d2 == 4 * x2,
            x4 == x2 * x2,
            d4 == d2 * d2,
    ;
    assert((d4 * d4) * d4 == 4096 * ((x4 * x4) * x4)) by (nonlinear_arith)
        requires
            d4 == 16 * x4,
    ;
}

proof fn lemma_top_octave_equal_tempered(k: int)
    requires
        0 <= k < 12,
    ensures
        is_equal_tempered(top_octave(k), 116 + k),
{
    lemma2_to64();
    if k == 0 {
        assert(is_equal_tempered(435478538, 116)) by (nonlinear_arith)
            requires
                pow2(11) == 2048,
        ;
    } else if k == 1 {
        assert(is_equal_tempered(461373440, 117)) by (nonlinear_arith)
            requires
                pow2(10) == 1024,
        ;
    } else if k == 2 {
        assert(is_equal_tempered(488808132, 118)) by (nonlinear_arith)
            requires
                pow2(9) == 512,
        ;
    } else if k == 3 {
        assert(is_equal_tempered(517874176, 119)) by (nonlinear_arith)
            requires
                pow2(8) == 256,
        ;
    } else if k == 4 {
        assert(is_equal_tempered(548668577, 120)) by (nonlinear_arith)
            requires
                pow2(7) == 128,
        ;
    } else if k == 5 {
        assert(is_equal_tempered(581294108, 121)) by (nonlinear_arith)
            requires
                pow2(6) == 64,
        ;
    } else if k == 6 {
        assert(is_equal_tempered(615859655, 122)) by (nonlinear_arith)
            requires
                pow2(5) == 32,
        ;
    } else if k == 7 {
        assert(is_equal_tempered(652480576, 123)) by (nonlinear_arith)
            requires
                pow2(4) == 16,
        ;
    } else if k == 8 {
        assert(is_equal_tempered(691279090, 124)) by (nonlinear_arith)
            requires
                pow2(3) == 8,
        ;
    } else if k == 9 {
        assert(is_equal_tempered(732384684, 125)) by (nonlinear_arith)
            requires
                pow2(2) == 4,
        ;
    } else if k == 10 {
        assert(is_equal_tempered(775934543, 126)) by (nonlinear_arith)
            requires
                pow2(1) == 2,
        ;
    } else {
        assert(is_equal_tempered(822074012, 127)) by (nonlinear_arith)
            requires
                pow2(0) == 1,
        ;
    }
}

/// Halving the rounded frequency of a pitch gives the rounded frequency of the
/// pitch an octave below.
proof fn lemma_octave_down(f: int, pitch: int)
    requires
        0 <= pitch <= 115,
        is_equal_tempered(f, pitch + 12),
    ensures
        is_equal_tempered(f / 2, pitch),
{
    let q = f / 2;
    let e = (127 - pitch - 12) as nat;
    let scale = pow2(e) as int;
    assert(pow2((127 - pitch) as nat) == 4096 * scale) by {
        lemma2_to64();
        vstd::arithmetic::power2::lemma_pow2_adds(12, e);
    }
    lemma_pow2_pos(e);
    lemma_twelfth_power_of_double(q);
    lemma_twelfth_power_of_double(q + 1);
    lemma_twelfth_power_increases(2 * q, f);
    lemma_twelfth_power_increases(f + 1, 2 * (q + 1));
    lemma_twelfth_power_increases(0, q);
    let low = twelfth_power(q);
    let high = twelfth_power(q + 1);
    let at = twelfth_power(f);
    let above = twelfth_power(f + 1);
    assert(low * (4096 * scale) <= at * scale) by (nonlinear_arith)
        requires
            4096 * low <= at,
            0 < scale,
    ;
    assert(above * scale <= high * (4096 * scale)) by (nonlinear_arith)
        requires
            above <= 4096 * high,
            0 < scale,
    ;
}

/// The frequency of every pitch is the exact frequency of equal temperament,
/// `440 * 2^((pitch - 69) / 12)` hertz, rounded down to a frequency unit.
pub proof fn lemma_frequency_equal_tempered(pitch: int)
    requires
        valid_pitch(pitch),
    ensures
        is_equal_tempered(frequency(pitch), pitch),
    decreases 127 - pitch,
{
    if pitch >= 116 {
        lemma_top_octave_equal_tempered(pitch - 116);
    } else {
        lemma_frequency_equal_tempered(pitch + 12);
        lemma_octave_down(frequency(pitch + 12), pitch);
    }
}

/// The reference pitch sounds at exactly 440 hertz.
pub proof fn lemma_reference_frequency()
    ensures
        frequency(69) == 440 * 65536,
        frequency(69) == REFERENCE_FREQUENCY,
{
    reveal_with_fuel(frequency, 6);
}

/// How many times a frequency of the pitches 115 to 126 is halved to reach
/// that of `pitch`.
spec fn halvings(pitch: int) -> nat {
    ((126 - pitch) / 12) as nat
}

/// The distance from a frequency to the next shrinks by no more than a half
/// per octave.
proof fn lemma_frequency_gap(pitch: int)
    requires
        0 <= pitch < 127,
    ensures
        (frequency(pitch + 1) - frequency(pitch) + 1) * pow2(halvings(pitch)) >= 24000000,
    decreases 127 - pitch,
{
    lemma2_to64();
    if pitch >= 115 {
        assert(halvings(pitch) == 0);
        assert(frequency(pitch + 1) - frequency(pitch) + 1 >= 24000000) by {
            reveal_with_fuel(frequency, 3);
        }
        assert(pow2(0) == 1);
    } else {
        lemma_frequency_gap(pitch + 12);
        let h = halvings(pitch + 12);
        let a = frequency(pitch + 13);
        let b = frequency(pitch + 12);
        assert(halvings(pitch) == h + 1);
        lemma_pow2_unfold(h + 1);
        lemma_pow2_pos(h);
        let scale = pow2(h) as int;
        assert((a / 2 - b / 2 + 1) * (2 * scale) >= (a - b + 1) * scale) by (nonlinear_arith)
            requires
                0 < scale,
                2 * (a / 2 - b / 2 + 1) >= a - b + 1,
        ;
    }
}

/// Each pitch sounds higher than the one below it.
pub proof fn lemma_frequency_next_is_higher(pitch: int)
    requires
        0 <= pitch < 127,
    ensures
        frequency(pitch) < frequency(pitch + 1),
{
    lemma_frequency_gap(pitch);
    lemma2_to64();
    let h = halvings(pitch);
    let gap = frequency(pitch + 1) - frequency(pitch);
    if h < 10 {
        vstd::arithmetic::power2::lemma_pow2_strictly_increases(h, 10);
    }
    let scale = pow2(h) as int;
    assert(gap >= 1) by (nonlinear_arith)
        requires
            (gap + 1) * scale >= 24000000,
            0 <= scale <= 1024,
    ;
}

/// The frequency rises strictly with the pitch.
pub proof fn lemma_frequency_strictly_increasing(low: int, high: int)
    requires
        0 <= low < high <= 127,
    ensures
        frequency(low) < frequency(high),
    decreases high - low,
{
    lemma_frequency_next_is_higher(high - 1);
    if low < high - 1 {
        lemma_frequency_strictly_increasing(low, high - 1);
    }
}

/// Every frequency lies between those of the lowest and the highest pitch,
/// a little over eight hertz and a little over twelve and a half kilohertz.
pub proof fn lemma_frequency_bounds(pitch: int)
    requires
        valid_pitch(pitch),
    ensures
        535809 <= frequency(pitch) <= 822074012,
{
    assert(frequency(0) == 535809) by {
        reveal_with_fuel(frequency, 12);
    }
    assert(frequency(127) == 822074012);
    if 0 < pitch {
        lemma_frequency_strictly_increasing(0, pitch);
    }
    if pitch < 127 {
        lemma_frequency_strictly_increasing(pitch, 127);
    }
}

/// The frequency of a note of the scale, in units of `1 / 65536` hertz, or
/// `None` for a number above the highest pitch.
pub fn midi_note_to_freq(note: u8) -> (freq: Option<u32>)
    ensures
        valid_pitch(note as int) ==> freq is Some && freq.unwrap() == frequency(note as int)
            && is_equal_tempered(freq.unwrap() as int, note as int) && 535809 <= freq.unwrap()
            <= 822074012,
        !valid_pitch(note as int) ==> freq is None,
{
    if note > MAX_PITCH {
        return None;
    }
    proof {
        lemma_frequency_equal_tempered(note as int);
        lemma_frequency_bounds(note as int);
    }
    let octaves: u8 = (MAX_PITCH - note) / 12;
    let k: u8 = note + 12 * octaves - 116;
    let mut f: u32 = top_octave_entry(k);
    let mut done: u8 = 0;
    while done < octaves
        invariant
            done <= octaves <= 10,
            116 <= note + 12 * octaves <= 127,
            f == frequency(note + 12 * (octaves - done)),
        decreases octaves - done,
    {
        f = f / 2;
        done = done + 1;
    }
    Some(f)
}

/// The entry of the highest octave at distance `k` from pitch 116.
fn top_octave_entry(k: u8) -> (f: u32)
    requires
        k < 12,
    ensures
        f == top_octave(k as int),
{
    if k == 0 {
        435478538
    } else if k == 1 {
        461373440
    } else if k == 2 {
        488808132
    } else if k == 3 {
        517874176
    } else if k == 4 {
        548668577
    } else if k == 5 {
        581294108
    } else if k == 6 {
        615859655
    } else if k == 7 {
        652480576
    } else if k == 8 {
        691279090
    } else if k == 9 {
        732384684
    } else if k == 10 {
        775934543
    } else {
        822074012
    }
}

/// The phase increment per frame of a note of the scale at `sample_rate`
/// frames per second, a full cycle being `2^32`: the frequency divided by the
/// sample rate, rounded down. `None` for a number above the highest pitch or
/// a sample rate of zero.
pub fn phase_increment_of(note: u8, sample_rate: u32) -> (increment: Option<u64>)
    ensures
        valid_pitch(note as int) && sample_rate > 0 ==> increment is Some && increment.unwrap()
            == phase_increment(note as int, sample_rate as int) && increment.unwrap() <= 822074012
            * 65536,
        !valid_pitch(note as int) || sample_rate == 0 ==> increment is None,
{
    if sample_rate == 0 {
        return None;
    }
    match midi_note_to_freq(note) {
        Some(f) => {
            let scaled: u64 = (f as u64) * 65536;
            proof {
                let r = sample_rate as int;
                assert(0 <= scaled as int / r <= scaled as int) by (nonlinear_arith)
                    requires
                        0 <= scaled as int,
                        r >= 1,
                ;
            }
            Some(scaled / (sample_rate as u64))
        },
        None => None,
    }
}

} // verus!
