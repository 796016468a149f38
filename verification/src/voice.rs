//! One voice: the oscillator and envelope of a single pitch.

use vstd::prelude::*;
use crate::envelope::LEVEL_FLOOR;
use crate::envelope::LEVEL_ONE;
use crate::envelope::attack;
use crate::envelope::fall;
use crate::envelope::release;
use crate::envelope::rise;
use crate::fixed::ONE;
use crate::fixed::magnitude;
use crate::fixed::lemma_round_div_bound;
use crate::fixed::round_div;
use crate::wave::WEIGHT_TOTAL;
use crate::wave::WaveMix;
use crate::wave::lemma_weighted_bound;

verus! {

/// The highest velocity of a note.
pub const MAX_VELOCITY: u8 = 127;

/// What the product of a weighted sum, a velocity and a level is divided by
/// to give a sample: `WEIGHT_TOTAL * MAX_VELOCITY * LEVEL_ONE`.
pub const VOICE_DIVISOR: i64 = 13636521164800;

/// The state of one voice.
#[derive(Clone, Copy, Debug, PartialEq, Eq)]
pub struct Voice {
    /// Where the oscillator stands within its cycle of `2^32` steps.
    pub phase: u32,
    /// The envelope level, from 0 to `LEVEL_ONE`. A voice at level zero that
    /// is not held is at rest.
    pub level: u32,
    /// The velocity at which the note was last held.
    pub velocity: u8,
}

/// The phase one frame on: `increment` further, modulo one cycle.
pub open spec fn next_phase(phase: int, increment: int) -> int {
    (phase + increment) % 0x1_0000_0000
}

impl Voice {
    /// The level and the velocity are in range.
    pub open spec fn wf(self) -> bool {
        self.level <= LEVEL_ONE && self.velocity <= MAX_VELOCITY
    }

    /// The voice one frame on.
    ///
    /// While its note is held at velocity `held`, the oscillator advances, the
    /// level rises and the voice takes the velocity of the note. Once the note
    /// is let go (`held` is zero), the level falls, and as long as it has not
    /// fallen to zero the oscillator keeps advancing, at the velocity the note
    /// last had. With the level at zero the voice is at rest and keeps its
    /// phase.
    pub open spec fn step(self, held: int, increment: int, attack_step: int, release_step: int)
        -> Voice {
        if held > 0 {
            Voice {
                phase: next_phase(self.phase as int, increment) as u32,
                level: attack(self.level as int, attack_step) as u32,
                velocity: held as u8,
            }
        } else if release(self.level as int, release_step) > 0 {
            Voice {
                phase: next_phase(self.phase as int, increment) as u32,
                level: release(self.level as int, release_step) as u32,
                velocity: self.velocity,
            }
        } else if self.level > 0 {
            Voice { phase: self.phase, level: 0, velocity: self.velocity }
        } else {
            self
        }
    }

    /// What the voice adds to a frame: the weighted sum of the waveforms at
    /// its phase, times `velocity / 127`, times `level / LEVEL_ONE`, rounded
    /// to the nearest sample.
    pub open spec fn sample(self, mix: WaveMix) -> int {
        round_div(
            mix.weighted(self.phase as int) * self.velocity * self.level,
            VOICE_DIVISOR as int,
        )
    }

    /// The voice at rest at the start of its cycle.
    pub fn new() -> (voice: Voice)
        ensures
            voice == (Voice { phase: 0, level: 0, velocity: 0 }),
            voice.wf(),
    {
        Voice { phase: 0, level: 0, velocity: 0 }
    }

    /// The voice one frame on: see `step`.
    pub fn advance(self, held: u8, increment: u64, attack_step: u32, release_step: u32) -> (next:
        Voice)
        requires
            self.wf(),
            held <= MAX_VELOCITY,
        ensures
            next == self.step(
                held as int,
                increment as int,
                attack_step as int,
                release_step as int,
            ),
            next.wf(),
    {
        if held == 0 && self.level == 0 {
            return self;
        }
        let turn: u64 = increment % 0x1_0000_0000;
        let phase: u32 = ((self.phase as u64 + turn) % 0x1_0000_0000) as u32;
        assert(phase == next_phase(self.phase as int, increment as int));
        if held > 0 {
            Voice { phase, level: rise(self.level, attack_step), velocity: held }
        } else {
            let level: u32 = fall(self.level, release_step);
            if level > 0 {
                Voice { phase, level, velocity: self.velocity }
            } else {
                Voice { phase: self.phase, level: 0, velocity: self.velocity }
            }
        }
    }

    /// What the voice adds to a frame: see `sample`.
    pub fn output(&self, mix: &WaveMix) -> (sample: i32)
        requires
            self.wf(),
            mix.wf(),
        ensures
            sample == self.sample(*mix),
            -ONE <= sample <= ONE,
    {
        if self.level < LEVEL_FLOOR {
            proof {
                lemma_faint_voice_is_silent(*self, *mix);
            }
            return 0;
        }
        let weighted: i64 = mix.weighted_sum(self.phase) as i64;
        proof {
            lemma_voice_product_bound(weighted as int, self.velocity as int, self.level as int);
            lemma_voice_sample_bound(*self, *mix);
        }
        let struck: i64 = weighted * (self.velocity as i64);
        let product: i64 = struck * (self.level as i64);
        if product >= 0 {
            ((2 * product + VOICE_DIVISOR) / (2 * VOICE_DIVISOR)) as i32
        } else {
            -(((2 * (-product) + VOICE_DIVISOR) / (2 * VOICE_DIVISOR)) as i32)
        }
    }
}

/// The product under the division of a sample is bounded by a full-scale
/// sample times the divisor, and each of its factors by its own range.
pub proof fn lemma_voice_product_bound(weighted: int, velocity: int, level: int)
    requires
        -(WEIGHT_TOTAL * ONE) <= weighted <= WEIGHT_TOTAL * ONE,
        0 <= velocity <= MAX_VELOCITY,
        0 <= level <= LEVEL_ONE,
    ensures
        -(WEIGHT_TOTAL * ONE * MAX_VELOCITY) <= weighted * velocity <= WEIGHT_TOTAL * ONE
            * MAX_VELOCITY,
        -(ONE * VOICE_DIVISOR) <= weighted * velocity * level <= ONE * VOICE_DIVISOR,
        level < LEVEL_FLOOR ==> -VOICE_DIVISOR < 2 * (weighted * velocity * level)
            < VOICE_DIVISOR,
{
    let struck = weighted * velocity;
    assert(-416153600 <= struck <= 416153600) by (nonlinear_arith)
        requires
            struck == weighted * velocity,
            -3276800 <= weighted <= 3276800,
            0 <= velocity <= 127,
    ;
    let product = struck * level;
    assert(-(416153600 * 0x4000_0000) <= product <= 416153600 * 0x4000_0000) by (nonlinear_arith)
        requires
            product == struck * level,
            -416153600 <= struck <= 416153600,
            0 <= level <= 0x4000_0000,
    ;
    if level < LEVEL_FLOOR {
        assert(-(416153600 * 16383) <= product <= 416153600 * 16383) by (nonlinear_arith)
            requires
                product == struck * level,
                -416153600 <= struck <= 416153600,
                0 <= level <= 16383,
        ;
    }
}

/// No voice adds more than a full-scale sample.
pub proof fn lemma_voice_sample_bound(voice: Voice, mix: WaveMix)
    requires
        voice.wf(),
        mix.wf(),
    ensures
        -ONE <= voice.sample(mix) <= ONE,
{
    lemma_weighted_bound(mix, voice.phase as int);
    let weighted = mix.weighted(voice.phase as int);
    lemma_voice_product_bound(weighted, voice.velocity as int, voice.level as int);
    lemma_round_div_bound(
        weighted * voice.velocity * voice.level,
        VOICE_DIVISOR as int,
        ONE as int,
    );
}

/// A voice whose level is under `LEVEL_FLOOR` adds nothing: letting such a
/// voice drop to rest changes no sample.
pub proof fn lemma_faint_voice_is_silent(voice: Voice, mix: WaveMix)
    requires
        voice.wf(),
        mix.wf(),
        voice.level < LEVEL_FLOOR,
    ensures
        voice.sample(mix) == 0,
{
    lemma_weighted_bound(mix, voice.phase as int);
    let weighted = mix.weighted(voice.phase as int);
    lemma_voice_product_bound(weighted, voice.velocity as int, voice.level as int);
    lemma_round_div_bound(
        weighted * voice.velocity * voice.level,
        VOICE_DIVISOR as int,
        ONE as int,
    );
}

/// A voice at full level and full velocity sounds exactly the mix of its
/// waveforms, rounded from hundredths to a sample.
pub proof fn lemma_full_voice_is_the_mix(voice: Voice, mix: WaveMix)
    requires
        mix.wf(),
        voice.level == LEVEL_ONE,
        voice.velocity == MAX_VELOCITY,
    ensures
        voice.sample(mix) == round_div(mix.weighted(voice.phase as int), WEIGHT_TOTAL as int),
{
    let weighted = mix.weighted(voice.phase as int);
    let product = weighted * voice.velocity * voice.level;
    let back = magnitude(weighted);
    assert(product == weighted * 136365211648) by (nonlinear_arith)
        requires
            product == weighted * 127 * 0x4000_0000,
    ;
    let unit = 136365211648int;
    assert((2 * (back * unit) + 100 * unit) / (200 * unit) == (2 * back + 100) / 200)
        by (nonlinear_arith)
        requires
            back >= 0,
            unit == 136365211648,
    {
        assert(2 * (back * unit) + 100 * unit == (2 * back + 100) * unit);
    }
    assert(magnitude(product) == back * unit) by (nonlinear_arith)
        requires
            product == weighted * unit,
            back == magnitude(weighted),
            unit > 0,
    ;
}

/// A step keeps a voice well-formed; a held voice never loses level, a voice
/// let go never gains any, and a voice at rest stays as it is.
pub proof fn lemma_step_bounds(
    voice: Voice,
    held: int,
    increment: int,
    attack_step: int,
    release_step: int,
)
    requires
        voice.wf(),
        0 <= held <= MAX_VELOCITY,
        0 <= increment,
        0 <= attack_step,
        0 <= release_step,
    ensures
        voice.step(held, increment, attack_step, release_step).wf(),
        held > 0 ==> voice.step(held, increment, attack_step, release_step).level >= voice.level,
        held == 0 ==> voice.step(held, increment, attack_step, release_step).level
            <= voice.level,
        held == 0 ==> voice.step(held, increment, attack_step, release_step).level
            == release(voice.level as int, release_step) || voice.level == 0,
        held == 0 && voice.level == 0 ==> voice.step(held, increment, attack_step, release_step)
            == voice,
{
}

} // verus!
