//! Attack and release: how the level of a voice rises while its note is held
//! and falls once the note is let go.
//!
//! A level is an integer from 0 to `LEVEL_ONE`. While a note is held its level
//! rises by a fixed step per frame up to `LEVEL_ONE`; afterwards it falls by a
//! fixed step per frame, and drops to zero once it is under `LEVEL_FLOOR`,
//! where the loudest voice rounds to no sample at all.

use vstd::prelude::*;

verus! {

/// The level of a voice at full volume.
pub const LEVEL_ONE: u32 = 0x4000_0000;

/// The level under which a voice adds nothing to a sample.
pub const LEVEL_FLOOR: u32 = 16384;

/// The change of level per frame of a ramp that crosses the whole range in
/// `millis` milliseconds at `sample_rate` frames per second:
/// `LEVEL_ONE / (millis / 1000 * sample_rate)`, at least 1 so that every ramp
/// ends, and the whole range at once for a ramp of no duration.
pub open spec fn ramp_step(millis: int, sample_rate: int) -> int {
    let span = millis * sample_rate;
    if span <= 0 {
        LEVEL_ONE as int
    } else {
        let step = (LEVEL_ONE * 1000) / span;
        if step < 1 {
            1
        } else if step > LEVEL_ONE {
            LEVEL_ONE as int
        } else {
            step
        }
    }
}

/// The level one frame into the attack: `step` higher, but no higher than
/// `LEVEL_ONE`.
pub open spec fn attack(level: int, step: int) -> int {
    if level + step >= LEVEL_ONE {
        LEVEL_ONE as int
    } else {
        level + step
    }
}

/// The level one frame into the release: `step` lower, and zero once that is
/// under `LEVEL_FLOOR`.
pub open spec fn release(level: int, step: int) -> int {
    if level - step < LEVEL_FLOOR {
        0
    } else {
        level - step
    }
}

/// The level after `frames` frames of attack: `step` higher for every frame,
/// but no higher than `LEVEL_ONE`.
pub open spec fn attacked(level: int, step: int, frames: nat) -> int {
    if level + frames * step >= LEVEL_ONE {
        LEVEL_ONE as int
    } else {
        level + frames * step
    }
}

/// The level after `frames` frames of release.
pub open spec fn released(level: int, step: int, frames: nat) -> int
    decreases frames,
{
    if frames == 0 {
        level
    } else {
        release(released(level, step, (frames - 1) as nat), step)
    }
}

/// A ramp step is a positive part of the range.
pub proof fn lemma_ramp_step_bounds(millis: int, sample_rate: int)
    ensures
        1 <= ramp_step(millis, sample_rate) <= LEVEL_ONE,
{
}

/// The attack keeps a level within its range and never lowers it.
pub proof fn lemma_attack_bounds(level: int, step: int)
    requires
        0 <= level <= LEVEL_ONE,
        0 <= step,
    ensures
        level <= attack(level, step) <= LEVEL_ONE,
{
}

/// One more frame of attack takes the level after `frames` frames to the
/// level after `frames + 1`.
pub proof fn lemma_attacked_step(level: int, step: int, frames: nat)
    requires
        0 <= level <= LEVEL_ONE,
        0 <= step,
    ensures
        attack(attacked(level, step, frames), step) == attacked(level, step, frames + 1),
        attacked(level, step, 0) == level,
        level <= attacked(level, step, frames) <= attacked(level, step, frames + 1) <= LEVEL_ONE,
{
    assert((frames + 1) * step == frames * step + step) by (nonlinear_arith);
    assert(0 <= frames * step) by (nonlinear_arith)
        requires
            0 <= step,
    ;
    assert(0 * step == 0) by (nonlinear_arith);
}

/// The release keeps a level within its range and never raises it.
pub proof fn lemma_release_bounds(level: int, step: int)
    requires
        0 <= level <= LEVEL_ONE,
        0 <= step,
    ensures
        0 <= release(level, step) <= level,
        release(level, step) == 0 || release(level, step) >= LEVEL_FLOOR,
{
}

/// Over any number of frames of release the level falls or stays, never
/// rises; and it has fallen by the step for every frame, or reached zero.
pub proof fn lemma_released_falls(level: int, step: int, frames: nat)
    requires
        0 <= level <= LEVEL_ONE,
        0 <= step,
    ensures
        0 <= released(level, step, frames) <= level,
        frames > 0 ==> released(level, step, frames) <= released(
            level,
            step,
            (frames - 1) as nat,
        ),
        released(level, step, frames) == 0 || released(level, step, frames) == level - frames
            * step,
    decreases frames,
{
    if frames > 0 {
        let before = (frames - 1) as nat;
        lemma_released_falls(level, step, before);
        assert(frames * step == before * step + step) by (nonlinear_arith)
            requires
                frames == before + 1,
        ;
    }
}

/// A release with a positive step ends: once the frames times the step cover
/// the level it started from, the level is zero.
pub proof fn lemma_release_ends(level: int, step: int, frames: nat)
    requires
        0 <= level <= LEVEL_ONE,
        0 < step,
        frames * step >= level,
        frames > 0,
    ensures
        released(level, step, frames) == 0,
{
    lemma_released_falls(level, step, frames);
    assert(released(level, step, frames) == release(
        released(level, step, (frames - 1) as nat),
        step,
    ));
}

/// The attack and release times of every voice, in milliseconds.
#[derive(Clone, Copy, Debug, PartialEq, Eq)]
pub struct Envelope {
    pub attack_millis: u32,
    pub release_millis: u32,
}

impl Envelope {
    /// An envelope with the given attack and release times.
    pub fn new(attack_millis: u32, release_millis: u32) -> (envelope: Envelope)
        ensures
            envelope == (Envelope { attack_millis, release_millis }),
    {
        Envelope { attack_millis, release_millis }
    }

    /// The envelope without ramps: a note sounds in full from its first
    /// frame and is gone with its last.
    pub fn instant() -> (envelope: Envelope)
        ensures
            envelope == (Envelope { attack_millis: 0, release_millis: 0 }),
    {
        Envelope { attack_millis: 0, release_millis: 0 }
    }

    /// The rise of level per frame while a note is held.
    pub open spec fn attack_step(self, sample_rate: int) -> int {
        ramp_step(self.attack_millis as int, sample_rate)
    }

    /// The fall of level per frame once a note is let go.
    pub open spec fn release_step(self, sample_rate: int) -> int {
        ramp_step(self.release_millis as int, sample_rate)
    }
}

/// The change of level per frame of a ramp of `millis` milliseconds at
/// `sample_rate` frames per second.
pub fn ramp_step_of(millis: u32, sample_rate: u32) -> (step: u32)
    ensures
        step == ramp_step(millis as int, sample_rate as int),
        1 <= step <= LEVEL_ONE,
{
    assert(millis * sample_rate <= 0xffff_ffff * 0xffff_ffff) by (nonlinear_arith)
        requires
            0 <= millis <= 0xffff_ffff,
            0 <= sample_rate <= 0xffff_ffff,
    ;
    let span: u64 = (millis as u64) * (sample_rate as u64);
    if span == 0 {
        return LEVEL_ONE;
    }
    let whole: u64 = (LEVEL_ONE as u64) * 1000;
    let step: u64 = whole / span;
    if step < 1 {
        1
    } else if step > LEVEL_ONE as u64 {
        LEVEL_ONE
    } else {
        step as u32
    }
}

/// The level one frame into the attack.
pub fn rise(level: u32, step: u32) -> (next: u32)
    requires
        level <= LEVEL_ONE,
    ensures
        next == attack(level as int, step as int),
        level <= next <= LEVEL_ONE,
{
    if step >= LEVEL_ONE - level {
        LEVEL_ONE
    } else {
        level + step
    }
}

/// The level one frame into the release.
pub fn fall(level: u32, step: u32) -> (next: u32)
    requires
        level <= LEVEL_ONE,
    ensures
        next == release(level as int, step as int),
        next <= level,
{
    if step > level || level - step < LEVEL_FLOOR {
        0
    } else {
        level - step
    }
}

} // verus!
