//! What holds of the synthesis engine over any number of frames.

use vstd::prelude::*;
use crate::envelope::LEVEL_FLOOR;
use crate::envelope::attacked;
use crate::envelope::lemma_attacked_step;
use crate::envelope::lemma_ramp_step_bounds;
use crate::envelope::lemma_release_ends;
use crate::envelope::lemma_released_falls;
use crate::envelope::released;
use crate::fixed::ONE;
use crate::notes::held;
use crate::notes::valid_notes;
use crate::pitch::phase_increment;
use crate::reverb::lemma_reverb_frame;
use crate::smooth::lemma_smoother_frame;
use crate::synth::SynthModel;
use crate::synth::VOICES;
use crate::synth::lemma_voice_sum_bound;
use crate::synth::lemma_voices_after_wf;
use crate::synth::voice_sum;
use crate::synth::voices_after;
use crate::voice::Voice;
use crate::voice::lemma_faint_voice_is_silent;
use crate::voice::next_phase;
use crate::wave::WaveMix;

verus! {

/// Every sample lies within full scale, whatever is held and however many
/// notes sound at once.
pub proof fn lemma_output_within_full_scale(
    synth: SynthModel,
    notes: Map<u8, u8>,
    sample_rate: int,
    index: nat,
)
    ensures
        -ONE <= synth.output_at(notes, sample_rate, index) <= ONE,
{
}

/// A frame keeps a synthesizer well-formed, and the sum of its voices within
/// one full-scale sample for each voice.
pub proof fn lemma_frame_keeps_wf(synth: SynthModel, notes: Map<u8, u8>, sample_rate: int)
    requires
        synth.wf(),
        valid_notes(notes),
        sample_rate > 0,
    ensures
        synth.frame_next(notes, sample_rate).wf(),
        -(VOICES * ONE) <= synth.dry(notes, sample_rate) <= VOICES * ONE,
        synth.frame_next(notes, sample_rate).mix == synth.mix,
        synth.frame_next(notes, sample_rate).envelope == synth.envelope,
{
    let after = voices_after(synth.voices, notes, synth.envelope, sample_rate);
    lemma_voices_after_wf(synth.voices, notes, synth.envelope, sample_rate);
    lemma_voice_sum_bound(after, synth.mix, VOICES as int);
    let dry = synth.dry(notes, sample_rate);
    lemma_reverb_frame(synth.reverb, dry);
    lemma_smoother_frame(synth.smoother, synth.wet(notes, sample_rate));
}

/// Any number of frames keeps a synthesizer well-formed.
pub proof fn lemma_frames_keep_wf(
    synth: SynthModel,
    notes: Map<u8, u8>,
    sample_rate: int,
    frames: nat,
)
    requires
        synth.wf(),
        valid_notes(notes),
        sample_rate > 0,
    ensures
        synth.after_frames(notes, sample_rate, frames).wf(),
        synth.after_frames(notes, sample_rate, frames).mix == synth.mix,
        synth.after_frames(notes, sample_rate, frames).envelope == synth.envelope,
    decreases frames,
{
    if frames > 0 {
        lemma_frames_keep_wf(synth, notes, sample_rate, (frames - 1) as nat);
        lemma_frame_keeps_wf(
            synth.after_frames(notes, sample_rate, (frames - 1) as nat),
            notes,
            sample_rate,
        );
    }
}

/// Voices under the level at which they can be heard add up to nothing.
pub proof fn lemma_faint_voices_sum_to_zero(voices: Seq<Voice>, mix: WaveMix, count: int)
    requires
        mix.wf(),
        0 <= count <= voices.len(),
        forall|pitch: int|
            0 <= pitch < voices.len() ==> (#[trigger] voices[pitch]).wf() && voices[pitch].level
                < LEVEL_FLOOR,
    ensures
        voice_sum(voices, mix, count) == 0,
    decreases count,
{
    if count > 0 {
        lemma_faint_voices_sum_to_zero(voices, mix, count - 1);
        lemma_faint_voice_is_silent(voices[count - 1], mix);
    }
}

/// A synthesizer at rest with no note held stays at rest, and its next sample
/// is zero.
pub proof fn lemma_rest_frame(synth: SynthModel, sample_rate: int)
    requires
        synth.wf(),
        synth.at_rest(),
    ensures
        synth.frame_output(Map::<u8, u8>::empty(), sample_rate) == 0,
        synth.frame_next(Map::<u8, u8>::empty(), sample_rate).at_rest(),
        synth.frame_next(Map::<u8, u8>::empty(), sample_rate).wf(),
        synth.frame_next(Map::<u8, u8>::empty(), sample_rate).voices == synth.voices,
{
    let notes = Map::<u8, u8>::empty();
    let after = voices_after(synth.voices, notes, synth.envelope, sample_rate);
    assert(after =~= synth.voices);
    lemma_faint_voices_sum_to_zero(after, synth.mix, VOICES as int);
    lemma_reverb_frame(synth.reverb, 0);
    lemma_smoother_frame(synth.smoother, 0);
}

/// Silence: from a synthesizer at rest, with no note held, every sample is
/// exactly zero.
pub proof fn lemma_silence(synth: SynthModel, sample_rate: int, index: nat)
    requires
        synth.wf(),
        synth.at_rest(),
    ensures
        synth.output_at(Map::<u8, u8>::empty(), sample_rate, index) == 0,
        synth.after_frames(Map::<u8, u8>::empty(), sample_rate, index).at_rest(),
        synth.after_frames(Map::<u8, u8>::empty(), sample_rate, index).wf(),
    decreases index,
{
    let notes = Map::<u8, u8>::empty();
    if index > 0 {
        lemma_silence(synth, sample_rate, (index - 1) as nat);
        lemma_rest_frame(synth.after_frames(notes, sample_rate, (index - 1) as nat), sample_rate);
    }
    lemma_rest_frame(synth.after_frames(notes, sample_rate, index), sample_rate);
}

/// Continuity across buffers: `first` frames followed by `second` frames
/// leave the synthesizer as `first + second` frames in one go do, and sound
/// the same. Nothing is reset where one buffer ends and the next begins.
pub proof fn lemma_buffers_join(
    synth: SynthModel,
    notes: Map<u8, u8>,
    sample_rate: int,
    first: nat,
    second: nat,
)
    ensures
        synth.after_frames(notes, sample_rate, first).after_frames(notes, sample_rate, second)
            == synth.after_frames(notes, sample_rate, first + second),
        synth.after_frames(notes, sample_rate, first).output_at(notes, sample_rate, second)
            == synth.output_at(notes, sample_rate, first + second),
    decreases second,
{
    if second > 0 {
        lemma_buffers_join(synth, notes, sample_rate, first, (second - 1) as nat);
        assert(first + second - 1 == first + (second - 1) as nat);
    }
}

/// The voice of a pitch after any number of frames comes from the voice it
/// started as by that many steps with the same note.
pub proof fn lemma_voice_after_frames(
    synth: SynthModel,
    notes: Map<u8, u8>,
    sample_rate: int,
    pitch: int,
    frames: nat,
)
    requires
        synth.voices.len() == VOICES,
        0 <= pitch < VOICES,
    ensures
        synth.after_frames(notes, sample_rate, frames).voices.len() == VOICES,
        synth.after_frames(notes, sample_rate, frames).envelope == synth.envelope,
        frames > 0 ==> synth.after_frames(notes, sample_rate, frames).voices[pitch]
            == synth.after_frames(notes, sample_rate, (frames - 1) as nat).voices[pitch].step(
            held(notes, pitch),
            phase_increment(pitch, sample_rate),
            synth.envelope.attack_step(sample_rate),
            synth.envelope.release_step(sample_rate),
        ),
    decreases frames,
{
    if frames > 0 {
        lemma_voice_after_frames(synth, notes, sample_rate, pitch, (frames - 1) as nat);
    }
}

/// The phase of a held note advances by its increment on every frame, across
/// any number of frames, and is never set back.
pub proof fn lemma_held_phase_advances(
    synth: SynthModel,
    notes: Map<u8, u8>,
    sample_rate: int,
    pitch: int,
    frames: nat,
)
    requires
        synth.voices.len() == VOICES,
        0 <= pitch < VOICES,
        held(notes, pitch) > 0,
    ensures
        synth.after_frames(notes, sample_rate, frames).voices[pitch].phase == next_phase(
            synth.voices[pitch].phase as int,
            frames * phase_increment(pitch, sample_rate),
        ),
    decreases frames,
{
    let start = synth.voices[pitch].phase as int;
    let increment = phase_increment(pitch, sample_rate);
    if frames == 0 {
        assert(frames * increment == 0) by (nonlinear_arith)
            requires
                frames == 0,
        ;
    } else {
        let before = (frames - 1) as nat;
        lemma_held_phase_advances(synth, notes, sample_rate, pitch, before);
        lemma_voice_after_frames(synth, notes, sample_rate, pitch, frames);
        assert(frames * increment == before * increment + increment) by (nonlinear_arith)
            requires
                frames == before + 1,
        ;
        let so_far = start + before * increment;
        vstd::arithmetic::div_mod::lemma_add_mod_noop(so_far, increment, 0x1_0000_0000);
        vstd::arithmetic::div_mod::lemma_mod_twice(so_far, 0x1_0000_0000);
        vstd::arithmetic::div_mod::lemma_add_mod_noop(
            so_far % 0x1_0000_0000,
            increment,
            0x1_0000_0000,
        );
    }
}

/// While a note is held, the level of its voice rises by the attack step on
/// every frame until it is at the top, and stays there.
pub proof fn lemma_held_level_rises(
    synth: SynthModel,
    notes: Map<u8, u8>,
    sample_rate: int,
    pitch: int,
    frames: nat,
)
    requires
        synth.wf(),
        0 <= pitch < VOICES,
        held(notes, pitch) > 0,
    ensures
        synth.after_frames(notes, sample_rate, frames).voices[pitch].level == attacked(
            synth.voices[pitch].level as int,
            synth.envelope.attack_step(sample_rate),
            frames,
        ),
    decreases frames,
{
    let step = synth.envelope.attack_step(sample_rate);
    lemma_ramp_step_bounds(synth.envelope.attack_millis as int, sample_rate);
    if frames > 0 {
        let before = (frames - 1) as nat;
        lemma_held_level_rises(synth, notes, sample_rate, pitch, before);
        lemma_voice_after_frames(synth, notes, sample_rate, pitch, frames);
        lemma_attacked_step(synth.voices[pitch].level as int, step, before);
    } else {
        lemma_attacked_step(synth.voices[pitch].level as int, step, 0);
    }
}

/// Once a note is let go, the level of its voice is the level it had, after
/// as many frames of release as have passed.
pub proof fn lemma_let_go_level(
    synth: SynthModel,
    notes: Map<u8, u8>,
    sample_rate: int,
    pitch: int,
    frames: nat,
)
    requires
        synth.wf(),
        0 <= pitch < VOICES,
        held(notes, pitch) == 0,
    ensures
        synth.after_frames(notes, sample_rate, frames).voices[pitch].level == released(
            synth.voices[pitch].level as int,
            synth.envelope.release_step(sample_rate),
            frames,
        ),
    decreases frames,
{
    let step = synth.envelope.release_step(sample_rate);
    lemma_ramp_step_bounds(synth.envelope.release_millis as int, sample_rate);
    if frames > 0 {
        let before = (frames - 1) as nat;
        lemma_let_go_level(synth, notes, sample_rate, pitch, before);
        lemma_voice_after_frames(synth, notes, sample_rate, pitch, frames);
        lemma_released_falls(synth.voices[pitch].level as int, step, before);
        lemma_released_falls(synth.voices[pitch].level as int, step, frames);
    }
}

/// Release is monotone: once a note is let go, the level of its voice never
/// rises from one frame to the next.
pub proof fn lemma_release_never_rises(
    synth: SynthModel,
    notes: Map<u8, u8>,
    sample_rate: int,
    pitch: int,
    frames: nat,
)
    requires
        synth.wf(),
        0 <= pitch < VOICES,
        held(notes, pitch) == 0,
    ensures
        synth.after_frames(notes, sample_rate, frames + 1).voices[pitch].level
            <= synth.after_frames(notes, sample_rate, frames).voices[pitch].level,
        synth.after_frames(notes, sample_rate, frames).voices[pitch].level
            <= synth.voices[pitch].level,
{
    let step = synth.envelope.release_step(sample_rate);
    lemma_ramp_step_bounds(synth.envelope.release_millis as int, sample_rate);
    lemma_let_go_level(synth, notes, sample_rate, pitch, frames);
    lemma_let_go_level(synth, notes, sample_rate, pitch, frames + 1);
    lemma_released_falls(synth.voices[pitch].level as int, step, frames);
    lemma_released_falls(synth.voices[pitch].level as int, step, frames + 1);
}

/// Release ends: once the frames that have passed since a note was let go,
/// times the release step, cover the level that its voice had, the voice is
/// at level zero, and stays there.
pub proof fn lemma_release_reaches_rest(
    synth: SynthModel,
    notes: Map<u8, u8>,
    sample_rate: int,
    pitch: int,
    frames: nat,
)
    requires
        synth.wf(),
        0 <= pitch < VOICES,
        held(notes, pitch) == 0,
        frames > 0,
        frames * synth.envelope.release_step(sample_rate) >= synth.voices[pitch].level,
    ensures
        synth.after_frames(notes, sample_rate, frames).voices[pitch].level == 0,
{
    let step = synth.envelope.release_step(sample_rate);
    lemma_ramp_step_bounds(synth.envelope.release_millis as int, sample_rate);
    lemma_let_go_level(synth, notes, sample_rate, pitch, frames);
    lemma_release_ends(synth.voices[pitch].level as int, step, frames);
}

/// A voice goes its own way: what it is after any number of frames depends
/// on the voice it started as, on the note of its own pitch, on the envelope
/// and on the sample rate, and on nothing else.
pub proof fn lemma_voice_goes_its_own_way(
    one: SynthModel,
    other: SynthModel,
    notes_of_one: Map<u8, u8>,
    notes_of_other: Map<u8, u8>,
    sample_rate: int,
    pitch: int,
    frames: nat,
)
    requires
        one.voices.len() == VOICES,
        other.voices.len() == VOICES,
        0 <= pitch < VOICES,
        one.voices[pitch] == other.voices[pitch],
        one.envelope == other.envelope,
        held(notes_of_one, pitch) == held(notes_of_other, pitch),
    ensures
        one.after_frames(notes_of_one, sample_rate, frames).voices[pitch] == other.after_frames(
            notes_of_other,
            sample_rate,
            frames,
        ).voices[pitch],
    decreases frames,
{
    if frames > 0 {
        lemma_voice_goes_its_own_way(
            one,
            other,
            notes_of_one,
            notes_of_other,
            sample_rate,
            pitch,
            (frames - 1) as nat,
        );
        lemma_voice_after_frames(one, notes_of_one, sample_rate, pitch, frames);
        lemma_voice_after_frames(other, notes_of_other, sample_rate, pitch, frames);
    }
}

/// A voice at rest whose note is not held stays as it is.
pub proof fn lemma_voice_at_rest_stays(
    synth: SynthModel,
    notes: Map<u8, u8>,
    sample_rate: int,
    pitch: int,
    frames: nat,
)
    requires
        synth.voices.len() == VOICES,
        0 <= pitch < VOICES,
        synth.voices[pitch].level == 0,
        held(notes, pitch) == 0,
    ensures
        synth.after_frames(notes, sample_rate, frames).voices[pitch] == synth.voices[pitch],
    decreases frames,
{
    if frames > 0 {
        lemma_voice_at_rest_stays(synth, notes, sample_rate, pitch, (frames - 1) as nat);
        lemma_voice_after_frames(synth, notes, sample_rate, pitch, frames);
    }
}

/// Sums of voices add up: where every voice of `both` sounds as the voices of
/// `first` and `second` at its pitch together, so do the sums.
pub proof fn lemma_voice_sum_adds(
    both: Seq<Voice>,
    first: Seq<Voice>,
    second: Seq<Voice>,
    mix: WaveMix,
    count: int,
)
    requires
        0 <= count <= both.len(),
        count <= first.len(),
        count <= second.len(),
        forall|pitch: int|
            0 <= pitch < count ==> (#[trigger] both[pitch]).sample(mix) == first[pitch].sample(mix)
                + second[pitch].sample(mix),
    ensures
        voice_sum(both, mix, count) == voice_sum(first, mix, count) + voice_sum(
            second,
            mix,
            count,
        ),
    decreases count,
{
    if count > 0 {
        lemma_voice_sum_adds(both, first, second, mix, count - 1);
        assert(both[count - 1].sample(mix) == first[count - 1].sample(mix) + second[count
            - 1].sample(mix));
    }
}

/// Whether the notes `both` are those of `first` and those of `second`
/// together, no pitch being held in both.
pub open spec fn notes_join(both: Map<u8, u8>, first: Map<u8, u8>, second: Map<u8, u8>) -> bool {
    forall|pitch: int|
        0 <= pitch < VOICES ==> {
            &&& #[trigger] held(both, pitch) == held(first, pitch) + held(second, pitch)
            &&& held(first, pitch) == 0 || held(second, pitch) == 0
        }
}

/// The mix and the envelope stay as they are over any number of frames, and
/// the sum of the voices in a frame is the sum over the voices as they are
/// after it.
pub proof fn lemma_dry_is_the_sum_after(
    synth: SynthModel,
    notes: Map<u8, u8>,
    sample_rate: int,
    index: nat,
)
    ensures
        synth.after_frames(notes, sample_rate, index).mix == synth.mix,
        synth.after_frames(notes, sample_rate, index).envelope == synth.envelope,
        synth.dry_at(notes, sample_rate, index) == voice_sum(
            synth.after_frames(notes, sample_rate, index + 1).voices,
            synth.mix,
            VOICES as int,
        ),
    decreases index,
{
    if index > 0 {
        lemma_dry_is_the_sum_after(synth, notes, sample_rate, (index - 1) as nat);
    }
}

/// From rest, the voice of a pitch that is held in one of two sets of notes
/// sounds with both sets held as it does with that set alone, and is silent
/// with the other.
proof fn lemma_voice_adds(
    synth: SynthModel,
    both: Map<u8, u8>,
    first: Map<u8, u8>,
    second: Map<u8, u8>,
    sample_rate: int,
    pitch: int,
    frames: nat,
)
    requires
        synth.voices.len() == VOICES,
        synth.mix.wf(),
        0 <= pitch < VOICES,
        synth.voices[pitch].wf(),
        synth.voices[pitch].level == 0,
        held(both, pitch) == held(first, pitch) + held(second, pitch),
        held(first, pitch) == 0 || held(second, pitch) == 0,
    ensures
        synth.after_frames(both, sample_rate, frames).voices[pitch].sample(synth.mix)
            == synth.after_frames(first, sample_rate, frames).voices[pitch].sample(synth.mix)
            + synth.after_frames(second, sample_rate, frames).voices[pitch].sample(synth.mix),
{
    lemma_faint_voice_is_silent(synth.voices[pitch], synth.mix);
    if held(second, pitch) == 0 {
        lemma_voice_goes_its_own_way(synth, synth, both, first, sample_rate, pitch, frames);
        lemma_voice_at_rest_stays(synth, second, sample_rate, pitch, frames);
    } else {
        lemma_voice_goes_its_own_way(synth, synth, both, second, sample_rate, pitch, frames);
        lemma_voice_at_rest_stays(synth, first, sample_rate, pitch, frames);
    }
}

/// Superposition: from rest, notes held together sound in every frame as the
/// sum of what each of them sounds alone. No note is limited on its own: the
/// sum is, once, where it becomes a sample.
pub proof fn lemma_notes_add_up(
    synth: SynthModel,
    both: Map<u8, u8>,
    first: Map<u8, u8>,
    second: Map<u8, u8>,
    sample_rate: int,
    index: nat,
)
    requires
        synth.wf(),
        forall|pitch: int| 0 <= pitch < VOICES ==> (#[trigger] synth.voices[pitch]).level == 0,
        notes_join(both, first, second),
    ensures
        synth.dry_at(both, sample_rate, index) == synth.dry_at(first, sample_rate, index)
            + synth.dry_at(second, sample_rate, index),
        synth.reverb.line.len() == 0 && synth.smoother.history.len() == 0 ==> synth.output_at(
            both,
            sample_rate,
            index,
        ) == crate::fixed::clamp_unit(
            synth.dry_at(first, sample_rate, index) + synth.dry_at(second, sample_rate, index),
        ),
{
    let next = index + 1;
    let all = synth.after_frames(both, sample_rate, next).voices;
    let one = synth.after_frames(first, sample_rate, next).voices;
    let two = synth.after_frames(second, sample_rate, next).voices;
    assert forall|pitch: int| 0 <= pitch < VOICES implies (#[trigger] all[pitch]).sample(
        synth.mix,
    ) == one[pitch].sample(synth.mix) + two[pitch].sample(synth.mix) by {
        assert(held(both, pitch) == held(first, pitch) + held(second, pitch));
        assert(synth.voices[pitch].wf());
        lemma_voice_adds(synth, both, first, second, sample_rate, pitch, next);
    }
    lemma_voice_after_frames(synth, both, sample_rate, 0, next);
    lemma_voice_after_frames(synth, first, sample_rate, 0, next);
    lemma_voice_after_frames(synth, second, sample_rate, 0, next);
    lemma_voice_sum_adds(all, one, two, synth.mix, VOICES as int);
    lemma_dry_is_the_sum_after(synth, both, sample_rate, index);
    lemma_dry_is_the_sum_after(synth, first, sample_rate, index);
    lemma_dry_is_the_sum_after(synth, second, sample_rate, index);
    if synth.reverb.line.len() == 0 && synth.smoother.history.len() == 0 {
        lemma_effects_off_stay_off(synth, both, sample_rate, index);
    }
}

/// A synthesizer without delay and without smoothing stays without them, and
/// its sample is the sum of its voices, limited to the range of a sample.
pub proof fn lemma_effects_off_stay_off(
    synth: SynthModel,
    notes: Map<u8, u8>,
    sample_rate: int,
    frames: nat,
)
    requires
        synth.reverb.line.len() == 0,
        synth.smoother.history.len() == 0,
    ensures
        synth.after_frames(notes, sample_rate, frames).reverb.line.len() == 0,
        synth.after_frames(notes, sample_rate, frames).smoother.history.len() == 0,
        synth.output_at(notes, sample_rate, frames) == crate::fixed::clamp_unit(
            synth.dry_at(notes, sample_rate, frames),
        ),
    decreases frames,
{
    if frames > 0 {
        lemma_effects_off_stay_off(synth, notes, sample_rate, (frames - 1) as nat);
    }
}

} // verus!
