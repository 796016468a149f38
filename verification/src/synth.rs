//! The synthesis engine: from the notes that are held to the samples of a
//! buffer, frame by frame.
//!
//! A frame is one instant of sound. For every frame each voice whose note is
//! held or still ringing moves on by one step, the samples of all voices are
//! added up, the delay line and the moving average are applied, and the
//! result is limited to the range of a sample.

use vstd::prelude::*;
use crate::envelope::Envelope;
use crate::envelope::ramp_step_of;
use crate::fixed::ONE;
use crate::fixed::clamp_sample;
use crate::fixed::clamp_unit;
use crate::notes::ActiveNotes;
use crate::notes::held;
use crate::pitch::phase_increment;
use crate::pitch::phase_increment_of;
use crate::reverb::ReverbLine;
use crate::reverb::ReverbModel;
use crate::smooth::Smoother;
use crate::smooth::SmootherModel;
use crate::voice::Voice;
use crate::voice::lemma_step_bounds;
use crate::voice::lemma_voice_sample_bound;
use crate::wave::WaveMix;
use crate::waveform::WaveformBuffer;

verus! {

/// How many voices a synthesizer has: one for each pitch.
pub const VOICES: usize = 128;

/// Every voice one frame on, each by the note of its own pitch: see
/// `Voice::step`.
pub open spec fn voices_after(
    voices: Seq<Voice>,
    notes: Map<u8, u8>,
    envelope: Envelope,
    sample_rate: int,
) -> Seq<Voice> {
    Seq::new(
        voices.len(),
        |pitch: int|
            voices[pitch].step(
                held(notes, pitch),
                phase_increment(pitch, sample_rate),
                envelope.attack_step(sample_rate),
                envelope.release_step(sample_rate),
            ),
    )
}

/// The sum of the samples of the first `count` voices.
pub open spec fn voice_sum(voices: Seq<Voice>, mix: WaveMix, count: int) -> int
    decreases count,
{
    if count <= 0 {
        0
    } else {
        voice_sum(voices, mix, count - 1) + voices[count - 1].sample(mix)
    }
}

/// What a synthesizer is made of.
pub struct SynthModel {
    /// The voices, by pitch.
    pub voices: Seq<Voice>,
    /// The delay line.
    pub reverb: ReverbModel,
    /// The moving average.
    pub smoother: SmootherModel,
    /// The mix of waveforms of every voice.
    pub mix: WaveMix,
    /// The attack and release of every voice.
    pub envelope: Envelope,
}

impl SynthModel {
    /// There is one well-formed voice for each pitch, and every part is
    /// well-formed.
    pub open spec fn wf(self) -> bool {
        &&& self.voices.len() == VOICES
        &&& forall|pitch: int| 0 <= pitch < VOICES ==> (#[trigger] self.voices[pitch]).wf()
        &&& self.reverb.wf()
        &&& self.smoother.wf()
        &&& self.mix.wf()
    }

    /// Nothing sounds and nothing is left to be heard: every voice is at
    /// level zero, and the delay line and the moving average hold zeros.
    pub open spec fn at_rest(self) -> bool {
        &&& forall|pitch: int| 0 <= pitch < VOICES ==> (#[trigger] self.voices[pitch]).level == 0
        &&& self.reverb.is_silent()
        &&& self.smoother.is_silent()
    }

    /// The sum of all voices in the next frame.
    pub open spec fn dry(self, notes: Map<u8, u8>, sample_rate: int) -> int {
        voice_sum(
            voices_after(self.voices, notes, self.envelope, sample_rate),
            self.mix,
            VOICES as int,
        )
    }

    /// The next frame with the delay mixed in.
    pub open spec fn wet(self, notes: Map<u8, u8>, sample_rate: int) -> int {
        self.reverb.wet(self.dry(notes, sample_rate))
    }

    /// The sample of the next frame: the sum of all voices, through the
    /// delay line and the moving average, limited to the range of a sample.
    pub open spec fn frame_output(self, notes: Map<u8, u8>, sample_rate: int) -> int {
        clamp_unit(self.smoother.smoothed(self.wet(notes, sample_rate)))
    }

    /// The synthesizer after the next frame.
    pub open spec fn frame_next(self, notes: Map<u8, u8>, sample_rate: int) -> SynthModel {
        SynthModel {
            voices: voices_after(self.voices, notes, self.envelope, sample_rate),
            reverb: self.reverb.after(self.dry(notes, sample_rate)),
            smoother: self.smoother.after(self.wet(notes, sample_rate)),
            mix: self.mix,
            envelope: self.envelope,
        }
    }

    /// The synthesizer after `frames` frames with the same notes held.
    pub open spec fn after_frames(self, notes: Map<u8, u8>, sample_rate: int, frames: nat)
        -> SynthModel
        decreases frames,
    {
        if frames == 0 {
            self
        } else {
            self.after_frames(notes, sample_rate, (frames - 1) as nat).frame_next(
                notes,
                sample_rate,
            )
        }
    }

    /// The sum of all voices in frame `index`, counted from zero, with the
    /// same notes held throughout.
    pub open spec fn dry_at(self, notes: Map<u8, u8>, sample_rate: int, index: nat) -> int {
        self.after_frames(notes, sample_rate, index).dry(notes, sample_rate)
    }

    /// The sample of frame `index`, counted from zero, with the same notes
    /// held throughout.
    pub open spec fn output_at(self, notes: Map<u8, u8>, sample_rate: int, index: nat) -> int {
        self.after_frames(notes, sample_rate, index).frame_output(notes, sample_rate)
    }
}

/// The sum of `count` voices is within `count` full-scale samples.
pub proof fn lemma_voice_sum_bound(voices: Seq<Voice>, mix: WaveMix, count: int)
    requires
        mix.wf(),
        0 <= count <= voices.len(),
        forall|pitch: int| 0 <= pitch < voices.len() ==> (#[trigger] voices[pitch]).wf(),
    ensures
        -(count * ONE) <= voice_sum(voices, mix, count) <= count * ONE,
    decreases count,
{
    if count > 0 {
        lemma_voice_sum_bound(voices, mix, count - 1);
        lemma_voice_sample_bound(voices[count - 1], mix);
    }
}

/// A step keeps every voice well-formed.
pub proof fn lemma_voices_after_wf(
    voices: Seq<Voice>,
    notes: Map<u8, u8>,
    envelope: Envelope,
    sample_rate: int,
)
    requires
        sample_rate > 0,
        crate::notes::valid_notes(notes),
        forall|pitch: int| 0 <= pitch < voices.len() ==> (#[trigger] voices[pitch]).wf(),
    ensures
        voices_after(voices, notes, envelope, sample_rate).len() == voices.len(),
        forall|pitch: int|
            0 <= pitch < voices.len() ==> (#[trigger] voices_after(
                voices,
                notes,
                envelope,
                sample_rate,
            )[pitch]).wf(),
{
    let after = voices_after(voices, notes, envelope, sample_rate);
    assert forall|pitch: int| 0 <= pitch < voices.len() implies (#[trigger] after[pitch]).wf() by {
        crate::envelope::lemma_ramp_step_bounds(envelope.attack_millis as int, sample_rate);
        crate::envelope::lemma_ramp_step_bounds(envelope.release_millis as int, sample_rate);
        lemma_increment_not_negative(pitch, sample_rate);
        lemma_step_bounds(
            voices[pitch],
            held(notes, pitch),
            phase_increment(pitch, sample_rate),
            envelope.attack_step(sample_rate),
            envelope.release_step(sample_rate),
        );
    }
}

proof fn lemma_increment_not_negative(pitch: int, sample_rate: int)
    requires
        sample_rate > 0,
    ensures
        pitch < 0 || pitch > 127 || 0 <= phase_increment(pitch, sample_rate),
{
    if 0 <= pitch <= 127 {
        crate::pitch::lemma_frequency_bounds(pitch);
        let scaled = crate::pitch::frequency(pitch) * 65536;
        assert(0 <= scaled / sample_rate) by (nonlinear_arith)
            requires
                0 <= scaled,
                sample_rate > 0,
        ;
    }
}

/// Moves every voice on by one frame and returns the sum of their samples.
fn advance_voices(
    voices: &mut Vec<Voice>,
    notes: &ActiveNotes,
    mix: &WaveMix,
    increments: &Vec<u64>,
    attack_step: u32,
    release_step: u32,
    Ghost(envelope): Ghost<Envelope>,
    Ghost(sample_rate): Ghost<int>,
) -> (dry: i64)
    requires
        old(voices)@.len() == VOICES,
        forall|pitch: int| 0 <= pitch < VOICES ==> (#[trigger] old(voices)@[pitch]).wf(),
        notes.wf(),
        mix.wf(),
        sample_rate > 0,
        increments@.len() == VOICES,
        forall|pitch: int|
            0 <= pitch < VOICES ==> #[trigger] increments@[pitch] == phase_increment(
                pitch,
                sample_rate,
            ),
        attack_step == envelope.attack_step(sample_rate),
        release_step == envelope.release_step(sample_rate),
    ensures
        final(voices)@ == voices_after(old(voices)@, notes@, envelope, sample_rate),
        dry == voice_sum(final(voices)@, *mix, VOICES as int),
        -(VOICES * ONE) <= dry <= VOICES * ONE,
        forall|pitch: int| 0 <= pitch < VOICES ==> (#[trigger] final(voices)@[pitch]).wf(),
{
    let ghost before = voices@;
    let ghost target = voices_after(before, notes@, envelope, sample_rate);
    proof {
        notes.lemma_valid();
        lemma_voices_after_wf(before, notes@, envelope, sample_rate);
    }
    let mut dry: i64 = 0;
    let mut pitch: usize = 0;
    while pitch < VOICES
        invariant
            pitch <= VOICES,
            voices@.len() == VOICES,
            before.len() == VOICES,
            target == voices_after(before, notes@, envelope, sample_rate),
            forall|p: int| 0 <= p < pitch ==> voices@[p] == target[p],
            forall|p: int| pitch <= p < VOICES ==> voices@[p] == before[p],
            forall|p: int| 0 <= p < VOICES ==> (#[trigger] before[p]).wf(),
            forall|p: int| 0 <= p < VOICES ==> (#[trigger] target[p]).wf(),
            dry == voice_sum(target, *mix, pitch as int),
            -(pitch * ONE) <= dry <= pitch * ONE,
            notes.wf(),
            mix.wf(),
            increments@.len() == VOICES,
            forall|p: int|
                0 <= p < VOICES ==> #[trigger] increments@[p] == phase_increment(p, sample_rate),
            attack_step == envelope.attack_step(sample_rate),
            release_step == envelope.release_step(sample_rate),
        decreases VOICES - pitch,
    {
        let velocity: u8 = notes.held_velocity(pitch as u8);
        let voice: Voice = voices[pitch];
        assert(voice == before[pitch as int]);
        assert(voice.wf());
        if velocity > 0 || voice.level > 0 {
            let next: Voice = voice.advance(velocity, increments[pitch], attack_step, release_step);
            assert(next == target[pitch as int]);
            let sample: i32 = next.output(mix);
            voices[pitch] = next;
            dry = dry + sample as i64;
        } else {
            assert(voice == target[pitch as int]);
            proof {
                crate::voice::lemma_faint_voice_is_silent(voice, *mix);
            }
        }
        pitch += 1;
    }
    assert(voices@ =~= target);
    dry
}

/// How many frames a buffer of `slots` samples holds when every frame takes
/// `channels` of them: a last frame that is cut short counts as one.
pub open spec fn frame_count(slots: int, channels: int) -> int {
    if slots <= 0 {
        0
    } else {
        (slots - 1) / channels + 1
    }
}

/// The frame that `slot` belongs to when every frame takes `channels` slots.
pub open spec fn frame_of(slot: int, channels: int) -> int {
    slot / channels
}

/// A polyphonic synthesizer: 128 voices, a delay line and a moving average.
pub struct Synth {
    voices: Vec<Voice>,
    reverb: ReverbLine,
    smoother: Smoother,
    mix: WaveMix,
    envelope: Envelope,
    /// The sample rate that the three fields below were computed for, or
    /// zero if they were not computed yet.
    sample_rate: u32,
    /// The phase increment of each pitch at `sample_rate`.
    increments: Vec<u64>,
    /// The rise of level per frame at `sample_rate`.
    attack_step: u32,
    /// The fall of level per frame at `sample_rate`.
    release_step: u32,
}

impl View for Synth {
    type V = SynthModel;

    closed spec fn view(&self) -> SynthModel {
        SynthModel {
            voices: self.voices@,
            reverb: self.reverb@,
            smoother: self.smoother@,
            mix: self.mix,
            envelope: self.envelope,
        }
    }
}

impl Synth {
    /// Every part is well-formed, and what was computed for a sample rate
    /// holds for that rate.
    pub closed spec fn wf(&self) -> bool {
        &&& self@.wf()
        &&& self.reverb.wf()
        &&& self.smoother.wf()
        &&& self.increments@.len() == VOICES
        &&& self.sample_rate > 0 ==> {
            &&& forall|pitch: int|
                0 <= pitch < VOICES ==> #[trigger] self.increments@[pitch] == phase_increment(
                    pitch,
                    self.sample_rate as int,
                )
            &&& self.attack_step == self.envelope.attack_step(self.sample_rate as int)
            &&& self.release_step == self.envelope.release_step(self.sample_rate as int)
        }
    }

    /// The sample rate that the synthesizer is tuned to, or zero if it is not
    /// tuned yet.
    pub closed spec fn tuned_to(&self) -> int {
        self.sample_rate as int
    }

    /// A well-formed synthesizer has a well-formed model.
    pub proof fn lemma_wf(&self)
        requires
            self.wf(),
        ensures
            self@.wf(),
    {
    }

    /// A synthesizer at rest with the given parts, not tuned to any sample
    /// rate yet.
    pub fn new(mix: WaveMix, envelope: Envelope, reverb: ReverbLine, smoother: Smoother) -> (synth:
        Synth)
        requires
            mix.wf(),
            reverb.wf(),
            smoother.wf(),
        ensures
            synth.wf(),
            synth.tuned_to() == 0,
            synth@ == (SynthModel {
                voices: Seq::new(VOICES as nat, |pitch: int| Voice { phase: 0, level: 0, velocity: 0 }),
                reverb: reverb@,
                smoother: smoother@,
                mix,
                envelope,
            }),
    {
        let mut voices: Vec<Voice> = Vec::new();
        let mut increments: Vec<u64> = Vec::new();
        let mut pitch: usize = 0;
        while pitch < VOICES
            invariant
                pitch <= VOICES,
                voices@.len() == pitch,
                increments@.len() == pitch,
                forall|p: int|
                    0 <= p < pitch ==> voices@[p] == (Voice { phase: 0, level: 0, velocity: 0 }),
            decreases VOICES - pitch,
        {
            voices.push(Voice::new());
            increments.push(0);
            pitch += 1;
        }
        proof {
            smoother.lemma_wf();
            assert(voices@ =~= Seq::new(
                VOICES as nat,
                |pitch: int| Voice { phase: 0, level: 0, velocity: 0 },
            ));
        }
        Synth {
            voices,
            reverb,
            smoother,
            mix,
            envelope,
            sample_rate: 0,
            increments,
            attack_step: 0,
            release_step: 0,
        }
    }

    /// The plain synthesizer: the classic mix of waveforms, notes that start
    /// and stop at once, no delay and no smoothing.
    pub fn classic() -> (synth: Synth)
        ensures
            synth.wf(),
            synth.tuned_to() == 0,
            synth@ == (SynthModel {
                voices: Seq::new(VOICES as nat, |pitch: int| Voice { phase: 0, level: 0, velocity: 0 }),
                reverb: ReverbModel { line: Seq::<i64>::empty(), cursor: 0, decay: 0 },
                smoother: SmootherModel { history: Seq::<i64>::empty(), cursor: 0 },
                mix: WaveMix { sine: 30, square: 30, sawtooth: 20, triangle: 20 },
                envelope: Envelope { attack_millis: 0, release_millis: 0 },
            }),
    {
        Synth::new(WaveMix::classic(), Envelope::instant(), ReverbLine::off(), Smoother::off())
    }

    /// The sample rate that the synthesizer is tuned to, or zero if it is not
    /// tuned yet.
    pub fn sample_rate(&self) -> (sample_rate: u32)
        ensures
            sample_rate == self.tuned_to(),
    {
        self.sample_rate
    }

    /// The voice of `pitch`, for a pitch of the scale.
    pub fn voice(&self, pitch: u8) -> (voice: Option<Voice>)
        requires
            self.wf(),
        ensures
            pitch <= 127 ==> voice == Some(self@.voices[pitch as int]),
            pitch > 127 ==> voice is None,
    {
        if pitch > 127 {
            None
        } else {
            Some(self.voices[pitch as usize])
        }
    }

    /// Whether nothing sounds and nothing is left to be heard: see
    /// `SynthModel::at_rest`.
    pub fn is_at_rest(&self) -> (at_rest: bool)
        requires
            self.wf(),
        ensures
            at_rest == self@.at_rest(),
    {
        let mut pitch: usize = 0;
        while pitch < VOICES
            invariant
                pitch <= VOICES,
                self.voices@.len() == VOICES,
                forall|p: int| 0 <= p < pitch ==> (#[trigger] self.voices@[p]).level == 0,
            decreases VOICES - pitch,
        {
            if self.voices[pitch].level != 0 {
                assert(self@.voices[pitch as int].level != 0);
                return false;
            }
            pitch += 1;
        }
        self.reverb.is_silent() && self.smoother.is_silent()
    }

    /// The mix of waveforms of every voice.
    pub fn mix(&self) -> (mix: WaveMix)
        ensures
            mix == self@.mix,
    {
        self.mix
    }

    /// The attack and release of every voice.
    pub fn envelope(&self) -> (envelope: Envelope)
        ensures
            envelope == self@.envelope,
    {
        self.envelope
    }

    /// Changes the mix of waveforms of every voice, from the next frame on.
    pub fn set_mix(&mut self, mix: WaveMix)
        requires
            old(self).wf(),
            mix.wf(),
        ensures
            final(self).wf(),
            final(self).tuned_to() == old(self).tuned_to(),
            final(self)@ == (SynthModel { mix, ..old(self)@ }),
    {
        self.mix = mix;
    }

    /// Changes the attack and release of every voice, from the next frame
    /// on. The level that a voice has reached stays as it is.
    pub fn set_envelope(&mut self, envelope: Envelope)
        requires
            old(self).wf(),
        ensures
            final(self).wf(),
            final(self).tuned_to() == old(self).tuned_to(),
            final(self)@ == (SynthModel { envelope, ..old(self)@ }),
    {
        self.envelope = envelope;
        self.attack_step = ramp_step_of(envelope.attack_millis, self.sample_rate);
        self.release_step = ramp_step_of(envelope.release_millis, self.sample_rate);
    }

    /// Brings the synthesizer to rest: every voice goes back to level zero at
    /// the start of its cycle, and the delay line and the moving average
    /// forget what they hold. The mix, the envelope and the tuning stay.
    pub fn reset(&mut self)
        requires
            old(self).wf(),
        ensures
            final(self).wf(),
            final(self).tuned_to() == old(self).tuned_to(),
            final(self)@.at_rest(),
            final(self)@ == (SynthModel {
                voices: Seq::new(VOICES as nat, |pitch: int| Voice { phase: 0, level: 0, velocity: 0 }),
                reverb: ReverbModel {
                    line: Seq::new(old(self)@.reverb.line.len(), |i: int| 0i64),
                    cursor: 0,
                    decay: old(self)@.reverb.decay,
                },
                smoother: SmootherModel {
                    history: Seq::new(old(self)@.smoother.history.len(), |i: int| 0i64),
                    cursor: 0,
                },
                mix: old(self)@.mix,
                envelope: old(self)@.envelope,
            }),
    {
        let mut pitch: usize = 0;
        while pitch < VOICES
            invariant
                pitch <= VOICES,
                self.wf(),
                self.tuned_to() == old(self).tuned_to(),
                self@.reverb == old(self)@.reverb,
                self@.smoother == old(self)@.smoother,
                self@.mix == old(self)@.mix,
                self@.envelope == old(self)@.envelope,
                forall|p: int|
                    0 <= p < pitch ==> self.voices@[p] == (Voice { phase: 0, level: 0, velocity: 0 }),
            decreases VOICES - pitch,
        {
            self.voices[pitch] = Voice::new();
            pitch += 1;
        }
        self.reverb.clear();
        self.smoother.clear();
        proof {
            self.smoother.lemma_wf();
            assert(self.voices@ =~= Seq::new(
                VOICES as nat,
                |pitch: int| Voice { phase: 0, level: 0, velocity: 0 },
            ));
        }
    }

    /// Tunes the synthesizer to `sample_rate` frames per second. What it
    /// holds does not change, only the rate that the next frames are
    /// computed for.
    pub fn tune(&mut self, sample_rate: u32)
        requires
            old(self).wf(),
            sample_rate > 0,
        ensures
            final(self).wf(),
            final(self)@ == old(self)@,
            final(self).tuned_to() == sample_rate,
    {
        if self.sample_rate == sample_rate {
            return ;
        }
        self.sample_rate = 0;
        let mut pitch: usize = 0;
        while pitch < VOICES
            invariant
                pitch <= VOICES,
                sample_rate > 0,
                self.sample_rate == 0,
                self.wf(),
                self@ == old(self)@,
                forall|p: int|
                    0 <= p < pitch ==> #[trigger] self.increments@[p] == phase_increment(
                        p,
                        sample_rate as int,
                    ),
            decreases VOICES - pitch,
        {
            let increment: u64 = match phase_increment_of(pitch as u8, sample_rate) {
                Some(increment) => increment,
                None => 0,
            };
            self.increments[pitch] = increment;
            pitch += 1;
        }
        self.attack_step = ramp_step_of(self.envelope.attack_millis, sample_rate);
        self.release_step = ramp_step_of(self.envelope.release_millis, sample_rate);
        self.sample_rate = sample_rate;
    }

    /// Computes the next frame: moves every voice on by one step and returns
    /// the sample of the frame.
    pub fn next_frame(&mut self, notes: &ActiveNotes) -> (sample: i32)
        requires
            old(self).wf(),
            old(self).tuned_to() > 0,
            notes.wf(),
        ensures
            final(self).wf(),
            final(self).tuned_to() == old(self).tuned_to(),
            final(self)@ == old(self)@.frame_next(notes@, old(self).tuned_to()),
            sample == old(self)@.frame_output(notes@, old(self).tuned_to()),
            -ONE <= sample <= ONE,
    {
        let dry: i64 = advance_voices(
            &mut self.voices,
            notes,
            &self.mix,
            &self.increments,
            self.attack_step,
            self.release_step,
            Ghost(self.envelope),
            Ghost(self.sample_rate as int),
        );
        let wet: i64 = self.reverb.process(dry);
        let smoothed: i64 = self.smoother.process(wet);
        proof {
            self.smoother.lemma_wf();
        }
        clamp_sample(smoothed)
    }

    /// Fills a buffer with sound.
    ///
    /// `data` is read as frames of `channels` slots each; a last frame may be
    /// cut short. One sample is computed for each frame, with `notes` held
    /// throughout, and written to every slot of the frame. The synthesizer
    /// goes on from where the buffer before ended. `waveform` is set to the
    /// picture of this buffer: its samples from the first on as far as they
    /// fit, and zeros after them.
    pub fn render(
        &mut self,
        notes: &ActiveNotes,
        waveform: &mut WaveformBuffer,
        data: &mut [i32],
        channels: usize,
        sample_rate: u32,
    )
        requires
            old(self).wf(),
            notes.wf(),
            channels > 0,
            sample_rate > 0,
        ensures
            final(self).wf(),
            final(self).tuned_to() == sample_rate,
            final(self)@ == old(self)@.after_frames(
                notes@,
                sample_rate as int,
                frame_count(old(data)@.len() as int, channels as int) as nat,
            ),
            final(data)@.len() == old(data)@.len(),
            forall|slot: int|
                0 <= slot < old(data)@.len() ==> #[trigger] final(data)@[slot] == old(
                    self,
                )@.output_at(notes@, sample_rate as int, frame_of(slot, channels as int) as nat),
            forall|slot: int|
                0 <= slot < old(data)@.len() ==> -ONE <= #[trigger] final(data)@[slot] <= ONE,
            final(waveform)@.len() == old(waveform)@.len(),
            forall|index: int|
                0 <= index < old(waveform)@.len() ==> #[trigger] final(waveform)@[index] == (if index
                    < frame_count(old(data)@.len() as int, channels as int) {
                    old(self)@.output_at(notes@, sample_rate as int, index as nat)
                } else {
                    0
                }),
    {
        self.tune(sample_rate);
        waveform.clear();
        let ghost start = self@;
        let ghost rate = sample_rate as int;
        let ghost width = channels as int;
        let ghost picture_len = waveform@.len();
        let length: usize = data.len();
        let mut slot: usize = 0;
        let mut frame: usize = 0;
        while slot < length
            invariant
                self.wf(),
                self.tuned_to() == sample_rate,
                notes.wf(),
                channels > 0,
                sample_rate > 0,
                rate == sample_rate as int,
                width == channels as int,
                data@.len() == length,
                frame <= slot <= length,
                slot < length ==> slot == frame * width,
                frame == frame_count(slot as int, width),
                self@ == start.after_frames(notes@, rate, frame as nat),
                forall|s: int|
                    0 <= s < slot ==> #[trigger] data@[s] == start.output_at(
                        notes@,
                        rate,
                        frame_of(s, width) as nat,
                    ),
                forall|s: int| 0 <= s < slot ==> -ONE <= #[trigger] data@[s] <= ONE,
                waveform@.len() == picture_len,
                forall|i: int|
                    0 <= i < picture_len ==> #[trigger] waveform@[i] == (if i < frame {
                        start.output_at(notes@, rate, i as nat)
                    } else {
                        0
                    }),
            decreases length - slot,
        {
            let sample: i32 = self.next_frame(notes);
            assert(sample == start.output_at(notes@, rate, frame as nat));
            let end: usize = if length - slot < channels {
                length
            } else {
                slot + channels
            };
            proof {
                lemma_frame_slots(slot as int, end as int, frame as int, width);
            }
            let mut at: usize = slot;
            while at < end
                invariant
                    slot <= at <= end <= length,
                    data@.len() == length,
                    -ONE <= sample <= ONE,
                    sample == start.output_at(notes@, rate, frame as nat),
                    forall|s: int| slot <= s < end ==> #[trigger] frame_of(s, width) == frame,
                    forall|s: int|
                        0 <= s < at ==> #[trigger] data@[s] == start.output_at(
                            notes@,
                            rate,
                            frame_of(s, width) as nat,
                        ),
                    forall|s: int| 0 <= s < at ==> -ONE <= #[trigger] data@[s] <= ONE,
                decreases end - at,
            {
                data[at] = sample;
                at += 1;
            }
            waveform.record(frame, sample);
            slot = end;
            frame += 1;
        }
    }
}

/// The slots of one frame: where frame `frame` starts at slot
/// `frame * channels` and ends at `end`, no more than `channels` slots later,
/// every slot of it divides to `frame`, and the slots up to `end` make
/// `frame + 1` frames.
proof fn lemma_frame_slots(start: int, end: int, frame: int, channels: int)
    requires
        0 <= frame,
        0 < channels,
        start == frame * channels,
        start < end <= start + channels,
    ensures
        forall|s: int| start <= s < end ==> #[trigger] frame_of(s, channels) == frame,
        frame_count(end, channels) == frame + 1,
        end == start + channels ==> end == (frame + 1) * channels,
{
    assert forall|s: int| start <= s < end implies #[trigger] frame_of(s, channels) == frame by {
        lemma_quotient(s, channels, frame);
    }
    lemma_quotient(end - 1, channels, frame);
    assert((frame + 1) * channels == frame * channels + channels) by (nonlinear_arith);
}

/// A number from `q * d` up to but not including `(q + 1) * d` divides by `d`
/// to `q`.
proof fn lemma_quotient(x: int, d: int, q: int)
    requires
        0 < d,
        q * d <= x < q * d + d,
    ensures
        x / d == q,
{
    vstd::arithmetic::div_mod::lemma_fundamental_div_mod_converse(x, d, q, x - q * d);
}

} // verus!
