//! The state of a performance: the notes that are held, the synthesizer that
//! sounds them, and the picture of the most recent buffer.

use vstd::prelude::*;
use crate::envelope::Envelope;
use crate::notes::ActiveNotes;
use crate::reverb::ReverbModel;
use crate::smooth::SmootherModel;
use crate::synth::Synth;
use crate::synth::SynthModel;
use crate::synth::VOICES;
use crate::voice::Voice;
use crate::wave::WaveMix;
use crate::waveform::WAVEFORM_LEN;
use crate::waveform::WaveformBuffer;

verus! {

/// The state of a performance. Its three parts are independent: whoever
/// shares them between threads can guard each part on its own.
pub struct AppState {
    /// The notes that are held.
    pub active_notes: ActiveNotes,
    /// The synthesizer, with the phase and level of every voice.
    pub synth: Synth,
    /// The picture of the most recent buffer.
    pub waveform_buffer: WaveformBuffer,
}

impl AppState {
    /// The notes and the synthesizer are well-formed.
    pub open spec fn wf(&self) -> bool {
        self.active_notes.wf() && self.synth.wf()
    }

    /// The state before the first note: nothing held, the plain synthesizer
    /// at rest, and a picture of `WAVEFORM_LEN` zeros.
    pub fn new() -> (state: AppState)
        ensures
            state.wf(),
            state.active_notes@ == Map::<u8, u8>::empty(),
            state.synth.tuned_to() == 0,
            state.synth@ == (SynthModel {
                voices: Seq::new(VOICES as nat, |pitch: int| Voice { phase: 0, level: 0, velocity: 0 }),
                reverb: ReverbModel { line: Seq::<i64>::empty(), cursor: 0, decay: 0 },
                smoother: SmootherModel { history: Seq::<i64>::empty(), cursor: 0 },
                mix: WaveMix { sine: 30, square: 30, sawtooth: 20, triangle: 20 },
                envelope: Envelope { attack_millis: 0, release_millis: 0 },
            }),
            state.synth@.at_rest(),
            state.waveform_buffer@ == Seq::new(WAVEFORM_LEN as nat, |i: int| 0i32),
    {
        AppState {
            active_notes: ActiveNotes::new(),
            synth: Synth::classic(),
            waveform_buffer: WaveformBuffer::new(WAVEFORM_LEN),
        }
    }
}

} // verus!
