//! Filling the buffers of a stereo output.

use vstd::prelude::*;
use crate::fixed::ONE;
use crate::state::AppState;
use crate::synth::frame_count;
use crate::synth::frame_of;

verus! {

/// How many slots a frame of the output takes: left and right.
pub const STEREO: usize = 2;

/// Fills a stereo buffer with the sound of the notes that are held.
///
/// Every pair of slots is one frame and gets one sample in both slots; a
/// single slot left over at the end is a frame of its own. The synthesizer
/// goes on from where the buffer before ended, and the picture is set to
/// this buffer's samples.
pub fn process_audio_data(data: &mut [i32], state: &mut AppState, sample_rate: u32)
    requires
        old(state).wf(),
        sample_rate > 0,
    ensures
        final(state).wf(),
        final(state).active_notes == old(state).active_notes,
        final(state).synth.tuned_to() == sample_rate,
        final(state).synth@ == old(state).synth@.after_frames(
            old(state).active_notes@,
            sample_rate as int,
            frame_count(old(data)@.len() as int, STEREO as int) as nat,
        ),
        final(data)@.len() == old(data)@.len(),
        forall|slot: int|
            0 <= slot < old(data)@.len() ==> #[trigger] final(data)@[slot] == old(
                state,
            ).synth@.output_at(
                old(state).active_notes@,
                sample_rate as int,
                frame_of(slot, STEREO as int) as nat,
            ),
        forall|slot: int|
            0 <= slot < old(data)@.len() ==> -ONE <= #[trigger] final(data)@[slot] <= ONE,
        final(state).waveform_buffer@.len() == old(state).waveform_buffer@.len(),
        forall|index: int|
            0 <= index < old(state).waveform_buffer@.len()
                ==> #[trigger] final(state).waveform_buffer@[index] == (if index < frame_count(
                old(data)@.len() as int,
                STEREO as int,
            ) {
                old(state).synth@.output_at(
                    old(state).active_notes@,
                    sample_rate as int,
                    index as nat,
                )
            } else {
                0
            }),
{
    state.synth.render(
        &state.active_notes,
        &mut state.waveform_buffer,
        data,
        STEREO,
        sample_rate,
    );
}

} // verus!
