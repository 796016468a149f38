use polysynth::audio::process_audio_data;
use polysynth::envelope::Envelope;
use polysynth::envelope::LEVEL_ONE;
use polysynth::fixed::ONE;
use polysynth::notes::handle_message;
use polysynth::notes::ActiveNotes;
use polysynth::reverb::ReverbLine;
use polysynth::smooth::Smoother;
use polysynth::state::AppState;
use polysynth::synth::Synth;
use polysynth::voice::Voice;
use polysynth::wave::WaveMix;
use polysynth::waveform::WaveformBuffer;

fn notes_of(pairs: &[(u8, u8)]) -> ActiveNotes {
    let mut notes = ActiveNotes::new();
    for (pitch, velocity) in pairs {
        assert!(notes.note_on(*pitch, *velocity));
    }
    notes
}

fn frames(synth: &mut Synth, notes: &ActiveNotes, count: usize, sample_rate: u32) -> Vec<i32> {
    let mut data = vec![0i32; count];
    let mut waveform = WaveformBuffer::new(0);
    synth.render(notes, &mut waveform, &mut data, 1, sample_rate);
    data
}

fn with_envelope(attack_millis: u32, release_millis: u32) -> Synth {
    Synth::new(
        WaveMix::classic(),
        Envelope::new(attack_millis, release_millis),
        ReverbLine::off(),
        Smoother::off(),
    )
}

#[test]
fn new_synth_is_at_rest_and_not_tuned() {
    let synth = Synth::classic();
    assert!(synth.is_at_rest());
    assert_eq!(synth.sample_rate(), 0);
    assert_eq!(synth.mix(), WaveMix::classic());
    assert_eq!(synth.envelope(), Envelope::instant());
    for pitch in 0..=127u8 {
        assert_eq!(synth.voice(pitch), Some(Voice { phase: 0, level: 0, velocity: 0 }));
    }
    assert_eq!(synth.voice(128), None);
}

#[test]
fn tune_sets_the_sample_rate_and_nothing_else() {
    let mut synth = Synth::classic();
    synth.tune(48000);
    assert_eq!(synth.sample_rate(), 48000);
    assert!(synth.is_at_rest());
    let notes = notes_of(&[(69, 127)]);
    assert_eq!(synth.next_frame(&notes), 10276);
    let voice = synth.voice(69);
    synth.tune(44100);
    assert_eq!(synth.sample_rate(), 44100);
    assert_eq!(synth.voice(69), voice);
    synth.next_frame(&notes);
    assert_eq!(synth.voice(69).unwrap().phase, 39370533 + 42852281);
}

#[test]
fn concert_pitch_at_full_velocity() {
    let mut synth = Synth::classic();
    let notes = notes_of(&[(69, 127)]);
    let mut data = [0i32; 8];
    let mut waveform = WaveformBuffer::new(1024);
    synth.render(&notes, &mut waveform, &mut data, 2, 48000);
    assert_eq!(data, [10276, 10276, 10720, 10720, 11160, 11160, 11595, 11595]);
    assert_eq!(
        synth.voice(69),
        Some(Voice { phase: 4 * 39370533, level: LEVEL_ONE, velocity: 127 })
    );
    let first = data[0] as f64 / 32768.0;
    let increment = 440.0_f64 / 48000.0;
    let closed_form = 0.3 * (2.0 * std::f64::consts::PI * increment).sin()
        + 0.3
        + 0.2 * (2.0 * increment - 1.0)
        + 0.2 * ((2.0 * increment - 1.0).abs() * 2.0 - 1.0);
    assert!((first - closed_form).abs() < 0.00003);
}

#[test]
fn next_frame_gives_the_frames_of_a_buffer_one_by_one() {
    let notes = notes_of(&[(69, 127)]);
    let mut synth = Synth::classic();
    synth.tune(48000);
    let one_by_one: Vec<i32> = (0..4).map(|_| synth.next_frame(&notes)).collect();
    assert_eq!(one_by_one, vec![10276, 10720, 11160, 11595]);
}

#[test]
fn no_notes_give_silence() {
    let mut synth = Synth::classic();
    let notes = ActiveNotes::new();
    let mut data = [77i32; 64];
    let mut waveform = WaveformBuffer::new(16);
    waveform.record(3, 99);
    synth.render(&notes, &mut waveform, &mut data, 2, 48000);
    assert_eq!(data, [0i32; 64]);
    assert_eq!(waveform.samples(), &[0i32; 16][..]);
    assert!(synth.is_at_rest());
}

#[test]
fn silence_with_every_effect_switched_on() {
    let mut synth = Synth::new(
        WaveMix::classic(),
        Envelope::new(10, 100),
        ReverbLine::new(5, 20000).unwrap(),
        Smoother::new(3).unwrap(),
    );
    assert_eq!(frames(&mut synth, &ActiveNotes::new(), 100, 44100), vec![0i32; 100]);
    assert!(synth.is_at_rest());
}

#[test]
fn every_sample_stays_within_full_scale_with_all_notes_held() {
    let mut notes = ActiveNotes::new();
    for pitch in 0..=127u8 {
        notes.note_on(pitch, 127);
    }
    let mut synth = Synth::classic();
    let out = frames(&mut synth, &notes, 2000, 48000);
    assert!(out.iter().all(|sample| -ONE <= *sample && *sample <= ONE));
    assert_eq!(out[..16], [32768i32; 16]);
    assert!(out.iter().any(|sample| *sample == -ONE));
}

#[test]
fn every_sample_stays_within_full_scale_with_loud_effects() {
    let mut notes = ActiveNotes::new();
    for pitch in 0..=127u8 {
        notes.note_on(pitch, 127);
    }
    let mut synth = Synth::new(
        WaveMix::new(0, 100, 0, 0).unwrap(),
        Envelope::new(1, 1),
        ReverbLine::new(7, 32767).unwrap(),
        Smoother::new(5).unwrap(),
    );
    let out = frames(&mut synth, &notes, 3000, 8000);
    assert!(out.iter().all(|sample| -ONE <= *sample && *sample <= ONE));
    let tail = frames(&mut synth, &ActiveNotes::new(), 3000, 8000);
    assert!(tail.iter().all(|sample| -ONE <= *sample && *sample <= ONE));
}

#[test]
fn two_buffers_sound_like_one() {
    let notes = notes_of(&[(60, 100), (67, 80)]);
    let mut whole = Synth::classic();
    let all = frames(&mut whole, &notes, 96, 44100);
    let mut parts = Synth::classic();
    let first = frames(&mut parts, &notes, 40, 44100);
    let at_the_seam = parts.voice(60).unwrap();
    let second = frames(&mut parts, &notes, 56, 44100);
    assert_eq!(first[..], all[..40]);
    assert_eq!(second[..], all[40..]);
    assert_eq!(at_the_seam.phase, 1019204720);
    assert_eq!(parts.voice(60), whole.voice(60));
    assert_eq!(parts.voice(67), whole.voice(67));
}

#[test]
fn phase_goes_on_where_the_last_buffer_ended() {
    let notes = notes_of(&[(69, 127)]);
    let mut synth = Synth::classic();
    frames(&mut synth, &notes, 100, 48000);
    let end_of_first = synth.voice(69).unwrap().phase;
    assert_eq!(end_of_first, (100u64 * 39370533) as u32);
    synth.tune(48000);
    assert_eq!(synth.voice(69).unwrap().phase, end_of_first);
    synth.next_frame(&notes);
    assert_eq!(synth.voice(69).unwrap().phase, (101u64 * 39370533) as u32);
    frames(&mut synth, &notes, 1000, 48000);
    assert_eq!(synth.voice(69).unwrap().phase, (1101u64 * 39370533 % (1 << 32)) as u32);
}

#[test]
fn two_held_notes_add_up() {
    let mut both = Synth::classic();
    let chord = frames(&mut both, &notes_of(&[(60, 100), (64, 80)]), 8, 44100);
    let mut low = Synth::classic();
    let c = frames(&mut low, &notes_of(&[(60, 100)]), 8, 44100);
    let mut high = Synth::classic();
    let e = frames(&mut high, &notes_of(&[(64, 80)]), 8, 44100);
    assert_eq!(c, vec![7968, 8195, 8421, 8646, 8869, 9090, 9309, 9525]);
    assert_eq!(e, vec![6421, 6650, 6877, 7102, 7324, 7544, 7760, 7971]);
    assert_eq!(chord, vec![14389, 14845, 15298, 15748, 16193, 16634, 17069, 17496]);
    for i in 0..8 {
        assert_eq!(chord[i], c[i] + e[i]);
    }
    assert_eq!(both.voice(60), Some(Voice { phase: 203840944, level: LEVEL_ONE, velocity: 100 }));
    assert_eq!(both.voice(64), Some(Voice { phase: 256823496, level: LEVEL_ONE, velocity: 80 }));
}

#[test]
fn the_sum_is_clamped_not_the_notes() {
    let square = WaveMix::new(0, 100, 0, 0).unwrap();
    let plain = || Synth::new(square, Envelope::instant(), ReverbLine::off(), Smoother::off());
    let mut one = plain();
    assert_eq!(frames(&mut one, &notes_of(&[(60, 127)]), 1, 48000), vec![32768]);
    let mut other = plain();
    assert_eq!(frames(&mut other, &notes_of(&[(61, 100)]), 1, 48000), vec![25802]);
    let mut chord = plain();
    assert_eq!(frames(&mut chord, &notes_of(&[(60, 127), (61, 100)]), 1, 48000), vec![32768]);
    let mut synth = plain();
    synth.tune(48000);
    let top = notes_of(&[(127, 127)]);
    for _ in 0..5 {
        synth.next_frame(&top);
    }
    assert_eq!(synth.voice(127).unwrap().phase, 1317057959);
    assert_eq!(synth.next_frame(&notes_of(&[(60, 127), (61, 100), (127, 127)])), 25802);
}

#[test]
fn a_note_let_go_fades_over_the_release_time() {
    let mut synth = with_envelope(0, 10);
    let held = frames(&mut synth, &notes_of(&[(60, 127)]), 8, 48000);
    assert_eq!(held, vec![10096, 10360, 10625, 10887, 11148, 11408, 11664, 11919]);
    assert_eq!(synth.voice(60), Some(Voice { phase: 187278872, level: LEVEL_ONE, velocity: 127 }));
    let none = ActiveNotes::new();
    synth.tune(48000);
    let mut levels = vec![LEVEL_ONE];
    let mut tail = Vec::new();
    for _ in 0..600 {
        tail.push(synth.next_frame(&none));
        levels.push(synth.voice(60).unwrap().level);
    }
    assert_eq!(tail[..6], [12144, 12365, 12581, 12793, 12998, 13198]);
    assert!((tail[0] - held[7]).abs() < 300);
    assert!(levels.windows(2).all(|pair| pair[1] <= pair[0]));
    assert_eq!(levels[1], LEVEL_ONE - 2236962);
    assert_eq!(levels[2], LEVEL_ONE - 2 * 2236962);
    assert_eq!(levels[479], LEVEL_ONE - 479 * 2236962);
    assert_eq!(levels[480], 0);
    assert_eq!(levels[600], 0);
    assert_ne!(tail[478], 0);
    assert!(tail[479..].iter().all(|sample| *sample == 0));
    assert!(synth.is_at_rest());
    assert_eq!(synth.voice(60), Some(Voice { phase: 2810666741, level: 0, velocity: 127 }));
}

#[test]
fn a_note_struck_and_let_go_between_two_buffers_is_not_heard() {
    let mut synth = with_envelope(0, 10);
    let mut notes = ActiveNotes::new();
    frames(&mut synth, &notes, 16, 48000);
    notes.note_on(60, 127);
    notes.note_off(60);
    assert_eq!(frames(&mut synth, &notes, 16, 48000), vec![0i32; 16]);
    assert!(synth.is_at_rest());
}

#[test]
fn without_a_release_a_note_stops_at_once() {
    let mut synth = Synth::classic();
    frames(&mut synth, &notes_of(&[(60, 127)]), 8, 48000);
    assert_eq!(frames(&mut synth, &ActiveNotes::new(), 8, 48000), vec![0i32; 8]);
    assert_eq!(synth.voice(60), Some(Voice { phase: 187278872, level: 0, velocity: 127 }));
    assert!(synth.is_at_rest());
}

#[test]
fn a_note_rises_over_the_attack_time() {
    let mut synth = with_envelope(10, 10);
    let notes = notes_of(&[(60, 127)]);
    synth.tune(48000);
    let mut out = Vec::new();
    let mut levels = Vec::new();
    for _ in 0..6 {
        out.push(synth.next_frame(&notes));
        levels.push(synth.voice(60).unwrap().level);
    }
    assert_eq!(out, vec![21, 43, 66, 91, 116, 143]);
    assert_eq!(levels[..5], [2236962, 4473924, 6710886, 8947848, 11184810]);
    for _ in 6..480 {
        synth.next_frame(&notes);
    }
    assert_eq!(synth.voice(60).unwrap().level, 480 * 2236962);
    synth.next_frame(&notes);
    assert_eq!(synth.voice(60).unwrap().level, LEVEL_ONE);
    synth.next_frame(&notes);
    assert_eq!(synth.voice(60).unwrap().level, LEVEL_ONE);
}

#[test]
fn striking_a_ringing_note_again_keeps_its_phase() {
    let mut synth = with_envelope(0, 10);
    let held = notes_of(&[(60, 127)]);
    let none = ActiveNotes::new();
    frames(&mut synth, &held, 10, 48000);
    frames(&mut synth, &none, 10, 48000);
    let ringing = synth.voice(60).unwrap();
    assert_eq!(ringing.phase, 20 * 23409859);
    assert_eq!(ringing.level, LEVEL_ONE - 10 * 2236962);
    frames(&mut synth, &notes_of(&[(60, 90)]), 1, 48000);
    assert_eq!(
        synth.voice(60),
        Some(Voice { phase: 21 * 23409859, level: LEVEL_ONE, velocity: 90 })
    );
}

#[test]
fn reverb_repeats_the_sound_after_the_notes() {
    let mut synth = Synth::new(
        WaveMix::classic(),
        Envelope::instant(),
        ReverbLine::new(4, 16384).unwrap(),
        Smoother::off(),
    );
    let mut out = frames(&mut synth, &notes_of(&[(69, 127)]), 6, 48000);
    out.extend(frames(&mut synth, &ActiveNotes::new(), 10, 48000));
    assert_eq!(
        out,
        vec![
            10276, 10720, 11160, 11595, 17160, 17799, 5580, 5797, 8580, 8899, 2790, 2898, 4290,
            4449, 1395, 1449
        ]
    );
    assert!(!synth.is_at_rest());
    let rest = frames(&mut synth, &ActiveNotes::new(), 60, 48000);
    assert_eq!(rest[56..], [0, 0, 0, 0]);
    assert!(synth.is_at_rest());
}

#[test]
fn smoothing_rounds_off_the_start_and_the_end() {
    let mut synth = Synth::new(
        WaveMix::classic(),
        Envelope::instant(),
        ReverbLine::off(),
        Smoother::new(4).unwrap(),
    );
    let mut out = frames(&mut synth, &notes_of(&[(69, 127)]), 6, 48000);
    out.extend(frames(&mut synth, &ActiveNotes::new(), 6, 48000));
    assert_eq!(out, vec![2569, 5249, 8039, 10937, 11374, 11804, 9014, 6115, 3109, 0, 0, 0]);
    assert!(synth.is_at_rest());
}

#[test]
fn all_stages_together() {
    let mut synth = Synth::new(
        WaveMix::classic(),
        Envelope::new(5, 50),
        ReverbLine::new(3, 20000).unwrap(),
        Smoother::new(2).unwrap(),
    );
    let mut out = frames(&mut synth, &notes_of(&[(57, 90), (72, 64)]), 8, 22050);
    out.extend(frames(&mut synth, &notes_of(&[(72, 10)]), 8, 22050));
    assert_eq!(
        out,
        vec![58, 183, 323, 513, 758, 1022, 1324, 1664, 1679, 1631, 1858, 1883, 1866, 2011, 2029, 2016]
    );
    assert_eq!(synth.voice(57), Some(Voice { phase: 685636496, level: 70121912, velocity: 90 }));
    assert_eq!(synth.voice(72), Some(Voice { phase: 1630727600, level: 155826464, velocity: 10 }));
}

#[test]
fn every_slot_of_a_frame_gets_the_same_sample() {
    let notes = notes_of(&[(69, 127)]);
    let mut synth = Synth::classic();
    let mut data = [0i32; 7];
    let mut waveform = WaveformBuffer::new(4);
    synth.render(&notes, &mut waveform, &mut data, 3, 48000);
    assert_eq!(data, [10276, 10276, 10276, 10720, 10720, 10720, 11160]);
    assert_eq!(waveform.samples(), &[10276, 10720, 11160, 0][..]);
    assert_eq!(synth.voice(69).unwrap().phase, 3 * 39370533);
}

#[test]
fn more_channels_than_slots_make_one_frame() {
    let notes = notes_of(&[(69, 127)]);
    let mut synth = Synth::classic();
    let mut data = [0i32; 3];
    let mut waveform = WaveformBuffer::new(2);
    synth.render(&notes, &mut waveform, &mut data, usize::MAX, 48000);
    assert_eq!(data, [10276, 10276, 10276]);
    assert_eq!(waveform.samples(), &[10276, 0][..]);
}

#[test]
fn an_empty_buffer_changes_nothing_but_clears_the_picture() {
    let notes = notes_of(&[(69, 127)]);
    let mut synth = Synth::classic();
    let mut waveform = WaveformBuffer::new(2);
    waveform.record(0, 5);
    let mut data: [i32; 0] = [];
    synth.render(&notes, &mut waveform, &mut data, 2, 48000);
    assert_eq!(waveform.samples(), &[0, 0][..]);
    assert!(synth.is_at_rest());
    assert_eq!(synth.sample_rate(), 48000);
}

#[test]
fn the_picture_never_grows_and_is_overwritten_in_full() {
    let notes = notes_of(&[(69, 127)]);
    let mut synth = Synth::classic();
    let mut waveform = WaveformBuffer::new(1024);
    let mut long = vec![0i32; 4096];
    synth.render(&notes, &mut waveform, &mut long, 2, 48000);
    assert_eq!(waveform.len(), 1024);
    for frame in 0..1024 {
        assert_eq!(waveform.get(frame), Some(long[2 * frame]));
    }
    assert_ne!(waveform.get(1023), Some(0));
    let mut short = vec![0i32; 20];
    synth.render(&notes, &mut waveform, &mut short, 2, 48000);
    assert_eq!(waveform.len(), 1024);
    for frame in 0..10 {
        assert_eq!(waveform.get(frame), Some(short[2 * frame]));
    }
    for index in 10..1024 {
        assert_eq!(waveform.get(index), Some(0));
    }
}

#[test]
fn the_sample_rate_is_taken_anew_for_every_buffer() {
    let notes = notes_of(&[(69, 127)]);
    let mut synth = Synth::classic();
    frames(&mut synth, &notes, 2, 48000);
    assert_eq!(synth.voice(69).unwrap().phase, 2 * 39370533);
    frames(&mut synth, &notes, 2, 44100);
    assert_eq!(synth.voice(69).unwrap().phase, 2 * 39370533 + 2 * 42852281);
    assert_eq!(synth.sample_rate(), 44100);
}

#[test]
fn a_sample_rate_under_the_frequency_wraps_the_phase() {
    let notes = notes_of(&[(127, 127)]);
    let mut synth = Synth::classic();
    let out = frames(&mut synth, &notes, 4, 1);
    assert!(out.iter().all(|sample| -ONE <= *sample && *sample <= ONE));
    assert_eq!(synth.voice(127).unwrap().phase, (4u64 * 3667656704 % (1 << 32)) as u32);
}

#[test]
fn new_state_is_empty_with_a_picture_of_1024_zeros() {
    let state = AppState::new();
    assert!(state.active_notes.is_empty());
    assert!(state.synth.is_at_rest());
    assert_eq!(state.synth.mix(), WaveMix::classic());
    assert_eq!(state.synth.envelope(), Envelope::instant());
    assert_eq!(state.waveform_buffer.len(), 1024);
    assert_eq!(state.waveform_buffer.samples(), &[0i32; 1024][..]);
}

#[test]
fn process_audio_data_fills_stereo_frames() {
    let mut state = AppState::new();
    handle_message(&mut state.active_notes, &[0x90, 69, 127]);
    let mut data = [0i32; 9];
    process_audio_data(&mut data, &mut state, 48000);
    assert_eq!(data, [10276, 10276, 10720, 10720, 11160, 11160, 11595, 11595, 12022]);
    assert_eq!(state.waveform_buffer.samples()[..6], [10276, 10720, 11160, 11595, 12022, 0]);
    assert_eq!(state.waveform_buffer.len(), 1024);
    assert_eq!(state.active_notes.velocity(69), Some(127));
    handle_message(&mut state.active_notes, &[0x80, 69, 0]);
    process_audio_data(&mut data, &mut state, 48000);
    assert_eq!(data, [0i32; 9]);
    assert_eq!(state.waveform_buffer.samples(), &[0i32; 1024][..]);
}

#[test]
fn set_mix_changes_the_sound_from_the_next_frame_on() {
    let notes = notes_of(&[(69, 127)]);
    let mut synth = Synth::classic();
    synth.tune(48000);
    assert_eq!(synth.next_frame(&notes), 10276);
    let voice = synth.voice(69);
    let square = WaveMix::new(0, 100, 0, 0).unwrap();
    synth.set_mix(square);
    assert_eq!(synth.mix(), square);
    assert_eq!(synth.voice(69), voice);
    assert_eq!(synth.sample_rate(), 48000);
    assert_eq!(synth.next_frame(&notes), 32768);
    synth.set_mix(WaveMix::new(0, 0, 100, 0).unwrap());
    assert_eq!(synth.next_frame(&notes), -30966);
}

#[test]
fn set_envelope_changes_the_ramps_and_keeps_the_levels() {
    let held = notes_of(&[(60, 127)]);
    let none = ActiveNotes::new();
    let mut synth = Synth::classic();
    synth.set_envelope(Envelope::new(10, 10));
    assert_eq!(synth.envelope(), Envelope::new(10, 10));
    assert_eq!(synth.sample_rate(), 0);
    synth.tune(48000);
    synth.next_frame(&held);
    assert_eq!(synth.voice(60).unwrap().level, 2236962);
    synth.set_envelope(Envelope::new(1000, 2000));
    assert_eq!(synth.voice(60).unwrap().level, 2236962);
    synth.next_frame(&held);
    assert_eq!(synth.voice(60).unwrap().level, 2236962 + 22369);
    synth.next_frame(&none);
    assert_eq!(synth.voice(60).unwrap().level, 2236962 + 22369 - 11184);
    synth.set_envelope(Envelope::instant());
    synth.next_frame(&held);
    assert_eq!(synth.voice(60).unwrap().level, LEVEL_ONE);
    synth.next_frame(&none);
    assert_eq!(synth.voice(60).unwrap().level, 0);
}

#[test]
fn reset_brings_the_synth_to_rest() {
    let mut synth = Synth::new(
        WaveMix::classic(),
        Envelope::new(5, 500),
        ReverbLine::new(16, 30000).unwrap(),
        Smoother::new(4).unwrap(),
    );
    frames(&mut synth, &notes_of(&[(60, 127), (72, 90)]), 200, 48000);
    assert!(!synth.is_at_rest());
    synth.reset();
    assert!(synth.is_at_rest());
    assert_eq!(synth.sample_rate(), 48000);
    assert_eq!(synth.mix(), WaveMix::classic());
    assert_eq!(synth.envelope(), Envelope::new(5, 500));
    for pitch in 0..=127u8 {
        assert_eq!(synth.voice(pitch), Some(Voice { phase: 0, level: 0, velocity: 0 }));
    }
    assert_eq!(frames(&mut synth, &ActiveNotes::new(), 50, 48000), vec![0i32; 50]);
    let mut fresh = Synth::new(
        WaveMix::classic(),
        Envelope::new(5, 500),
        ReverbLine::new(16, 30000).unwrap(),
        Smoother::new(4).unwrap(),
    );
    let notes = notes_of(&[(64, 100)]);
    assert_eq!(frames(&mut synth, &notes, 100, 48000), frames(&mut fresh, &notes, 100, 48000));
}

fn closed_form(hertz: f64, sample_rate: f64) -> f64 {
    let x = hertz / sample_rate;
    let square = if x < 0.5 { 1.0 } else { -1.0 };
    0.3 * (2.0 * std::f64::consts::PI * x).sin()
        + 0.3 * square
        + 0.2 * (2.0 * x - 1.0)
        + 0.2 * ((2.0 * x - 1.0).abs() * 2.0 - 1.0)
}

fn hertz(pitch: u8) -> f64 {
    440.0 * 2.0_f64.powf((pitch as f64 - 69.0) / 12.0)
}

#[test]
fn first_frame_of_one_note_matches_the_closed_form() {
    let mut state = AppState::new();
    state.active_notes.note_on(69, 127);
    let mut data = [0i32; 2];
    process_audio_data(&mut data, &mut state, 48000);
    assert_eq!(data, [10276, 10276]);
    let value = data[0] as f64 / 32768.0;
    assert!((value - closed_form(440.0, 48000.0)).abs() < 1e-4);
    assert!((value - 0.313603).abs() < 1e-4);
}

#[test]
fn first_frame_of_two_notes_matches_the_closed_form() {
    let mut state = AppState::new();
    state.active_notes.note_on(60, 127);
    state.active_notes.note_on(64, 64);
    let mut data = [0i32; 2];
    process_audio_data(&mut data, &mut state, 48000);
    assert_eq!(data, [15218, 15218]);
    let value = data[0] as f64 / 32768.0;
    let expected = closed_form(hertz(60), 48000.0) + 64.0 / 127.0 * closed_form(hertz(64), 48000.0);
    assert!((value - expected).abs() < 1e-4);
    assert!((value - 0.464410).abs() < 1e-4);
}

#[test]
fn first_frame_of_any_single_note_is_within_a_sample_step_of_the_closed_form() {
    for pitch in 0..=127u8 {
        for rate in [8000u32, 22050, 44100, 48000, 96000] {
            if hertz(pitch) * 2.0 > rate as f64 {
                continue;
            }
            let mut synth = Synth::classic();
            let got = frames(&mut synth, &notes_of(&[(pitch, 127)]), 1, rate)[0] as f64;
            let x = synth.voice(pitch).unwrap().phase as f64 / 4294967296.0;
            let exact = 32768.0 * closed_form(x, 1.0);
            assert!((got - exact).abs() <= 1.0, "pitch {} rate {}", pitch, rate);
        }
    }
}
