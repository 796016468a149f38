use polysynth::fixed::clamp_sample;
use polysynth::fixed::ONE;
use polysynth::sine::sine_wave;
use polysynth::wave::sawtooth_wave;
use polysynth::wave::square_wave;
use polysynth::wave::triangle_wave;
use polysynth::wave::WaveMix;

#[test]
fn full_scale_is_two_to_the_fifteenth() {
    assert_eq!(ONE, 32768);
}

#[test]
fn clamp_keeps_values_in_range_and_limits_the_rest() {
    assert_eq!(clamp_sample(0), 0);
    assert_eq!(clamp_sample(12345), 12345);
    assert_eq!(clamp_sample(-12345), -12345);
    assert_eq!(clamp_sample(32768), 32768);
    assert_eq!(clamp_sample(-32768), -32768);
    assert_eq!(clamp_sample(32769), 32768);
    assert_eq!(clamp_sample(-32769), -32768);
    assert_eq!(clamp_sample(i64::MAX), 32768);
    assert_eq!(clamp_sample(i64::MIN), -32768);
}

#[test]
fn square_wave_flips_at_the_half_cycle() {
    assert_eq!(square_wave(0), 32768);
    assert_eq!(square_wave(0x7fff_ffff), 32768);
    assert_eq!(square_wave(0x8000_0000), -32768);
    assert_eq!(square_wave(0xffff_ffff), -32768);
}

#[test]
fn sawtooth_wave_ramps_up_over_the_cycle() {
    assert_eq!(sawtooth_wave(0), -32768);
    assert_eq!(sawtooth_wave(0x1000_0000), -28672);
    assert_eq!(sawtooth_wave(0x4000_0000), -16384);
    assert_eq!(sawtooth_wave(0x7fff_ffff), 0);
    assert_eq!(sawtooth_wave(0x7fff_7fff), -1);
    assert_eq!(sawtooth_wave(0x7fff_8000), 0);
    assert_eq!(sawtooth_wave(0x8000_0000), 0);
    assert_eq!(sawtooth_wave(0xc000_0000), 16384);
    assert_eq!(sawtooth_wave(0xffff_ffff), 32768);
    assert_eq!(sawtooth_wave(0xffff_7fff), 32767);
}

#[test]
fn triangle_wave_folds_the_ramp() {
    assert_eq!(triangle_wave(0), 32768);
    assert_eq!(triangle_wave(0x1000_0000), 24576);
    assert_eq!(triangle_wave(0x4000_0000), 0);
    assert_eq!(triangle_wave(0x7fff_ffff), -32768);
    assert_eq!(triangle_wave(0x7fff_c000), -32767);
    assert_eq!(triangle_wave(0x8000_4000), -32767);
    assert_eq!(triangle_wave(0x8000_0000), -32768);
    assert_eq!(triangle_wave(0xc000_0000), 0);
    assert_eq!(triangle_wave(0xffff_ffff), 32768);
    assert_eq!(triangle_wave(0xffff_bfff), 32767);
}

#[test]
fn sine_wave_landmarks() {
    assert_eq!(sine_wave(0), 0);
    assert_eq!(sine_wave(0x4000_0000), 32768);
    assert_eq!(sine_wave(0x8000_0000), 0);
    assert_eq!(sine_wave(0xc000_0000), -32768);
}

#[test]
fn sine_wave_of_chosen_phases() {
    assert_eq!(sine_wave(0x1000_0000), 12540);
    assert_eq!(sine_wave(0x2000_0000), 23170);
    assert_eq!(sine_wave(0x3000_0000), 30274);
    assert_eq!(sine_wave(0x6000_0000), 23170);
    assert_eq!(sine_wave(0x7fff_ffff), 0);
    assert_eq!(sine_wave(0x9000_0000), -12540);
    assert_eq!(sine_wave(0xffff_ffff), 0);
    assert_eq!(sine_wave(0x3fff_ffff), 32768);
    assert_eq!(sine_wave(0x4000_0001), 32768);
    assert_eq!(sine_wave(39370533), 1886);
}

#[test]
fn sine_wave_is_within_one_step_of_the_sine() {
    let mut worst: f64 = 0.0;
    let mut phase: u64 = 0;
    while phase < 1 << 32 {
        let got = sine_wave(phase as u32) as f64;
        let exact = 32768.0 * (2.0 * std::f64::consts::PI * phase as f64 / 4294967296.0).sin();
        assert!((got - exact).abs() <= 1.0, "phase {}", phase);
        if (got - exact).abs() > worst {
            worst = (got - exact).abs();
        }
        phase += 40503;
    }
    assert!(worst < 0.7);
}

#[test]
fn sine_wave_is_the_same_forwards_and_backwards() {
    let mut phase: u64 = 1;
    while phase < 1 << 31 {
        assert_eq!(sine_wave(((1u64 << 31) - phase) as u32), sine_wave(phase as u32));
        phase += 9876543;
    }
}

#[test]
fn sine_wave_mirrors_in_the_second_half() {
    let mut phase: u64 = 0;
    while phase < 1 << 31 {
        assert_eq!(sine_wave((phase + (1 << 31)) as u32), -sine_wave(phase as u32));
        phase += 12345677;
    }
}

#[test]
fn every_waveform_stays_within_full_scale() {
    let mut phase: u64 = 0;
    while phase < 1 << 32 {
        let p = phase as u32;
        for value in [square_wave(p), sawtooth_wave(p), triangle_wave(p), sine_wave(p)] {
            assert!(-ONE <= value && value <= ONE, "phase {}", phase);
        }
        phase += 7654321;
    }
}

#[test]
fn mix_needs_weights_that_come_to_one_hundred() {
    let mix = WaveMix::new(30, 30, 20, 20).unwrap();
    assert_eq!(mix, WaveMix { sine: 30, square: 30, sawtooth: 20, triangle: 20 });
    assert_eq!(WaveMix::new(100, 0, 0, 0), Some(WaveMix { sine: 100, square: 0, sawtooth: 0, triangle: 0 }));
    assert_eq!(WaveMix::new(30, 30, 20, 19), None);
    assert_eq!(WaveMix::new(30, 30, 20, 21), None);
    assert_eq!(WaveMix::new(0, 0, 0, 0), None);
    assert_eq!(WaveMix::new(255, 255, 255, 255), None);
    assert_eq!(WaveMix::new(200, 156, 0, 0), None);
}

#[test]
fn classic_mix_is_three_three_two_two() {
    assert_eq!(WaveMix::classic(), WaveMix { sine: 30, square: 30, sawtooth: 20, triangle: 20 });
}

#[test]
fn weighted_sum_of_the_classic_mix() {
    let mix = WaveMix::classic();
    assert_eq!(mix.weighted_sum(0), 983040);
    assert_eq!(mix.weighted_sum(0x1000_0000), 1277320);
    assert_eq!(mix.weighted_sum(0x4000_0000), 1638400);
    assert_eq!(mix.weighted_sum(0x7fff_ffff), 327680);
    assert_eq!(mix.weighted_sum(0x8000_0000), -1638400);
    assert_eq!(mix.weighted_sum(0xffff_ffff), 327680);
    assert_eq!(mix.weighted_sum(39370533), 1027620);
}

#[test]
fn weighted_sum_of_a_single_waveform_is_that_waveform() {
    let only_saw = WaveMix::new(0, 0, 100, 0).unwrap();
    let only_sine = WaveMix::new(100, 0, 0, 0).unwrap();
    for phase in [0u32, 1, 0x1234_5678, 0x8000_0000, 0xdead_beef, 0xffff_ffff] {
        assert_eq!(only_saw.weighted_sum(phase), 100 * sawtooth_wave(phase));
        assert_eq!(only_sine.weighted_sum(phase), 100 * sine_wave(phase));
    }
}
