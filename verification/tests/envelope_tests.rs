use polysynth::envelope::fall;
use polysynth::envelope::ramp_step_of;
use polysynth::envelope::rise;
use polysynth::envelope::Envelope;
use polysynth::envelope::LEVEL_FLOOR;
use polysynth::envelope::LEVEL_ONE;
use polysynth::voice::Voice;
use polysynth::wave::WaveMix;

#[test]
fn level_constants() {
    assert_eq!(LEVEL_ONE, 1 << 30);
    assert_eq!(LEVEL_FLOOR, 1 << 14);
}

#[test]
fn ramp_step_is_the_range_over_the_frames_of_the_ramp() {
    assert_eq!(ramp_step_of(10, 48000), 2236962);
    assert_eq!(ramp_step_of(1000, 48000), 22369);
    assert_eq!(ramp_step_of(2000, 96000), 5592);
    assert_eq!(ramp_step_of(1, 48000), 22369621);
}

#[test]
fn ramp_of_no_duration_crosses_the_range_at_once() {
    assert_eq!(ramp_step_of(0, 48000), LEVEL_ONE);
    assert_eq!(ramp_step_of(10, 0), LEVEL_ONE);
    assert_eq!(ramp_step_of(0, 0), LEVEL_ONE);
}

#[test]
fn ramp_step_is_never_more_than_the_range_nor_less_than_one() {
    assert_eq!(ramp_step_of(1, 1), LEVEL_ONE);
    assert_eq!(ramp_step_of(1, 999), LEVEL_ONE);
    assert_eq!(ramp_step_of(4000000000, 4000000000), 1);
    assert_eq!(ramp_step_of(u32::MAX, u32::MAX), 1);
}

#[test]
fn rise_adds_the_step_up_to_the_top() {
    assert_eq!(rise(0, 2236962), 2236962);
    assert_eq!(rise(2236962, 2236962), 4473924);
    assert_eq!(rise(LEVEL_ONE - 5, 4), LEVEL_ONE - 1);
    assert_eq!(rise(LEVEL_ONE - 5, 5), LEVEL_ONE);
    assert_eq!(rise(LEVEL_ONE - 5, 6), LEVEL_ONE);
    assert_eq!(rise(LEVEL_ONE, u32::MAX), LEVEL_ONE);
    assert_eq!(rise(0, u32::MAX), LEVEL_ONE);
    assert_eq!(rise(7, 0), 7);
}

#[test]
fn fall_takes_the_step_off_and_drops_under_the_floor() {
    assert_eq!(fall(LEVEL_ONE, 2236962), LEVEL_ONE - 2236962);
    assert_eq!(fall(100000, 1), 99999);
    assert_eq!(fall(16385, 1), 16384);
    assert_eq!(fall(16384, 1), 0);
    assert_eq!(fall(16384, 0), 16384);
    assert_eq!(fall(16383, 0), 0);
    assert_eq!(fall(5, 10), 0);
    assert_eq!(fall(LEVEL_ONE, LEVEL_ONE), 0);
    assert_eq!(fall(LEVEL_ONE, u32::MAX), 0);
    assert_eq!(fall(0, 0), 0);
}

#[test]
fn release_never_rises_and_ends() {
    let step = ramp_step_of(10, 48000);
    let mut level = LEVEL_ONE;
    let mut frames = 0;
    while level > 0 {
        let next = fall(level, step);
        assert!(next <= level);
        level = next;
        frames += 1;
        assert!(frames <= 480);
    }
    assert_eq!(frames, 480);
}

#[test]
fn envelope_constructors() {
    assert_eq!(Envelope::new(5, 250), Envelope { attack_millis: 5, release_millis: 250 });
    assert_eq!(Envelope::instant(), Envelope { attack_millis: 0, release_millis: 0 });
}

#[test]
fn new_voice_is_at_rest() {
    assert_eq!(Voice::new(), Voice { phase: 0, level: 0, velocity: 0 });
}

#[test]
fn held_voice_advances_and_rises() {
    let voice = Voice::new().advance(127, 39370533, 2236962, 2236962);
    assert_eq!(voice, Voice { phase: 39370533, level: 2236962, velocity: 127 });
    let voice = voice.advance(90, 39370533, 2236962, 2236962);
    assert_eq!(voice, Voice { phase: 78741066, level: 4473924, velocity: 90 });
}

#[test]
fn voice_let_go_keeps_turning_while_it_fades() {
    let start = Voice { phase: 0xffff_fff0, level: LEVEL_ONE, velocity: 64 };
    let voice = start.advance(0, 0x20, 1000, 1 << 29);
    assert_eq!(voice, Voice { phase: 0x10, level: 1 << 29, velocity: 64 });
    let voice = voice.advance(0, 0x20, 1000, 1 << 29);
    assert_eq!(voice, Voice { phase: 0x10, level: 0, velocity: 64 });
    let voice = voice.advance(0, 0x20, 1000, 1 << 29);
    assert_eq!(voice, Voice { phase: 0x10, level: 0, velocity: 64 });
}

#[test]
fn phase_wraps_around_the_cycle_for_any_increment() {
    let start = Voice { phase: 0xffff_ffff, level: LEVEL_ONE, velocity: 1 };
    assert_eq!(start.advance(1, 1, 0, 0).phase, 0);
    assert_eq!(start.advance(1, 0x1_0000_0000, 0, 0).phase, 0xffff_ffff);
    assert_eq!(start.advance(1, 0x1_0000_0002, 0, 0).phase, 1);
    assert_eq!(start.advance(1, u64::MAX, 0, 0).phase, 0xffff_fffe);
    assert_eq!(Voice::new().advance(1, 53875442450432, 0, 0).phase, 3667656704);
}

#[test]
fn voice_at_full_level_and_velocity_sounds_the_mix() {
    let mix = WaveMix::classic();
    for phase in [0u32, 39370533, 0x1000_0000, 0x7fff_ffff, 0x8000_0000, 0xdead_beef] {
        let voice = Voice { phase, level: LEVEL_ONE, velocity: 127 };
        let hundredths = mix.weighted_sum(phase);
        let rounded = if hundredths >= 0 { (hundredths + 50) / 100 } else { -((50 - hundredths) / 100) };
        assert_eq!(voice.output(&mix), rounded);
    }
    let at = |phase: u32| Voice { phase, level: LEVEL_ONE, velocity: 127 }.output(&mix);
    assert_eq!(at(39370533), 10276);
    assert_eq!(at(0), 9830);
    assert_eq!(at(0x1000_0000), 12773);
    assert_eq!(at(0x7fff_ffff), 3277);
    assert_eq!(at(0x8000_0000), -16384);
    assert_eq!(at(0xdead_beef), -9014);
}

#[test]
fn velocity_scales_a_voice_linearly() {
    let mix = WaveMix::new(0, 100, 0, 0).unwrap();
    let at = |velocity: u8| Voice { phase: 0, level: LEVEL_ONE, velocity }.output(&mix);
    assert_eq!(at(127), 32768);
    assert_eq!(at(0), 0);
    assert_eq!(at(1), 258);
    assert_eq!(at(64), 16513);
    assert_eq!(at(100), 25802);
    let below = |velocity: u8| {
        Voice { phase: 0x8000_0000, level: LEVEL_ONE, velocity }.output(&mix)
    };
    assert_eq!(below(127), -32768);
    assert_eq!(below(64), -16513);
}

#[test]
fn level_scales_a_voice_linearly() {
    let mix = WaveMix::new(0, 100, 0, 0).unwrap();
    let at = |level: u32| Voice { phase: 0, level, velocity: 127 }.output(&mix);
    assert_eq!(at(LEVEL_ONE), 32768);
    assert_eq!(at(LEVEL_ONE / 2), 16384);
    assert_eq!(at(LEVEL_ONE / 4), 8192);
    assert_eq!(at(3 * 32768), 3);
    assert_eq!(at(49152), 2);
    assert_eq!(at(49151), 1);
    assert_eq!(at(32768), 1);
    assert_eq!(at(16384), 1);
}

#[test]
fn voice_under_the_floor_is_silent() {
    let mix = WaveMix::new(0, 100, 0, 0).unwrap();
    for level in [0u32, 1, 100, 16383] {
        for phase in [0u32, 0x8000_0000] {
            assert_eq!(Voice { phase, level, velocity: 127 }.output(&mix), 0);
        }
    }
}
