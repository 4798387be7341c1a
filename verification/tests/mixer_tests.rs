use engine_sound::fixed::{GAIN_ONE, ONE};
use engine_sound::mixer::{Mixer, MAX_VOICES};
use engine_sound::profile::{EngineProfile, LoopSample};
use engine_sound::synth::EngineSynthesizer;

fn loop_a() -> Vec<i32> {
    vec![1000, -2000, 3000, -4000, 5000]
}

fn loop_b() -> Vec<i32> {
    vec![10, 20, 30, 40, 50, 60, 70]
}

fn voice(low: Vec<i32>, high: Vec<i32>, base: u32) -> EngineSynthesizer {
    let entries = vec![
        LoopSample { rpm: 4000, attack: 0, frames: low },
        LoopSample { rpm: 8000, attack: 0, frames: high },
    ];
    EngineSynthesizer::new(EngineProfile::build(base, 0, entries).unwrap())
}

#[test]
fn mixer_without_voices_renders_silence() {
    let mut m = Mixer::new(2);
    let mut out = vec![9, -9, 9];
    m.render(ONE, &mut out);
    assert_eq!(out, vec![0, 0, 0]);
    assert_eq!(m.voice_count(), 0);
}

#[test]
fn mixer_holds_no_more_voices_than_it_has_places() {
    let mut m = Mixer::new(2);
    assert!(m.play(voice(loop_a(), loop_b(), 6000)).is_some());
    assert!(m.play(voice(loop_a(), loop_b(), 6000)).is_some());
    assert!(m.play(voice(loop_a(), loop_b(), 6000)).is_none());
    assert_eq!(m.voice_count(), 2);
    let mut none = Mixer::new(0);
    assert!(none.play(voice(loop_a(), loop_b(), 6000)).is_none());
}

#[test]
fn mixer_has_at_most_the_greatest_number_of_places() {
    let mut m = Mixer::new(usize::MAX);
    for _ in 0..MAX_VOICES {
        assert!(m.play(voice(vec![1], vec![2], 4000)).is_some());
    }
    assert!(m.play(voice(vec![1], vec![2], 4000)).is_none());
    let mut out = vec![0; 2];
    m.render(ONE, &mut out);
    assert_eq!(out, vec![MAX_VOICES as i64, MAX_VOICES as i64]);
}

#[test]
fn mixer_sums_its_voices_frame_by_frame() {
    let mut m = Mixer::new(4);
    m.play(voice(loop_a(), loop_b(), 6000)).unwrap();
    m.play(voice(loop_b(), loop_a(), 4000)).unwrap();
    let mut out = vec![0; 6];
    m.render(ONE, &mut out);
    assert_eq!(out, vec![724, 385, -2781, 2183, -1336, -261]);
}

#[test]
fn mixer_applies_each_voice_s_own_gain_and_speed() {
    let mut m = Mixer::new(4);
    let throttle = m.play(voice(loop_a(), loop_b(), 6000)).unwrap();
    let release = m.play(voice(loop_b(), loop_a(), 4000)).unwrap();
    throttle.gain.set(8388608);
    release.gain.set(14529495);
    release.rpm.set(8000);
    let mut out = vec![0; 6];
    m.render(ONE, &mut out);
    assert_eq!(out, vec![1223, -1551, 1192, -2394, 3637, 705]);
}

#[test]
fn mixer_at_mix_zero_plays_the_release_voice_alone() {
    let mut m = Mixer::new(2);
    let throttle = m.play(voice(loop_a(), loop_a(), 4000)).unwrap();
    let release = m.play(voice(loop_b(), loop_b(), 4000)).unwrap();
    throttle.gain.set(0);
    release.gain.set(GAIN_ONE);
    let mut out = vec![0; 4];
    m.render(ONE, &mut out);
    assert_eq!(out, vec![10, 20, 30, 40]);
    throttle.gain.set(GAIN_ONE);
    release.gain.set(0);
    m.render(ONE, &mut out);
    assert_eq!(out, vec![5000, 1000, -2000, 3000]);
}

#[test]
fn mixer_plays_every_voice_at_the_rate_it_is_heard_at() {
    let mut m = Mixer::new(2);
    m.play(voice(loop_a(), loop_a(), 4000)).unwrap();
    m.play(voice(loop_b(), loop_b(), 4000)).unwrap();
    let mut out = vec![0; 4];
    m.render(2 * ONE, &mut out);
    assert_eq!(out, vec![1010, 3030, 5050, -1930]);
}

#[test]
fn mixer_holds_a_gain_to_one() {
    let mut m = Mixer::new(1);
    let control = m.play(voice(loop_a(), loop_b(), 4000)).unwrap();
    control.gain.set(u32::MAX);
    let mut out = vec![0; 3];
    m.render(ONE, &mut out);
    assert_eq!(out, vec![1000, -2000, 3000]);
}

#[test]
fn mixer_does_not_limit_the_sum() {
    let mut m = Mixer::new(3);
    for _ in 0..3 {
        m.play(voice(vec![i32::MAX], vec![i32::MIN], 4000)).unwrap();
    }
    let mut out = vec![0; 2];
    m.render(ONE, &mut out);
    assert_eq!(out, vec![3 * i32::MAX as i64, 3 * i32::MAX as i64]);
}

#[test]
fn mixer_renders_again_from_what_was_latched() {
    let mut m = Mixer::new(2);
    let control = m.play(voice(loop_a(), loop_b(), 4000)).unwrap();
    control.rpm.set(8000);
    m.latch();
    control.rpm.set(4000);
    let mut out = vec![0; 2];
    m.render_latched(ONE, &mut out);
    assert_eq!(out, vec![10, 20]);
    m.render(ONE, &mut out);
    assert_eq!(out, vec![5000, 1000]);
}

#[test]
fn latch_voice_latches_what_it_is_given() {
    let mut m = Mixer::new(2);
    m.play(voice(loop_a(), loop_b(), 4000)).unwrap();
    m.play(voice(loop_b(), loop_a(), 4000)).unwrap();
    m.latch_voice(0, 8000, u32::MAX);
    m.latch_voice(1, 4000, 0);
    let mut out = vec![0; 3];
    m.render_latched(ONE, &mut out);
    assert_eq!(out, vec![10, 20, 30]);
    m.latch_voice(0, 8000, GAIN_ONE / 2);
    m.latch_voice(1, 4000, GAIN_ONE);
    m.render_latched(ONE, &mut out);
    assert_eq!(out, vec![60, 75, 90]);
}

#[test]
fn latch_voice_without_such_a_voice_changes_nothing() {
    let mut m = Mixer::new(2);
    m.play(voice(loop_a(), loop_b(), 4000)).unwrap();
    m.latch_voice(1, 8000, 0);
    m.latch_voice(usize::MAX, 8000, 0);
    let mut out = vec![0; 3];
    m.render_latched(ONE, &mut out);
    assert_eq!(out, vec![1000, -2000, 3000]);
    assert_eq!(m.voice_count(), 1);
}

#[test]
fn latch_reads_the_controls_of_every_voice() {
    let mut m = Mixer::new(2);
    let first = m.play(voice(loop_a(), loop_b(), 4000)).unwrap();
    let second = m.play(voice(loop_b(), loop_a(), 4000)).unwrap();
    first.set_rpm(8000);
    first.set_gain(GAIN_ONE / 2);
    second.set_gain(GAIN_ONE + 5);
    m.latch();
    let mut out = vec![0; 3];
    m.render_latched(ONE, &mut out);
    assert_eq!(out, vec![15, 30, 45]);
}
