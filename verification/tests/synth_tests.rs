use engine_sound::cursor::{pitch_step, Cursor};
use engine_sound::fixed::{GAIN_ONE, ONE};
use engine_sound::profile::{EngineProfile, LoopSample};
use engine_sound::synth::{
    accumulate, blend, plan_buffer, scale, silence, BufferPlan, EngineSynthesizer, SynthState,
    HEADROOM,
};

fn loop_a() -> Vec<i32> {
    vec![1000, -2000, 3000, -4000, 5000]
}

fn loop_b() -> Vec<i32> {
    vec![10, 20, 30, 40, 50, 60, 70]
}

fn profile(low: u32, high: u32, base: u32, smoothing: u64, attack: u64) -> EngineProfile {
    let entries = vec![
        LoopSample { rpm: high, attack, frames: loop_b() },
        LoopSample { rpm: low, attack, frames: loop_a() },
    ];
    EngineProfile::build(base, smoothing, entries).unwrap()
}

fn render(voice: &mut EngineSynthesizer, frames: usize) -> Vec<i64> {
    let mut out = vec![-1; frames];
    voice.render(ONE, &mut out);
    out
}

#[test]
fn cursor_reads_between_frames() {
    let frames = vec![100, 200, -300];
    assert_eq!(Cursor { index: 0, frac: 0 }.read(&frames), 100);
    assert_eq!(Cursor { index: 0, frac: 32768 }.read(&frames), 150);
    assert_eq!(Cursor { index: 1, frac: 16384 }.read(&frames), 75);
    assert_eq!(Cursor { index: 2, frac: 0 }.read(&frames), -300);
    assert_eq!(Cursor { index: 2, frac: 32768 }.read(&frames), -100);
    assert_eq!(Cursor { index: 2, frac: 65535 }.read(&frames), 99);
}

#[test]
fn cursor_past_the_end_reads_as_from_the_start() {
    let frames = loop_a();
    let len = frames.len();
    for index in 0..len {
        for frac in [0u16, 1, 4096, 32768, 65535] {
            let near = Cursor { index, frac }.read(&frames);
            assert_eq!(Cursor { index: index + len, frac }.read(&frames), near);
            assert_eq!(Cursor { index: index + 7 * len, frac }.read(&frames), near);
        }
    }
}

#[test]
fn cursor_wraps_when_it_advances() {
    let c = Cursor { index: 3, frac: 40000 };
    assert_eq!(c.advance(0, 5), c);
    assert_eq!(c.advance(ONE as u64, 5), Cursor { index: 4, frac: 40000 });
    assert_eq!(c.advance(2 * ONE as u64, 5), Cursor { index: 0, frac: 40000 });
    assert_eq!(c.advance(30000, 5), Cursor { index: 4, frac: 4464 });
    assert_eq!(c.advance(5 * ONE as u64, 5), c);
    assert_eq!(c.advance(u64::MAX, 5), Cursor { index: 4, frac: 39999 });
    assert_eq!(Cursor { index: 13, frac: 7 }.advance(0, 5), Cursor { index: 3, frac: 7 });
    assert_eq!(
        Cursor { index: usize::MAX, frac: 65535 }.advance(1, 1),
        Cursor { index: 0, frac: 0 },
    );
    assert_eq!(
        Cursor { index: 0, frac: 0 }.advance(u64::MAX, usize::MAX),
        Cursor { index: 281474976710655, frac: 65535 }
    );
}

#[test]
fn cursor_wrapped_reads_what_the_unwrapped_would() {
    let frames = loop_b();
    let mut c = Cursor::start();
    let mut far = Cursor::start();
    for _ in 0..40 {
        assert_eq!(c.read(&frames), far.read(&frames));
        c = c.advance(98304, frames.len());
        far = Cursor {
            index: far.index + 1 + (far.frac as usize + 32768) / 65536,
            frac: far.frac ^ 32768,
        };
    }
    assert!(c.index < frames.len());
    assert!(far.index > frames.len());
}

#[test]
fn pitch_step_is_the_ratio_of_the_speeds() {
    assert_eq!(pitch_step(3900, 3900, ONE), ONE as u64);
    assert_eq!(pitch_step(7800, 3900, ONE), 2 * ONE as u64);
    assert_eq!(pitch_step(1950, 3900, ONE), ONE as u64 / 2);
    assert_eq!(pitch_step(3900, 10500, ONE), 24341);
    assert_eq!(pitch_step(0, 3900, ONE), 0);
    assert_eq!(pitch_step(u32::MAX, 1, ONE), 281474976645120);
}

#[test]
fn pitch_step_is_scaled_by_the_rate() {
    assert_eq!(pitch_step(3900, 3900, 0), 0);
    assert_eq!(pitch_step(3900, 3900, 70000), 70000);
    assert_eq!(pitch_step(7800, 3900, ONE / 2), ONE as u64);
    assert_eq!(pitch_step(3900, 10500, 2 * ONE), 48683);
    assert_eq!(pitch_step(u32::MAX, 1, u32::MAX), 18446744065119617025);
}

#[test]
fn blend_and_scale_round_down() {
    assert_eq!(blend(GAIN_ONE, 1000, 0, 777), 1000);
    assert_eq!(blend(0, 1000, GAIN_ONE, 777), 777);
    assert_eq!(blend(11863283, 1000, 11863283, 10), 714);
    assert_eq!(blend(11863283, -1000, 11863283, -10), -715);
    assert_eq!(blend(GAIN_ONE, i32::MAX, GAIN_ONE, i32::MAX), 4294967294);
    assert_eq!(blend(GAIN_ONE, i32::MIN, GAIN_ONE, i32::MIN), -4294967296);
    assert_eq!(scale(GAIN_ONE, -12345), -12345);
    assert_eq!(scale(GAIN_ONE / 2, 3), 1);
    assert_eq!(scale(GAIN_ONE / 2, -3), -2);
    assert_eq!(scale(0, 4294967296), 0);
    assert_eq!(scale(GAIN_ONE, 4294967296), 4294967296);
}

#[test]
fn plan_blends_inside_the_bracket() {
    let p = profile(4000, 8000, 5000, 0, 0);
    assert_eq!(
        plan_buffer(&p, 5000, 5000, ONE, 3),
        BufferPlan {
            rpm: 5000,
            low: 0,
            high: 1,
            gain_low: 14529495,
            gain_high: 8388608,
            step_a: 81920,
            step_b: 40960,
        }
    );
}

#[test]
fn plan_is_governed_by_the_slowest_time_constant() {
    let entries = vec![
        LoopSample { rpm: 4000, attack: 50, frames: loop_a() },
        LoopSample { rpm: 8000, attack: 700, frames: loop_b() },
    ];
    let p = EngineProfile::build(5000, 100, entries).unwrap();
    let plan = plan_buffer(&p, 5000, 7000, ONE, 100);
    assert_eq!(plan.rpm, 5250);
    assert_eq!((plan.gain_low, plan.gain_high), (13910932, 9378748));
    assert_eq!((plan.step_a, plan.step_b), (86016, 43008));
}

#[test]
fn plan_outside_the_range_plays_the_nearest_loop() {
    let p = profile(4000, 8000, 2000, 0, 0);
    let below = plan_buffer(&p, 2000, 2000, ONE, 6);
    assert_eq!((below.low, below.high), (0, 0));
    assert_eq!((below.gain_low, below.gain_high), (GAIN_ONE, 0));
    assert_eq!(below.step_a, ONE as u64 / 2);
    let above = plan_buffer(&p, 16000, 16000, ONE, 6);
    assert_eq!((above.low, above.high), (1, 1));
    assert_eq!((above.gain_low, above.gain_high), (GAIN_ONE, 0));
    assert_eq!(above.step_a, 2 * ONE as u64);
}

#[test]
fn voice_starts_idle_at_the_start_of_its_loops() {
    let voice = EngineSynthesizer::new(profile(3900, 10500, 3900, 4410, 132));
    assert_eq!(voice.current_rpm(), 3900);
    assert_eq!(voice.requested_rpm(), 3900);
    assert_eq!(
        voice.snapshot(),
        SynthState { current_rpm: 3900, phase_a: Cursor::start(), phase_b: Cursor::start() }
    );
}

#[test]
fn voice_at_the_speed_of_a_loop_plays_it_at_its_own_pitch() {
    let mut voice = EngineSynthesizer::new(profile(3900, 10500, 3900, 4410, 132));
    voice.set_rpm(3900);
    assert_eq!(render(&mut voice, 4), vec![1000, -2000, 3000, -4000]);
    assert_eq!(render(&mut voice, 4), vec![5000, 1000, -2000, 3000]);
    let mut played = Vec::new();
    for _ in 0..25 {
        played.extend(render(&mut voice, 3));
    }
    let a = loop_a();
    for (k, s) in played.iter().enumerate() {
        assert_eq!(*s, a[(8 + k) % a.len()] as i64);
    }
    assert_eq!(voice.current_rpm(), 3900);
    assert_eq!(voice.snapshot().phase_a, Cursor { index: 3, frac: 0 });
}

#[test]
fn voice_follows_a_jump_and_settles_on_the_other_loop() {
    let mut voice = EngineSynthesizer::new(profile(3900, 10500, 3900, 4410, 132));
    voice.set_rpm(3900);
    render(&mut voice, 4);
    render(&mut voice, 4);
    voice.set_rpm(10500);
    let mut speeds = Vec::new();
    for _ in 0..300 {
        render(&mut voice, 512);
        speeds.push(voice.current_rpm());
    }
    assert_eq!(&speeds[..5], &[4587, 5203, 5755, 6249, 6692]);
    assert_eq!(speeds.iter().position(|&r| r == 10500), Some(64));
    let mut last = 3900;
    for &r in &speeds {
        assert!(r >= last && r <= 10500);
        assert!(r - last <= (10500 - last) * 512 / (4410 + 512) + 1);
        last = r;
    }
    let at = voice.snapshot().phase_b;
    assert_eq!(at, Cursor { index: 2, frac: 60072 });
    let out = render(&mut voice, 10);
    assert_eq!(out, vec![39, 49, 59, 69, 15, 19, 29, 39, 49, 59]);
    let b = loop_b();
    for (k, s) in out.iter().enumerate() {
        let c = Cursor { index: (at.index + k) % b.len(), frac: at.frac };
        assert_eq!(*s, c.read(&b) as i64);
    }
    assert_eq!(voice.snapshot().phase_b, Cursor { index: 5, frac: 60072 });
}

#[test]
fn speed_arrives_within_thirteen_buffers_as_long_as_the_time_constant() {
    let mut voice = EngineSynthesizer::new(profile(3900, 10500, 3900, 4410, 132));
    let mut out = vec![0; 4410];
    let mut speeds = Vec::new();
    for _ in 0..13 {
        voice.render_toward(10500, ONE, &mut out);
        speeds.push(voice.current_rpm());
    }
    assert_eq!(
        speeds,
        vec![7200, 8850, 9675, 10088, 10294, 10397, 10449, 10475, 10488, 10494, 10497, 10499, 10500]
    );
    let mut gap = 6600;
    for &r in &speeds {
        assert!((10500 - r) * 2 <= gap);
        gap = 10500 - r;
    }
}

#[test]
fn voice_between_two_loops_blends_both() {
    let mut voice = EngineSynthesizer::new(profile(4000, 8000, 6000, 0, 0));
    let mut out = vec![0; 6];
    voice.render_toward(6000, ONE, &mut out);
    assert_eq!(out, vec![714, 365, -2811, 2143, -1386, -321]);
    let s = voice.snapshot();
    assert_eq!(s.phase_a, Cursor { index: 4, frac: 0 });
    assert_eq!(s.phase_b, Cursor { index: 4, frac: 32768 });
}

#[test]
fn voice_below_the_range_plays_the_lowest_loop_slowed() {
    let mut voice = EngineSynthesizer::new(profile(4000, 8000, 2000, 0, 0));
    let mut out = vec![0; 6];
    voice.render_toward(2000, ONE, &mut out);
    assert_eq!(out, vec![1000, -500, -2000, 500, 3000, -500]);
}

#[test]
fn voice_above_the_range_plays_the_highest_loop_sped_up() {
    let mut voice = EngineSynthesizer::new(profile(4000, 8000, 16000, 0, 0));
    let mut out = vec![0; 6];
    voice.render_toward(16000, ONE, &mut out);
    assert_eq!(out, vec![10, 30, 50, 70, 20, 40]);
}

#[test]
fn voice_heard_at_twice_the_rate_plays_twice_as_fast() {
    let mut voice = EngineSynthesizer::new(profile(4000, 8000, 4000, 0, 0));
    let mut out = vec![0; 6];
    voice.render_toward(4000, 2 * ONE, &mut out);
    assert_eq!(out, vec![1000, 3000, 5000, -2000, -4000, 1000]);
    voice.render_toward(4000, ONE / 2, &mut out);
    assert_eq!(out, vec![3000, -500, -4000, 500, 5000, 3000]);
    voice.render_toward(4000, 0, &mut out);
    assert_eq!(out, vec![1000; 6]);
}

#[test]
fn loop_that_stays_in_the_bracket_plays_on_from_where_it_was() {
    let entries = vec![
        LoopSample { rpm: 4000, attack: 0, frames: loop_a() },
        LoopSample { rpm: 6000, attack: 0, frames: loop_b() },
        LoopSample { rpm: 8000, attack: 0, frames: vec![7, -7, 77, -77] },
    ];
    let mut voice = EngineSynthesizer::new(EngineProfile::build(5000, 0, entries).unwrap());
    let mut out = vec![0; 3];
    let mut steps = Vec::new();
    for target in [5000, 7000, 5000] {
        voice.render_toward(target, ONE, &mut out);
        let s = voice.snapshot();
        steps.push((out.clone(), s.phase_a, s.phase_b));
    }
    let mut out = vec![0; 2];
    for target in [9000, 7500, 3000] {
        voice.render_toward(target, ONE, &mut out);
        let s = voice.snapshot();
        steps.push((out.clone(), s.phase_a, s.phase_b));
    }
    let at = |index, frac| Cursor { index, frac };
    assert_eq!(
        steps,
        vec![
            (vec![714, -518, -336], at(3, 49152), at(2, 32767)),
            (vec![24, 0, 43], at(5, 65533), at(1, 8191)),
            (vec![-1366, 898, 364], at(4, 49149), at(1, 32764)),
            (vec![-4, 66], at(2, 65533), at(3, 49148)),
            (vec![6, 23], at(5, 32765), at(1, 40956)),
            (vec![-500, -751], at(1, 65533), at(3, 8188)),
        ]
    );
}

#[test]
fn voice_without_smoothing_jumps_at_once() {
    let mut voice = EngineSynthesizer::new(profile(4000, 8000, 4000, 0, 0));
    let mut out = vec![0; 2];
    voice.render_toward(8000, ONE, &mut out);
    assert_eq!(voice.current_rpm(), 8000);
    assert_eq!(out, vec![10, 20]);
}

#[test]
fn empty_buffer_leaves_the_speed_and_wraps_the_cursors() {
    let mut voice = EngineSynthesizer::new(profile(4000, 8000, 5000, 10, 0));
    let mut out = vec![0; 3];
    voice.render_toward(5000, ONE, &mut out);
    assert_eq!(out, vec![871, -642, -423]);
    let before = voice.snapshot();
    let mut none: Vec<i64> = Vec::new();
    voice.render_toward(8000, ONE, &mut none);
    assert_eq!(voice.snapshot(), before);
}

#[test]
fn accumulate_adds_under_the_gain() {
    let p = profile(4000, 8000, 6000, 0, 0);
    let mut state =
        SynthState { current_rpm: 6000, phase_a: Cursor::start(), phase_b: Cursor::start() };
    let mut out = vec![100, -100, 0, HEADROOM, -HEADROOM, 7];
    accumulate(&p, &mut state, 6000, ONE, GAIN_ONE / 2, &mut out);
    assert_eq!(out, vec![457, 82, -1406, HEADROOM + 1071, -HEADROOM - 693, -154]);
    assert_eq!(state.current_rpm, 6000);
    assert_eq!(state.phase_a, Cursor { index: 4, frac: 0 });
}

#[test]
fn silence_clears_a_buffer() {
    let mut out = vec![5, -5, i64::MAX];
    silence(&mut out);
    assert_eq!(out, vec![0, 0, 0]);
}
