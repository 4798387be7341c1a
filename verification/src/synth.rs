//! The engine voice: one buffer of tone at the smoothed engine speed.

use crate::crossfade::{
    blend_weight,
    crossfade_gains,
    gain_high,
    gain_low,
    lemma_equal_power,
    weight_spec,
};
use crate::cursor::{
    cursor_at,
    lemma_cursor_at,
    lemma_sample_reduced,
    pitch_spec,
    pitch_step,
    sample_spec,
    Cursor,
};
use crate::handle::ParameterHandle;
use crate::fixed::{div_floor, GAIN_ONE, ONE};
use crate::profile::{
    bracket_of,
    lemma_bracket_exists,
    valid_library,
    Bracket,
    EngineProfile,
    LoopSample,
};
use crate::smoothing::{
    lemma_step_bounded,
    lemma_step_leaves,
    lemma_step_slower,
    smooth_spec,
    smooth_toward,
    step_spec,
};
use vstd::arithmetic::div_mod::{
    lemma_add_mod_noop,
    lemma_div_is_ordered,
    lemma_div_multiples_vanish,
    lemma_mod_twice,
};
use std::sync::atomic::AtomicU32;
use vstd::arithmetic::power::{lemma_pow_increases, lemma_pow_positive, pow};
use vstd::arithmetic::power2::lemma2_to64;
use vstd::prelude::*;

verus! {

/// What a voice carries from one buffer to the next.
#[derive(Debug, Clone, Copy, PartialEq, Eq)]
pub struct SynthState {
    /// The smoothed engine speed.
    pub current_rpm: u32,
    /// Read position in the lower loop of the bracket.
    pub phase_a: Cursor,
    /// Read position in the upper loop of the bracket.
    pub phase_b: Cursor,
}

/// What is fixed for the length of one buffer.
#[derive(Debug, Clone, Copy, PartialEq, Eq)]
pub struct BufferPlan {
    /// The engine speed during the buffer.
    pub rpm: u32,
    /// Index of the lower loop.
    pub low: usize,
    /// Index of the upper loop.
    pub high: usize,
    /// Gain of the lower loop, as a fraction of `GAIN_ONE`.
    pub gain_low: u32,
    /// Gain of the upper loop, as a fraction of `GAIN_ONE`.
    pub gain_high: u32,
    /// Advance of the lower loop's read position per frame.
    pub step_a: u64,
    /// Advance of the upper loop's read position per frame.
    pub step_b: u64,
}

/// The most that a sum of amplitudes may hold for one more voice to fit.
pub const HEADROOM: i64 = 0x7FFF_FFFE_FFFF_FFFF;

/// The time constant that governs the smoothing while the loops of `held`
/// play: the slowest of the library's own and the two loops' onsets.
pub open spec fn governing(loops: Seq<LoopSample>, smoothing: u64, held: Bracket) -> u64 {
    let a = loops[held.low as int].attack;
    let b = loops[held.high as int].attack;
    let slow = if a >= b {
        a
    } else {
        b
    };
    if smoothing >= slow {
        smoothing
    } else {
        slow
    }
}

/// The plan of a buffer of `frames` frames that starts at speed `current`,
/// is asked for speed `target` and is heard at `rate`: the fraction of
/// `ONE` by which the listener hears time pass, `ONE` where nothing moves.
/// The speed is smoothed first; the loops, their gains and their steps
/// follow from the smoothed speed.
pub open spec fn plan_spec(
    loops: Seq<LoopSample>,
    smoothing: u64,
    current: u32,
    target: u32,
    rate: u32,
    frames: int,
) -> BufferPlan {
    let tau = governing(loops, smoothing, bracket_of(loops, current));
    let rpm = smooth_spec(current as int, target as int, tau as int, frames) as u32;
    let b = bracket_of(loops, rpm);
    let low = loops[b.low as int].rpm;
    let high = loops[b.high as int].rpm;
    let t = weight_spec(rpm as int, low as int, high as int);
    BufferPlan {
        rpm,
        low: b.low,
        high: b.high,
        gain_low: gain_low(t) as u32,
        gain_high: gain_high(t) as u32,
        step_a: pitch_spec(rpm as int, low as int, rate as int) as u64,
        step_b: pitch_spec(rpm as int, high as int, rate as int) as u64,
    }
}

/// Two amplitudes under their gains, summed and rounded down.
pub open spec fn blend_spec(gain_a: int, a: int, gain_b: int, b: int) -> int {
    (gain_a * a + gain_b * b) / (GAIN_ONE as int)
}

/// An amplitude under a gain, rounded down.
pub open spec fn scaled(gain: int, x: int) -> int {
    gain * x / (GAIN_ONE as int)
}

/// Frame `k` of a buffer played by plan `p` from state `s`.
pub open spec fn frame_spec(loops: Seq<LoopSample>, p: BufferPlan, s: SynthState, k: int) -> int {
    blend_spec(
        p.gain_low as int,
        sample_spec(loops[p.low as int].frames@, s.phase_a.position() + k * p.step_a),
        p.gain_high as int,
        sample_spec(loops[p.high as int].frames@, s.phase_b.position() + k * p.step_b),
    )
}

/// The state after a buffer of `frames` frames played by plan `p` from
/// state `s`: the plan's speed, and each read position moved on by the
/// buffer and wrapped into its loop.
pub open spec fn next_state(loops: Seq<LoopSample>, p: BufferPlan, s: SynthState, frames: int)
    -> SynthState {
    SynthState {
        current_rpm: p.rpm,
        phase_a: cursor_at(
            (s.phase_a.position() + frames * p.step_a) % (loops[p.low as int].frames@.len()
                * ONE),
        ),
        phase_b: cursor_at(
            (s.phase_b.position() + frames * p.step_b) % (loops[p.high as int].frames@.len()
                * ONE),
        ),
    }
}

/// The state with which a voice enters a buffer played by plan `p`: each
/// read position goes with its loop. Where a loop of the bracket so far
/// is a loop of the new bracket too, it plays on from where it was.
pub open spec fn carried(loops: Seq<LoopSample>, s: SynthState, p: BufferPlan) -> SynthState {
    let held = bracket_of(loops, s.current_rpm);
    SynthState {
        current_rpm: s.current_rpm,
        phase_a: if p.low != held.low && p.low == held.high {
            s.phase_b
        } else {
            s.phase_a
        },
        phase_b: if p.high != held.high && p.high == held.low {
            s.phase_a
        } else {
            s.phase_b
        },
    }
}

/// Hands each read position on to the place of its loop in plan `p`.
pub fn carry(profile: &EngineProfile, state: &SynthState, p: &BufferPlan) -> (c: SynthState)
    ensures
        c == carried(profile.loops(), *state, *p),
{
    let held = profile.bracket(state.current_rpm);
    SynthState {
        current_rpm: state.current_rpm,
        phase_a: if p.low != held.low && p.low == held.high {
            state.phase_b
        } else {
            state.phase_a
        },
        phase_b: if p.high != held.high && p.high == held.low {
            state.phase_a
        } else {
            state.phase_b
        },
    }
}

/// Plans a buffer of `frames` frames toward speed `target`, heard at
/// `rate`.
pub fn plan_buffer(
    profile: &EngineProfile,
    current: u32,
    target: u32,
    rate: u32,
    frames: usize,
) -> (p:
    BufferPlan)
    ensures
        p == plan_spec(
            profile.loops(),
            profile.time_constant(),
            current,
            target,
            rate,
            frames as int,
        ),
        p.low <= p.high < profile.loops().len(),
        p.gain_low <= GAIN_ONE,
        p.gain_high <= GAIN_ONE,
        current <= target ==> current <= p.rpm <= target,
        target <= current ==> target <= p.rpm <= current,
{
    let held = profile.bracket(current);
    let a = profile.loop_at(held.low).attack;
    let b = profile.loop_at(held.high).attack;
    let slow = if a >= b {
        a
    } else {
        b
    };
    let tau = if profile.smoothing() >= slow {
        profile.smoothing()
    } else {
        slow
    };
    let rpm = smooth_toward(current, target, tau, frames as u64);
    let found = profile.bracket(rpm);
    let low = profile.loop_at(found.low).rpm;
    let high = profile.loop_at(found.high).rpm;
    let t = blend_weight(rpm, low, high);
    let gains = crossfade_gains(t);
    BufferPlan {
        rpm,
        low: found.low,
        high: found.high,
        gain_low: gains.0,
        gain_high: gains.1,
        step_a: pitch_step(rpm, low, rate),
        step_b: pitch_step(rpm, high, rate),
    }
}

/// Blends two amplitudes under their gains.
pub fn blend(gain_a: u32, a: i32, gain_b: u32, b: i32) -> (r: i64)
    requires
        gain_a <= GAIN_ONE,
        gain_b <= GAIN_ONE,
    ensures
        r == blend_spec(gain_a as int, a as int, gain_b as int, b as int),
        -0x1_0000_0000 <= r <= 0x1_0000_0000,
{
    assert(-0x80_0000_0000_0000 <= (gain_a as int) * (a as int) <= 0x80_0000_0000_0000)
        by (nonlinear_arith)
        requires
            0 <= gain_a as int <= 0x100_0000,
            -0x8000_0000 <= a as int <= 0x8000_0000,
    ;
    assert(-0x80_0000_0000_0000 <= (gain_b as int) * (b as int) <= 0x80_0000_0000_0000)
        by (nonlinear_arith)
        requires
            0 <= gain_b as int <= 0x100_0000,
            -0x8000_0000 <= b as int <= 0x8000_0000,
    ;
    let x: i64 = (gain_a as i64) * (a as i64) + (gain_b as i64) * (b as i64);
    proof {
        lemma_div_is_ordered(-0x100_0000_0000_0000, x as int, GAIN_ONE as int);
        lemma_div_is_ordered(x as int, 0x100_0000_0000_0000, GAIN_ONE as int);
        lemma_div_multiples_vanish(-0x1_0000_0000, GAIN_ONE as int);
        lemma_div_multiples_vanish(0x1_0000_0000, GAIN_ONE as int);
    }
    div_floor(x, GAIN_ONE)
}

/// A gain of at most one never lengthens an amplitude, and the gain of
/// one leaves it as it is.
pub proof fn lemma_scaled_bounded(gain: int, x: int, limit: int)
    requires
        0 <= gain <= GAIN_ONE,
        -limit <= x <= limit,
    ensures
        -limit <= scaled(gain, x) <= limit,
        gain == GAIN_ONE ==> scaled(gain, x) == x,
        gain == 0 ==> scaled(gain, x) == 0,
{
    let one = GAIN_ONE as int;
    assert(-limit * one <= gain * x <= limit * one) by (nonlinear_arith)
        requires
            0 <= gain <= one,
            -limit <= x <= limit,
    ;
    lemma_div_is_ordered(-limit * one, gain * x, one);
    lemma_div_is_ordered(gain * x, limit * one, one);
    lemma_div_multiples_vanish(-limit, one);
    lemma_div_multiples_vanish(limit, one);
    assert(-limit * one == one * (-limit) && limit * one == one * limit) by (nonlinear_arith);
    if gain == one {
        lemma_div_multiples_vanish(x, one);
    }
    if gain == 0 {
        assert(gain * x == 0) by (nonlinear_arith)
            requires
                gain == 0,
        ;
    }
}

/// Applies a gain of at most one to an amplitude.
pub fn scale(gain: u32, x: i64) -> (r: i64)
    requires
        gain <= GAIN_ONE,
        -0x1_0000_0000 <= x <= 0x1_0000_0000,
    ensures
        r == scaled(gain as int, x as int),
        -0x1_0000_0000 <= r <= 0x1_0000_0000,
{
    assert(-0x100_0000_0000_0000 <= (gain as int) * (x as int) <= 0x100_0000_0000_0000)
        by (nonlinear_arith)
        requires
            0 <= gain as int <= 0x100_0000,
            -0x1_0000_0000 <= x as int <= 0x1_0000_0000,
    ;
    proof {
        lemma_scaled_bounded(gain as int, x as int, 0x1_0000_0000);
    }
    div_floor((gain as i64) * x, GAIN_ONE)
}

/// What one voice adds to a buffer: `after` is the state that follows
/// `before`, carried into the buffer's plan, and every frame of `sum` is
/// the frame of `base` with the voice's frame, under `gain`, added to it.
pub open spec fn voice_added(
    loops: Seq<LoopSample>,
    smoothing: u64,
    before: SynthState,
    after: SynthState,
    target: u32,
    rate: u32,
    gain: u32,
    base: Seq<i64>,
    sum: Seq<i64>,
) -> bool {
    let p = plan_spec(loops, smoothing, before.current_rpm, target, rate, base.len() as int);
    let entered = carried(loops, before, p);
    &&& sum.len() == base.len()
    &&& after == next_state(loops, p, entered, base.len() as int)
    &&& forall|k: int|
        0 <= k < base.len() ==> #[trigger] sum[k] == base[k] + scaled(
            gain as int,
            frame_spec(loops, p, entered, k),
        )
}

/// Moving on by one step from a wrapped position.
proof fn lemma_step_on(start: int, step: int, k: int, m: int)
    requires
        m > 0,
    ensures
        ((start + k * step) % m + step) % m == (start + (k + 1) * step) % m,
{
    let x = start + k * step;
    lemma_add_mod_noop(x, step, m);
    lemma_add_mod_noop(x % m, step, m);
    lemma_mod_twice(x, m);
    assert(x + step == start + (k + 1) * step) by (nonlinear_arith)
        requires
            x == start + k * step,
    ;
}

/// Plays one buffer of a voice toward speed `target`, heard at `rate`,
/// and adds it, under `gain`, to what `out` holds.
pub fn accumulate(
    profile: &EngineProfile,
    state: &mut SynthState,
    target: u32,
    rate: u32,
    gain: u32,
    out: &mut Vec<i64>,
)
    requires
        gain <= GAIN_ONE,
        forall|k: int|
            0 <= k < old(out)@.len() ==> -HEADROOM <= #[trigger] old(out)@[k] <= HEADROOM,
    ensures
        voice_added(
            profile.loops(),
            profile.time_constant(),
            *old(state),
            *final(state),
            target,
            rate,
            gain,
            old(out)@,
            final(out)@,
        ),
        forall|k: int|
            0 <= k < old(out)@.len() ==> -0x1_0000_0000 <= #[trigger] final(out)@[k] - old(
                out,
            )@[k] <= 0x1_0000_0000,
{
    let n = out.len();
    let p = plan_buffer(profile, state.current_rpm, target, rate, n);
    let low = profile.loop_at(p.low);
    let high = profile.loop_at(p.high);
    let len_a = low.frames.len();
    let len_b = high.frames.len();
    let entered = carry(profile, state, &p);
    let ghost before = entered;
    let ghost base = out@;
    let ghost loops = profile.loops();
    let ghost start_a = entered.phase_a.position();
    let ghost start_b = entered.phase_b.position();
    let ghost wrap_a = len_a * ONE;
    let ghost wrap_b = len_b * ONE;
    let mut a = entered.phase_a.advance(0, len_a);
    let mut b = entered.phase_b.advance(0, len_b);
    let mut k: usize = 0;
    while k < n
        invariant
            k <= n,
            n == out@.len(),
            n == base.len(),
            gain <= GAIN_ONE,
            p.gain_low <= GAIN_ONE,
            p.gain_high <= GAIN_ONE,
            p.low < loops.len(),
            p.high < loops.len(),
            *low == loops[p.low as int],
            *high == loops[p.high as int],
            len_a == low.frames@.len(),
            len_b == high.frames@.len(),
            len_a > 0,
            len_b > 0,
            wrap_a == len_a * ONE,
            wrap_b == len_b * ONE,
            start_a == before.phase_a.position(),
            start_b == before.phase_b.position(),
            a.position() == (start_a + k * p.step_a) % wrap_a,
            b.position() == (start_b + k * p.step_b) % wrap_b,
            forall|i: int| 0 <= i < n ==> -HEADROOM <= #[trigger] base[i] <= HEADROOM,
            forall|i: int| k <= i < n ==> #[trigger] out@[i] == base[i],
            forall|i: int|
                0 <= i < k ==> -0x1_0000_0000 <= #[trigger] out@[i] - base[i] <= 0x1_0000_0000,
            forall|i: int|
                0 <= i < k ==> #[trigger] out@[i] == base[i] + scaled(
                    gain as int,
                    frame_spec(loops, p, before, i),
                ),
        decreases n - k,
    {
        let x = a.read(&low.frames);
        let y = b.read(&high.frames);
        let voice = scale(gain, blend(p.gain_low, x, p.gain_high, y));
        proof {
            lemma_sample_reduced(low.frames@, start_a + k * p.step_a);
            lemma_sample_reduced(high.frames@, start_b + k * p.step_b);
            lemma_step_on(start_a, p.step_a as int, k as int, wrap_a);
            lemma_step_on(start_b, p.step_b as int, k as int, wrap_b);
        }
        let sum = out[k] + voice;
        out[k] = sum;
        a = a.advance(p.step_a, len_a);
        b = b.advance(p.step_b, len_b);
        k += 1;
    }
    proof {
        lemma_cursor_at(a);
        lemma_cursor_at(b);
    }
    state.current_rpm = p.rpm;
    state.phase_a = a;
    state.phase_b = b;
}

/// The bracketing law. For a speed inside the library's range the two
/// loops found enclose it and the blend weight is a fraction of one; at
/// the exact speed of a loop the weight is 0 or 1 and falls on that loop.
pub proof fn lemma_bracket_encloses(loops: Seq<LoopSample>, rpm: u32)
    requires
        valid_library(loops),
        loops.len() <= usize::MAX,
        loops[0].rpm <= rpm <= loops[loops.len() - 1].rpm,
    ensures
        ({
            let b = bracket_of(loops, rpm);
            let t = weight_spec(
                rpm as int,
                loops[b.low as int].rpm as int,
                loops[b.high as int].rpm as int,
            );
            &&& b.low <= b.high < loops.len()
            &&& loops[b.low as int].rpm <= rpm <= loops[b.high as int].rpm
            &&& 0 <= t <= ONE
            &&& forall|i: int|
                0 <= i < loops.len() && (#[trigger] loops[i]).rpm == rpm ==> (t == 0 && b.low == i)
                    || (t == ONE && b.high == i)
        }),
{
    lemma_bracket_exists(loops, rpm);
    let b = bracket_of(loops, rpm);
    let low = loops[b.low as int].rpm as int;
    let high = loops[b.high as int].rpm as int;
    let t = weight_spec(rpm as int, low, high);
    if low < high && low < rpm < high {
        let a = rpm - low;
        let d = high - low;
        assert(0 <= a * ONE <= d * ONE) by (nonlinear_arith)
            requires
                0 < a < d,
        ;
        lemma_div_is_ordered(0, a * ONE, d);
        lemma_div_is_ordered(a * ONE, d * ONE, d);
        lemma_div_multiples_vanish(ONE as int, d);
        assert(d * ONE == d * (ONE as int));
    }
    assert forall|i: int| 0 <= i < loops.len() && (#[trigger] loops[i]).rpm == rpm implies (t == 0
        && b.low == i) || (t == ONE && b.high == i) by {
        if i < b.low {
            assert(loops[i].rpm < loops[b.low as int].rpm);
        } else if i > b.high {
            assert(loops[b.high as int].rpm < loops[i].rpm);
        }
    }
}

/// The trivial blend. A voice that holds the exact speed of loop `i`
/// plays that loop alone, at its natural pitch: one frame of the loop per
/// frame of the buffer.
pub proof fn lemma_trivial_blend(
    loops: Seq<LoopSample>,
    smoothing: u64,
    state: SynthState,
    frames: int,
    i: int,
    k: int,
)
    requires
        valid_library(loops),
        loops.len() <= usize::MAX,
        0 <= frames,
        0 <= i < loops.len(),
        state.current_rpm == loops[i].rpm,
    ensures
        ({
            let p = plan_spec(
                loops,
                smoothing,
                state.current_rpm,
                state.current_rpm,
                ONE,
                frames,
            );
            &&& p.rpm == state.current_rpm
            &&& carried(loops, state, p) == state
            &&& p.low == i || p.high == i
            &&& p.low == i ==> frame_spec(loops, p, state, k) == sample_spec(
                loops[i].frames@,
                state.phase_a.position() + k * ONE,
            )
            &&& p.low != i ==> frame_spec(loops, p, state, k) == sample_spec(
                loops[i].frames@,
                state.phase_b.position() + k * ONE,
            )
        }),
{
    let rpm = state.current_rpm;
    let tau = governing(loops, smoothing, bracket_of(loops, rpm));
    lemma_step_bounded(0, tau as int, frames);
    let p = plan_spec(loops, smoothing, rpm, rpm, ONE, frames);
    assert(p.rpm == rpm);
    lemma_bracket_encloses(loops, rpm);
    let b = bracket_of(loops, rpm);
    let t = weight_spec(
        rpm as int,
        loops[b.low as int].rpm as int,
        loops[b.high as int].rpm as int,
    );
    lemma_equal_power(t);
    assert(loops[i].playable());
    lemma_div_multiples_vanish(ONE as int, rpm as int);
    assert(rpm * ONE == (rpm as int) * (ONE as int));
    assert(pitch_spec(rpm as int, rpm as int, ONE as int) == ONE);
    let x = sample_spec(loops[p.low as int].frames@, state.phase_a.position() + k * p.step_a);
    let y = sample_spec(loops[p.high as int].frames@, state.phase_b.position() + k * p.step_b);
    if t == 0 {
        assert(p.gain_low * x + p.gain_high * y == (GAIN_ONE as int) * x) by (nonlinear_arith)
            requires
                p.gain_low == GAIN_ONE,
                p.gain_high == 0,
        ;
        lemma_div_multiples_vanish(x, GAIN_ONE as int);
    } else {
        assert(p.gain_low * x + p.gain_high * y == (GAIN_ONE as int) * y) by (nonlinear_arith)
            requires
                p.gain_low == 0,
                p.gain_high == GAIN_ONE,
        ;
        lemma_div_multiples_vanish(y, GAIN_ONE as int);
    }
}

/// The smoothing invariant. Whatever speed is asked for, one buffer moves
/// the speed toward it and not past it, by no more than the library's
/// time constant allows; it always moves while a gap remains; and a jump
/// of more than `1 + frames / smoothing` units is never made in one
/// buffer.
pub proof fn lemma_speed_bounded(
    loops: Seq<LoopSample>,
    smoothing: u64,
    current: u32,
    target: u32,
    rate: u32,
    frames: int,
)
    requires
        valid_library(loops),
        loops.len() <= usize::MAX,
        0 <= frames,
    ensures
        ({
            let p = plan_spec(loops, smoothing, current, target, rate, frames);
            let gap = if target >= current {
                target - current
            } else {
                current - target
            };
            let moved = if p.rpm >= current {
                p.rpm - current
            } else {
                current - p.rpm
            };
            &&& current <= target ==> current <= p.rpm <= target
            &&& target <= current ==> target <= p.rpm <= current
            &&& moved <= step_spec(gap, smoothing as int, frames)
            &&& target != current && frames > 0 ==> p.rpm != current
            &&& smoothing > 0 && smoothing + frames <= gap * smoothing ==> p.rpm != target
        }),
{
    let tau = governing(loops, smoothing, bracket_of(loops, current)) as int;
    let gap: int = if target >= current {
        target - current
    } else {
        current - target
    };
    lemma_step_bounded(gap, tau, frames);
    lemma_step_slower(gap, smoothing as int, tau, frames);
    if smoothing > 0 && smoothing + frames <= gap * smoothing {
        assert(tau + frames <= gap * tau) by (nonlinear_arith)
            requires
                smoothing + frames <= gap * smoothing,
                0 < smoothing <= tau,
                0 <= frames,
                0 <= gap,
        ;
    }
}

/// The speed after `n` buffers of `frames` frames each, all of them asked
/// for speed `target`.
pub open spec fn settled(
    loops: Seq<LoopSample>,
    smoothing: u64,
    current: u32,
    target: u32,
    frames: int,
    n: nat,
) -> u32
    decreases n,
{
    if n == 0 {
        current
    } else {
        plan_spec(
            loops,
            smoothing,
            settled(loops, smoothing, current, target, frames, (n - 1) as nat),
            target,
            ONE,
            frames,
        ).rpm
    }
}

/// The speed arrives. Over buffers that hold at least one frame the
/// speed stays between where it started and its target, and after `n` of
/// them at most `n` units fewer than the first gap are left.
pub proof fn lemma_settles(
    loops: Seq<LoopSample>,
    smoothing: u64,
    current: u32,
    target: u32,
    frames: int,
    n: nat,
)
    requires
        valid_library(loops),
        loops.len() <= usize::MAX,
        0 < frames,
    ensures
        ({
            let r = settled(loops, smoothing, current, target, frames, n);
            &&& current <= target ==> current <= r <= target && (target - r <= target - current
                - n || r == target)
            &&& target <= current ==> target <= r <= current && (r - target <= current - target
                - n || r == target)
        }),
    decreases n,
{
    if n > 0 {
        let m = (n - 1) as nat;
        lemma_settles(loops, smoothing, current, target, frames, m);
        lemma_speed_bounded(
            loops,
            smoothing,
            settled(loops, smoothing, current, target, frames, m),
            target,
            ONE,
            frames,
        );
    }
}

/// How far speed `rpm` is from speed `target`.
pub open spec fn gap_of(rpm: u32, target: u32) -> int {
    if target >= rpm {
        target - rpm
    } else {
        rpm - target
    }
}

/// One buffer leaves at most the fraction `limit / (limit + frames)` of
/// the gap, where `limit` is no shorter than any time constant of the
/// library.
proof fn lemma_buffer_leaves(
    loops: Seq<LoopSample>,
    smoothing: u64,
    limit: int,
    current: u32,
    target: u32,
    frames: int,
)
    requires
        valid_library(loops),
        loops.len() <= usize::MAX,
        0 < frames,
        smoothing <= limit,
        forall|i: int| 0 <= i < loops.len() ==> (#[trigger] loops[i]).attack <= limit,
    ensures
        gap_of(plan_spec(loops, smoothing, current, target, ONE, frames).rpm, target) * (limit
            + frames) <= gap_of(current, target) * limit,
{
    lemma_bracket_exists(loops, current);
    let held = bracket_of(loops, current);
    assert(loops[held.low as int].attack <= limit);
    assert(loops[held.high as int].attack <= limit);
    let tau = governing(loops, smoothing, held) as int;
    let gap = gap_of(current, target);
    lemma_step_bounded(gap, tau, frames);
    lemma_step_slower(gap, tau, limit, frames);
    lemma_step_leaves(gap, limit, frames);
    let left = gap - step_spec(gap, tau, frames);
    assert(gap_of(plan_spec(loops, smoothing, current, target, ONE, frames).rpm, target) == left);
    assert(left * (limit + frames) <= (gap - step_spec(gap, limit, frames)) * (limit + frames))
        by (nonlinear_arith)
        requires
            left <= gap - step_spec(gap, limit, frames),
            0 <= limit + frames,
    ;
}

/// The speed settles geometrically. Where `limit` is no shorter than any
/// time constant of the library, each buffer leaves at most the fraction
/// `limit / (limit + frames)` of the gap, so `n` buffers leave at most
/// that fraction to the power `n`; and the speed has arrived as soon as
/// that leaves less than one unit.
pub proof fn lemma_settles_geometrically(
    loops: Seq<LoopSample>,
    smoothing: u64,
    limit: int,
    current: u32,
    target: u32,
    frames: int,
    n: nat,
)
    requires
        valid_library(loops),
        loops.len() <= usize::MAX,
        0 < frames,
        smoothing <= limit,
        forall|i: int| 0 <= i < loops.len() ==> (#[trigger] loops[i]).attack <= limit,
    ensures
        gap_of(settled(loops, smoothing, current, target, frames, n), target) * pow(
            limit + frames,
            n,
        ) <= gap_of(current, target) * pow(limit, n),
        gap_of(current, target) * pow(limit, n) < pow(limit + frames, n) ==> settled(
            loops,
            smoothing,
            current,
            target,
            frames,
            n,
        ) == target,
    decreases n,
{
    let whole = limit + frames;
    lemma_pow_positive(whole, n);
    if n == 0 {
        reveal_with_fuel(pow, 1);
    } else {
        let m = (n - 1) as nat;
        lemma_settles_geometrically(loops, smoothing, limit, current, target, frames, m);
        let before = settled(loops, smoothing, current, target, frames, m);
        lemma_buffer_leaves(loops, smoothing, limit, before, target, frames);
        let g0 = gap_of(current, target);
        let gm = gap_of(before, target);
        let gn = gap_of(settled(loops, smoothing, current, target, frames, n), target);
        let pw = pow(whole, m);
        let pl = pow(limit, m);
        lemma_pow_positive(whole, m);
        reveal_with_fuel(pow, 2);
        assert(pow(whole, n) == whole * pw);
        assert(pow(limit, n) == limit * pl);
        assert(gn * (whole * pw) <= g0 * (limit * pl)) by (nonlinear_arith)
            requires
                gn * whole <= gm * limit,
                gm * pw <= g0 * pl,
                0 <= limit,
                0 < pw,
                0 <= gn,
        ;
    }
    let g = gap_of(settled(loops, smoothing, current, target, frames, n), target);
    if gap_of(current, target) * pow(limit, n) < pow(whole, n) && g >= 1 {
        assert(g * pow(whole, n) >= pow(whole, n)) by (nonlinear_arith)
            requires
                g >= 1,
                pow(whole, n) > 0,
        ;
    }
}

/// The speed arrives in time. Where every buffer is at least as long as
/// the longest time constant of the library, each buffer halves the gap
/// at least, and 32 buffers bring any speed to any target.
pub proof fn lemma_arrives(
    loops: Seq<LoopSample>,
    smoothing: u64,
    limit: int,
    current: u32,
    target: u32,
    frames: int,
    n: nat,
)
    requires
        valid_library(loops),
        loops.len() <= usize::MAX,
        0 < frames,
        smoothing <= limit <= frames,
        forall|i: int| 0 <= i < loops.len() ==> (#[trigger] loops[i]).attack <= limit,
    ensures
        gap_of(settled(loops, smoothing, current, target, frames, n), target) * pow(2, n)
            <= gap_of(current, target),
        n >= 32 ==> settled(loops, smoothing, current, target, frames, n) == target,
    decreases n,
{
    if n == 0 {
        reveal_with_fuel(pow, 1);
    } else {
        let m = (n - 1) as nat;
        lemma_arrives(loops, smoothing, limit, current, target, frames, m);
        let before = settled(loops, smoothing, current, target, frames, m);
        lemma_buffer_leaves(loops, smoothing, limit, before, target, frames);
        let g0 = gap_of(current, target);
        let gm = gap_of(before, target);
        let gn = gap_of(settled(loops, smoothing, current, target, frames, n), target);
        assert(2 * gn <= gm) by (nonlinear_arith)
            requires
                gn * (limit + frames) <= gm * limit,
                0 <= limit <= frames,
                0 < frames,
                0 <= gn,
                0 <= gm,
        ;
        let pm = pow(2, m);
        lemma_pow_positive(2, m);
        reveal_with_fuel(pow, 2);
        assert(pow(2, n) == 2 * pm);
        assert(gn * (2 * pm) <= g0) by (nonlinear_arith)
            requires
                2 * gn <= gm,
                gm * pm <= g0,
                0 < pm,
        ;
    }
    if n >= 32 {
        let g = gap_of(settled(loops, smoothing, current, target, frames, n), target);
        lemma2_to64();
        lemma_pow_increases(2, 32, n);
        assert(pow(2, 32) == 0x1_0000_0000);
        if g >= 1 {
            assert(g * pow(2, n) >= pow(2, n)) by (nonlinear_arith)
                requires
                    g >= 1,
                    pow(2, n) > 0,
            ;
        }
    }
}

/// What one voice alone renders: `after` is the state that follows
/// `before`, carried into the buffer's plan, and `out` holds the voice's
/// frames at full gain.
pub open spec fn rendered(
    loops: Seq<LoopSample>,
    smoothing: u64,
    before: SynthState,
    after: SynthState,
    target: u32,
    rate: u32,
    out: Seq<i64>,
) -> bool {
    let p = plan_spec(loops, smoothing, before.current_rpm, target, rate, out.len() as int);
    let entered = carried(loops, before, p);
    &&& after == next_state(loops, p, entered, out.len() as int)
    &&& forall|k: int| 0 <= k < out.len() ==> #[trigger] out[k] == frame_spec(loops, p, entered, k)
}

/// Fills a buffer with silence.
pub fn silence(out: &mut Vec<i64>)
    ensures
        final(out)@.len() == old(out)@.len(),
        forall|k: int| 0 <= k < final(out)@.len() ==> #[trigger] final(out)@[k] == 0,
{
    let n = out.len();
    let mut k: usize = 0;
    while k < n
        invariant
            k <= n,
            n == out@.len(),
            forall|i: int| 0 <= i < k ==> #[trigger] out@[i] == 0,
        decreases n - k,
    {
        out[k] = 0;
        k += 1;
    }
}

/// A voice: a library of loops, the speed asked of it, and its place in
/// the loops it is playing.
pub struct EngineSynthesizer {
    profile: EngineProfile,
    target: ParameterHandle,
    state: SynthState,
}

impl EngineSynthesizer {
    /// The library that the voice plays.
    pub closed spec fn library(&self) -> EngineProfile {
        self.profile
    }

    /// What the voice carries between buffers.
    pub closed spec fn state(&self) -> SynthState {
        self.state
    }

    /// The cell from which the voice reads the speed asked of it.
    pub closed spec fn speed_cell(&self) -> AtomicU32 {
        self.target.cell()
    }

    /// A voice on `profile`, idling at the start of its loops.
    pub fn new(profile: EngineProfile) -> (voice: EngineSynthesizer)
        ensures
            voice.library() == profile,
            voice.state() == (SynthState {
                current_rpm: profile.idle(),
                phase_a: cursor_at(0),
                phase_b: cursor_at(0),
            }),
    {
        let idle = profile.base_rpm();
        let start = Cursor::start();
        proof {
            lemma_cursor_at(start);
        }
        EngineSynthesizer {
            profile,
            target: ParameterHandle::new(idle),
            state: SynthState { current_rpm: idle, phase_a: start, phase_b: start },
        }
    }

    /// Asks for speed `target`. The next buffer starts moving toward it.
    pub fn set_rpm(&self, target: u32) {
        self.target.set(target);
    }

    /// A handle through which another thread asks for a speed.
    pub fn rpm_control(&self) -> (control: ParameterHandle)
        ensures
            control.cell() == self.speed_cell(),
    {
        self.target.share()
    }

    /// The smoothed speed after the last buffer.
    pub fn current_rpm(&self) -> (rpm: u32)
        ensures
            rpm == self.state().current_rpm,
    {
        self.state.current_rpm
    }

    /// What the voice carries between buffers.
    pub fn snapshot(&self) -> (s: SynthState)
        ensures
            s == self.state(),
    {
        self.state
    }

    /// The speed most recently asked for.
    pub fn requested_rpm(&self) -> u32 {
        self.target.get_latest()
    }

    /// Plays one buffer toward speed `target`, heard at `rate`, and adds
    /// it, under `gain`, to what `out` holds.
    pub fn add_toward(&mut self, target: u32, rate: u32, gain: u32, out: &mut Vec<i64>)
        requires
            gain <= GAIN_ONE,
            forall|k: int|
                0 <= k < old(out)@.len() ==> -HEADROOM <= #[trigger] old(out)@[k] <= HEADROOM,
        ensures
            final(self).library() == old(self).library(),
            voice_added(
                old(self).library().loops(),
                old(self).library().time_constant(),
                old(self).state(),
                final(self).state(),
                target,
                rate,
                gain,
                old(out)@,
                final(out)@,
            ),
            forall|k: int|
                0 <= k < old(out)@.len() ==> -0x1_0000_0000 <= #[trigger] final(out)@[k] - old(
                    out,
                )@[k] <= 0x1_0000_0000,
    {
        accumulate(&self.profile, &mut self.state, target, rate, gain, out);
    }

    /// Renders one buffer toward speed `target`, heard at `rate`.
    pub fn render_toward(&mut self, target: u32, rate: u32, out: &mut Vec<i64>)
        ensures
            final(self).library() == old(self).library(),
            final(out)@.len() == old(out)@.len(),
            rendered(
                old(self).library().loops(),
                old(self).library().time_constant(),
                old(self).state(),
                final(self).state(),
                target,
                rate,
                final(out)@,
            ),
    {
        silence(out);
        let ghost base = out@;
        let ghost before = self.state;
        accumulate(&self.profile, &mut self.state, target, rate, GAIN_ONE, out);
        proof {
            let loops = self.profile.loops();
            let p = plan_spec(
                loops,
                self.profile.time_constant(),
                before.current_rpm,
                target,
                rate,
                base.len() as int,
            );
            let entered = carried(loops, before, p);
            assert forall|k: int| 0 <= k < out@.len() implies #[trigger] out@[k] == frame_spec(
                loops,
                p,
                entered,
                k,
            ) by {
                let x = frame_spec(loops, p, entered, k);
                assert(out@[k] == base[k] + scaled(GAIN_ONE as int, x));
                lemma_scaled_bounded(GAIN_ONE as int, x, if x >= 0 {
                    x
                } else {
                    -x
                });
            }
        }
    }

    /// Renders one buffer, heard at `rate`, toward the speed most recently
    /// asked for.
    ///
    /// The speed is read once, at the start; whatever it was, the buffer
    /// is the one that `render_toward` gives for it.
    pub fn render(&mut self, rate: u32, out: &mut Vec<i64>)
        ensures
            final(self).library() == old(self).library(),
            final(out)@.len() == old(out)@.len(),
            exists|target: u32|
                rendered(
                    old(self).library().loops(),
                    old(self).library().time_constant(),
                    old(self).state(),
                    final(self).state(),
                    target,
                    rate,
                    final(out)@,
                ),
    {
        let target = self.target.get_latest();
        self.render_toward(target, rate, out);
    }
}

} // verus!
