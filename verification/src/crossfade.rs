//! Equal-power crossfading between two signals.

use crate::fixed::{is_root, isqrt, lemma_root_exists, lemma_root_unique, root, GAIN_ONE, ONE};
use vstd::prelude::*;

verus! {

/// How far `rpm` lies from `low` toward `high`, as a fraction of `ONE`
/// rounded down: 0 at or below `low`, `ONE` at or above `high`, and 0
/// where `high` does not exceed `low`.
pub open spec fn weight_spec(rpm: int, low: int, high: int) -> int {
    if high <= low || rpm <= low {
        0
    } else if rpm >= high {
        ONE as int
    } else {
        (rpm - low) * ONE / (high - low)
    }
}

/// The interpolation weight of `rpm` between the speeds `low` and `high`.
pub fn blend_weight(rpm: u32, low: u32, high: u32) -> (t: u32)
    ensures
        t == weight_spec(rpm as int, low as int, high as int),
        t <= ONE,
{
    if high <= low || rpm <= low {
        0
    } else if rpm >= high {
        ONE
    } else {
        let gap: u64 = (rpm - low) as u64;
        assert(gap * 65536 <= 0xFFFF_FFFF * 65536);
        let num: u64 = gap * 65536;
        let den: u64 = (high - low) as u64;
        let q: u64 = num / den;
        proof {
            let a = (rpm - low) as int;
            let d = (high - low) as int;
            assert(a * ONE < d * ONE) by (nonlinear_arith)
                requires
                    0 < a < d,
            ;
            vstd::arithmetic::div_mod::lemma_div_by_multiple_is_strongly_ordered(
                a * ONE,
                d * ONE,
                ONE as int,
                d,
            );
            vstd::arithmetic::div_mod::lemma_div_multiples_vanish(ONE as int, d);
            assert(d * ONE == ONE * d) by (nonlinear_arith);
        }
        q as u32
    }
}

/// The share of the power that goes to the second signal at weight `t`,
/// as a fraction of `ONE`: `t` itself, held to `ONE`.
pub open spec fn share(t: int) -> int {
    if t <= 0 {
        0
    } else if t >= ONE {
        ONE as int
    } else {
        t
    }
}

/// The gain of the first signal at weight `t`, as a fraction of
/// `GAIN_ONE`: the square root of the power that the second leaves.
pub open spec fn gain_low(t: int) -> int {
    root((ONE - share(t)) * 0x1_0000_0000)
}

/// The gain of the second signal at weight `t`, as a fraction of
/// `GAIN_ONE`: the square root of its share of the power.
pub open spec fn gain_high(t: int) -> int {
    root(share(t) * 0x1_0000_0000)
}

/// The equal-power gains at weight `t`, first signal first.
pub fn crossfade_gains(t: u32) -> (g: (u32, u32))
    ensures
        g.0 == gain_low(t as int),
        g.1 == gain_high(t as int),
        g.0 <= GAIN_ONE,
        g.1 <= GAIN_ONE,
{
    let s: u64 = if t >= ONE {
        ONE as u64
    } else {
        t as u64
    };
    let one: u64 = ONE as u64;
    let low = isqrt((one - s) * 0x1_0000_0000);
    let high = isqrt(s * 0x1_0000_0000);
    proof {
        lemma_equal_power(t as int);
    }
    (low, high)
}

/// The equal-power law. The two powers sum to one exactly. No gain
/// exceeds one, and the squares of the two gains sum to one from below,
/// within the rounding of each gain's last place: the sum falls short of
/// one by no more than a millionth. At weight 0 the first signal passes
/// whole and the second is silent, and at weight `ONE` the other way
/// round.
pub proof fn lemma_equal_power(t: int)
    ensures
        (ONE - share(t)) * 0x1_0000_0000 + share(t) * 0x1_0000_0000 == GAIN_ONE * GAIN_ONE,
        0 <= gain_low(t) <= GAIN_ONE,
        0 <= gain_high(t) <= GAIN_ONE,
        gain_low(t) * gain_low(t) + gain_high(t) * gain_high(t) <= GAIN_ONE * GAIN_ONE,
        GAIN_ONE * GAIN_ONE < (gain_low(t) + 1) * (gain_low(t) + 1) + (gain_high(t) + 1) * (
        gain_high(t) + 1),
        (GAIN_ONE * GAIN_ONE - gain_low(t) * gain_low(t) - gain_high(t) * gain_high(t)) * 1_000_000
            <= GAIN_ONE * GAIN_ONE,
        t <= 0 ==> gain_low(t) == GAIN_ONE && gain_high(t) == 0,
        t >= ONE ==> gain_low(t) == 0 && gain_high(t) == GAIN_ONE,
{
    let whole = GAIN_ONE as int;
    let s = share(t);
    let pl = (ONE - s) * 0x1_0000_0000;
    let ph = s * 0x1_0000_0000;
    assert(whole * whole == 0x1_0000_0000_0000) by (nonlinear_arith)
        requires
            whole == 0x100_0000,
    ;
    assert(pl + ph == whole * whole && pl >= 0 && ph >= 0);
    lemma_root_exists(pl as nat);
    lemma_root_exists(ph as nat);
    let gl = root(pl);
    let gh = root(ph);
    assert(is_root(pl, gl) && is_root(ph, gh));
    assert(is_root(whole * whole, whole)) by (nonlinear_arith)
        requires
            whole == 0x100_0000,
    ;
    assert(is_root(0, 0));
    if gl > whole {
        crate::fixed::lemma_square_monotone(whole + 1, gl);
    }
    if gh > whole {
        crate::fixed::lemma_square_monotone(whole + 1, gh);
    }
    assert(whole * whole - gl * gl - gh * gh <= 2 * gl + 2 * gh + 1) by (nonlinear_arith)
        requires
            pl + ph == whole * whole,
            pl < (gl + 1) * (gl + 1),
            ph < (gh + 1) * (gh + 1),
    ;
    if t <= 0 {
        assert(pl == whole * whole && ph == 0);
        lemma_root_unique(pl, gl, whole);
        lemma_root_unique(ph, gh, 0);
    }
    if t >= ONE {
        assert(ph == whole * whole && pl == 0);
        lemma_root_unique(ph, gh, whole);
        lemma_root_unique(pl, gl, 0);
    }
}

} // verus!
