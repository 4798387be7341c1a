//! First-order smoothing of the engine speed, one step per buffer.
//!
//! A buffer of `frames` frames moves the speed toward its target by the
//! fraction `frames / (tau + frames)` of the gap, rounded up to a whole
//! unit so that the speed always arrives.

use vstd::arithmetic::div_mod::{lemma_fundamental_div_mod, lemma_fundamental_div_mod_converse};
use vstd::prelude::*;

verus! {

/// The quotient of `a` by `d`, rounded up.
pub open spec fn ceil_div(a: int, d: int) -> int {
    (a + d - 1) / d
}

/// The rounded-up quotient is the least integer whose product with the
/// divisor reaches the dividend.
pub proof fn lemma_ceil_div(a: int, d: int)
    requires
        0 <= a,
        0 < d,
    ensures
        ceil_div(a, d) * d >= a,
        (ceil_div(a, d) - 1) * d < a || (a == 0 && ceil_div(a, d) == 0),
        0 <= ceil_div(a, d),
{
    let c = ceil_div(a, d);
    let x = a + d - 1;
    lemma_fundamental_div_mod(x, d);
    let r = x % d;
    assert(x == d * c + r && 0 <= r < d);
    assert(c * d >= a && c >= 0 && ((c - 1) * d < a || (a == 0 && c == 0))) by (nonlinear_arith)
        requires
            a + d - 1 == d * c + r,
            0 <= r < d,
            0 <= a,
    ;
}

/// No smaller integer reaches the dividend.
pub proof fn lemma_ceil_least(a: int, d: int, e: int)
    requires
        0 <= a,
        0 < d,
        e * d >= a,
    ensures
        e >= ceil_div(a, d),
{
    lemma_ceil_div(a, d);
    let c = ceil_div(a, d);
    if e < c {
        assert(e * d <= (c - 1) * d) by (nonlinear_arith)
            requires
                e <= c - 1,
                d > 0,
        ;
        assert(e < 0 ==> e * d < 0) by (nonlinear_arith)
            requires
                d > 0,
        ;
    }
}

/// How far one buffer moves the speed across a gap of `gap` units.
pub open spec fn step_spec(gap: int, tau: int, frames: int) -> int {
    if frames <= 0 {
        0
    } else {
        ceil_div(gap * frames, tau + frames)
    }
}

/// The speed after one buffer of `frames` frames, on the way from
/// `current` to `target` with time constant `tau`.
pub open spec fn smooth_spec(current: int, target: int, tau: int, frames: int) -> int {
    if target >= current {
        current + step_spec(target - current, tau, frames)
    } else {
        current - step_spec(current - target, tau, frames)
    }
}

/// The smoothing law. A step never exceeds the gap, so the speed moves
/// toward the target and never past it; it is positive while a gap
/// remains, so the speed arrives; it is less than one unit above the
/// fraction `frames / (tau + frames)` of the gap; and it falls short of
/// the gap wherever `tau` is positive and `tau + frames <= gap * tau`, so
/// a large jump in the target is never followed in one buffer.
pub proof fn lemma_step_bounded(gap: int, tau: int, frames: int)
    requires
        0 <= gap,
        0 <= tau,
        0 <= frames,
    ensures
        0 <= step_spec(gap, tau, frames) <= gap,
        frames > 0 && gap > 0 ==> step_spec(gap, tau, frames) >= 1,
        frames > 0 && tau == 0 ==> step_spec(gap, tau, frames) == gap,
        frames > 0 ==> (step_spec(gap, tau, frames) - 1) * (tau + frames) < gap * frames || gap
            == 0,
        tau > 0 && tau + frames <= gap * tau ==> step_spec(gap, tau, frames) < gap,
{
    if frames > 0 {
        let d = tau + frames;
        let a = gap * frames;
        assert(0 <= a <= gap * d) by (nonlinear_arith)
            requires
                a == gap * frames,
                d == tau + frames,
                0 <= gap,
                0 <= tau,
                0 < frames,
        ;
        lemma_ceil_div(a, d);
        lemma_ceil_least(a, d, gap);
        let c = ceil_div(a, d);
        assert(gap >= c);
        if gap > 0 {
            assert(a > 0) by (nonlinear_arith)
                requires
                    a == gap * frames,
                    gap > 0,
                    frames > 0,
            ;
            if c == 0 {
                assert(c * d == 0) by (nonlinear_arith)
                    requires
                        c == 0,
                ;
            }
        } else {
            assert(a == 0) by (nonlinear_arith)
                requires
                    a == gap * frames,
                    gap == 0,
            ;
        }
        if tau == 0 {
            if c < gap {
                assert(c * d < a) by (nonlinear_arith)
                    requires
                        c < gap,
                        d == frames,
                        a == gap * frames,
                        frames > 0,
                ;
            }
        }
        if tau + frames <= gap * tau {
            assert((gap - 1) * d >= a) by (nonlinear_arith)
                requires
                    tau + frames <= gap * tau,
                    d == tau + frames,
                    a == gap * frames,
            ;
            lemma_ceil_least(a, d, gap - 1);
            assert(gap >= 1) by (nonlinear_arith)
                requires
                    tau + frames <= gap * tau,
                    frames > 0,
                    tau >= 0,
                    gap >= 0,
            ;
        }
    } else {
        if tau > 0 && tau + frames <= gap * tau {
            assert(gap >= 1) by (nonlinear_arith)
                requires
                    tau <= gap * tau,
                    gap >= 0,
                    tau > 0,
            ;
        }
    }
}

/// What a step leaves of a gap is at most the fraction
/// `tau / (tau + frames)` of it.
pub proof fn lemma_step_leaves(gap: int, tau: int, frames: int)
    requires
        0 <= gap,
        0 <= tau,
        0 < frames,
    ensures
        (gap - step_spec(gap, tau, frames)) * (tau + frames) <= gap * tau,
{
    let a = gap * frames;
    let d = tau + frames;
    assert(0 <= a) by (nonlinear_arith)
        requires
            a == gap * frames,
            0 <= gap,
            0 < frames,
    ;
    lemma_ceil_div(a, d);
    let c = ceil_div(a, d);
    assert((gap - c) * d <= gap * tau) by (nonlinear_arith)
        requires
            c * d >= a,
            a == gap * frames,
            d == tau + frames,
    ;
}

/// A longer time constant never yields a longer step.
pub proof fn lemma_step_slower(gap: int, tau: int, slower: int, frames: int)
    requires
        0 <= gap,
        0 <= tau <= slower,
        0 <= frames,
    ensures
        step_spec(gap, slower, frames) <= step_spec(gap, tau, frames),
{
    if frames > 0 {
        let a = gap * frames;
        assert(0 <= a) by (nonlinear_arith)
            requires
                a == gap * frames,
                0 <= gap,
                0 < frames,
        ;
        lemma_ceil_div(a, tau + frames);
        lemma_ceil_div(a, slower + frames);
        let c = ceil_div(a, tau + frames);
        assert(c * (slower + frames) >= a) by (nonlinear_arith)
            requires
                c * (tau + frames) >= a,
                c >= 0,
                tau <= slower,
        ;
        lemma_ceil_least(a, slower + frames, c);
    }
}

/// Moves `current` one buffer of `frames` frames toward `target`.
pub fn smooth_toward(current: u32, target: u32, tau: u64, frames: u64) -> (r: u32)
    ensures
        r == smooth_spec(current as int, target as int, tau as int, frames as int),
        current <= target ==> current <= r <= target,
        target <= current ==> target <= r <= current,
{
    let gap: u32 = if target >= current {
        target - current
    } else {
        current - target
    };
    proof {
        lemma_step_bounded(gap as int, tau as int, frames as int);
    }
    if frames == 0 {
        return current;
    }
    let den: u128 = tau as u128 + frames as u128;
    assert(gap as int * frames as int <= 0xFFFF_FFFF * 0xFFFF_FFFF_FFFF_FFFF) by (nonlinear_arith)
        requires
            0 <= gap as int <= 0xFFFF_FFFF,
            0 <= frames as int <= 0xFFFF_FFFF_FFFF_FFFF,
    ;
    let num: u128 = gap as u128 * frames as u128;
    let q: u128 = num / den;
    let rem: u128 = num % den;
    let step: u128 = if rem > 0 {
        q + 1
    } else {
        q
    };
    proof {
        lemma_fundamental_div_mod(num as int, den as int);
        if rem > 0 {
            assert(num as int + den as int - 1 == (q as int + 1) * den as int + (rem as int
                - 1)) by (nonlinear_arith)
                requires
                    num as int == den as int * q as int + rem as int,
            ;
            lemma_fundamental_div_mod_converse(
                num as int + den as int - 1,
                den as int,
                q as int + 1,
                rem as int - 1,
            );
        } else {
            assert(num as int + den as int - 1 == q as int * den as int + (den as int - 1))
                by (nonlinear_arith)
                requires
                    num as int == den as int * q as int + rem as int,
                    rem == 0,
            ;
            lemma_fundamental_div_mod_converse(
                num as int + den as int - 1,
                den as int,
                q as int,
                den as int - 1,
            );
        }
        assert(step as int == step_spec(gap as int, tau as int, frames as int));
    }
    if target >= current {
        current + step as u32
    } else {
        current - step as u32
    }
}

} // verus!
