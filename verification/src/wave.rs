//! The periodic shapes that the control loop draws its targets from.
//!
//! A phase is a time within a period, both in milliseconds; a shape maps
//! it to a fraction of `ONE`. A phase beyond the period counts as wrapped
//! into it.

use crate::fixed::ONE;
use vstd::arithmetic::div_mod::{
    lemma_div_is_ordered,
    lemma_div_multiples_vanish,
    lemma_div_pos_is_pos,
};
use vstd::prelude::*;

verus! {

/// The phase at `elapsed`: the time since the period in hand began, the
/// periods being counted from `offset` before the start. A period of zero
/// has the one phase 0.
pub open spec fn phase_spec(elapsed: int, offset: int, period: int) -> int {
    if period <= 0 {
        0
    } else {
        (elapsed + offset) % period
    }
}

/// The phase at `elapsed`.
pub fn phase_at(elapsed: u32, offset: u32, period: u32) -> (q: u32)
    ensures
        q == phase_spec(elapsed as int, offset as int, period as int),
        period > 0 ==> q < period,
        period == 0 ==> q == 0,
{
    if period == 0 {
        0
    } else {
        ((elapsed as u64 + offset as u64) % (period as u64)) as u32
    }
}

/// The hump: the parabola through 0 at the ends of the period and `ONE`
/// at its middle.
pub open spec fn hump_spec(q: int, period: int) -> int {
    if period <= 0 {
        0
    } else {
        let p = q % period;
        4 * p * (period - p) * ONE / (period * period)
    }
}

/// The swing: a parabolic sinusoid about one half. It starts at one
/// half, peaks at `ONE` a quarter of the way through the period, and
/// touches 0 at three quarters.
pub open spec fn swing_spec(q: int, period: int) -> int {
    if period <= 0 {
        (ONE / 2) as int
    } else {
        let p = q % period;
        if 2 * p < period {
            ONE / 2 + 4 * p * (period - 2 * p) * ONE / (period * period)
        } else {
            ONE / 2 - 4 * (2 * p - period) * (period - p) * ONE / (period * period)
        }
    }
}

/// The warp that makes the rise fast and the fall slow: the first
/// quarter of the period is stretched over the first half, and the other
/// three quarters are pressed into the second.
pub open spec fn warp_spec(q: int, period: int) -> int {
    if 4 * q < period {
        2 * q
    } else {
        (period + 2 * q) / 3
    }
}

/// The crossfade mix at phase `q`: the hump over the warped phase, which
/// rises in a quarter of the period and falls in the rest.
pub open spec fn shape_spec(q: int, period: int) -> int {
    if period <= 0 {
        0
    } else {
        hump_spec(warp_spec(q % period, period), period)
    }
}

/// A product of two parts of a whole is at most a quarter of the whole's
/// square, and scaled to fixed point stays within the scale.
proof fn lemma_parts(a: int, b: int, whole: int, scale: int)
    requires
        0 <= a,
        0 <= b,
        a + b <= whole,
        0 < whole,
        0 <= scale,
    ensures
        0 <= 4 * a * b * scale / (whole * whole) <= scale,
{
    let sq = whole * whole;
    assert(sq > 0) by (nonlinear_arith)
        requires
            whole > 0,
            sq == whole * whole,
    ;
    assert(0 <= 4 * a * b <= sq) by (nonlinear_arith)
        requires
            0 <= a,
            0 <= b,
            a + b <= whole,
            sq == whole * whole,
    ;
    assert(0 <= 4 * a * b * scale <= sq * scale) by (nonlinear_arith)
        requires
            0 <= 4 * a * b <= sq,
            0 <= scale,
    ;
    lemma_div_pos_is_pos(4 * a * b * scale, sq);
    lemma_div_is_ordered(4 * a * b * scale, sq * scale, sq);
    lemma_div_multiples_vanish(scale, sq);
}

/// The shapes stay within the unit range, whatever the phase.
pub proof fn lemma_shapes_bounded(q: int, period: int)
    ensures
        0 <= hump_spec(q, period) <= ONE,
        0 <= swing_spec(q, period) <= ONE,
        0 <= shape_spec(q, period) <= ONE,
        period > 0 ==> 0 <= warp_spec(q % period, period) < period,
        q == 0 ==> hump_spec(q, period) == 0 && shape_spec(q, period) == 0,
{
    if period > 0 {
        vstd::arithmetic::div_mod::lemma_mod_bound(q, period);
        let p = q % period;
        lemma_parts(p, period - p, period, ONE as int);
        let h = (ONE / 2) as int;
        if 2 * p < period {
            lemma_parts(2 * p, period - 2 * p, period, h);
            assert(4 * (2 * p) * (period - 2 * p) * h == 4 * p * (period - 2 * p) * ONE)
                by (nonlinear_arith)
                requires
                    h == 32768,
            ;
        } else {
            lemma_parts(2 * p - period, 2 * period - 2 * p, period, h);
            assert(4 * (2 * p - period) * (2 * period - 2 * p) * h == 4 * (2 * p - period) * (period
                - p) * ONE) by (nonlinear_arith)
                requires
                    h == 32768,
            ;
        }
        let w = warp_spec(p, period);
        assert(0 <= w < period);
        vstd::arithmetic::div_mod::lemma_small_mod(w as nat, period as nat);
        lemma_parts(w, period - w, period, ONE as int);
        if q == 0 {
            vstd::arithmetic::div_mod::lemma_small_mod(0, period as nat);
            assert(p == 0);
            assert(4 * p * (period - p) * ONE == 0) by (nonlinear_arith)
                requires
                    p == 0,
            ;
            assert(period * period > 0) by (nonlinear_arith)
                requires
                    period > 0,
            ;
            vstd::arithmetic::div_mod::lemma_div_of0(period * period);
            assert(w == 0);
        }
    }
}

/// `4 * a * b * scale / whole^2` for two parts of a whole.
fn parts(a: u32, b: u32, whole: u32, scale: u32) -> (r: u32)
    requires
        a + b <= whole,
        0 < whole,
    ensures
        r == 4 * a * b * scale / (whole * whole),
        r <= scale,
{
    proof {
        lemma_parts(a as int, b as int, whole as int, scale as int);
    }
    assert(0 <= whole * whole <= 0xFFFF_FFFF * 0xFFFF_FFFF && 0 <= 4 * a * b <= 4 * 0xFFFF_FFFF
        * 0xFFFF_FFFF && whole * whole > 0) by (nonlinear_arith)
        requires
            0 <= a <= 0xFFFF_FFFF,
            0 <= b <= 0xFFFF_FFFF,
            0 < whole <= 0xFFFF_FFFF,
    ;
    let sq: u128 = (whole as u128) * (whole as u128);
    let ab: u128 = 4 * (a as u128) * (b as u128);
    assert(ab * scale <= 4 * 0xFFFF_FFFF * 0xFFFF_FFFF * 0xFFFF_FFFF) by (nonlinear_arith)
        requires
            0 <= ab <= 4 * 0xFFFF_FFFF * 0xFFFF_FFFF,
            0 <= scale <= 0xFFFF_FFFF,
    ;
    let r: u128 = ab * (scale as u128) / sq;
    r as u32
}

/// The hump at phase `q`.
pub fn hump(q: u32, period: u32) -> (r: u32)
    ensures
        r == hump_spec(q as int, period as int),
        r <= ONE,
{
    if period == 0 {
        0
    } else {
        let p = q % period;
        parts(p, period - p, period, ONE)
    }
}

/// The swing at phase `q`.
pub fn swing(q: u32, period: u32) -> (r: u32)
    ensures
        r == swing_spec(q as int, period as int),
        r <= ONE,
{
    if period == 0 {
        return ONE / 2;
    }
    let p = q % period;
    if (p as u64) * 2 < period as u64 {
        let up = parts(2 * p, period - 2 * p, period, ONE / 2);
        proof {
            assert(4 * (2 * p) * (period - 2 * p) * 32768 == 4 * p * (period - 2 * p) * ONE)
                by (nonlinear_arith);
        }
        ONE / 2 + up
    } else {
        let back: u32 = ((p as u64) * 2 - period as u64) as u32;
        let down = parts(back, 2 * (period - p), period, ONE / 2);
        proof {
            assert(4 * (2 * p - period) * (2 * (period - p)) * 32768 == 4 * (2 * p - period) * (
            period - p) * ONE) by (nonlinear_arith);
        }
        ONE / 2 - down
    }
}

/// The crossfade mix at phase `q`.
pub fn shape(q: u32, period: u32) -> (r: u32)
    ensures
        r == shape_spec(q as int, period as int),
        r <= ONE,
{
    if period == 0 {
        return 0;
    }
    let p = q % period;
    let warped: u64 = if (p as u64) * 4 < period as u64 {
        2 * (p as u64)
    } else {
        (period as u64 + 2 * (p as u64)) / 3
    };
    proof {
        lemma_shapes_bounded(q as int, period as int);
    }
    hump(warped as u32, period)
}

} // verus!
