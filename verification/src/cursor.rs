//! Fractional read positions in a looped recording.

use crate::fixed::{mix, mix_spec, ONE};
use vstd::arithmetic::div_mod::{
    lemma_fundamental_div_mod,
    lemma_fundamental_div_mod_converse,
    lemma_mod_breakdown,
    lemma_mod_multiples_vanish,
    lemma_small_mod,
};
use vstd::prelude::*;

verus! {

/// A read position: a whole frame index and sixteen bits of the way to the
/// next frame.
#[derive(Debug, Clone, Copy, PartialEq, Eq)]
pub struct Cursor {
    pub index: usize,
    pub frac: u16,
}

/// The amplitude of the loop `frames` at position `pos`, counted in
/// 65536ths of a frame from the loop's start: the line
/// between the two frames around `pos`, the last frame being followed by
/// the first.
pub open spec fn sample_spec(frames: Seq<i32>, pos: int) -> int {
    let len = frames.len() as int;
    let i = (pos / (ONE as int)) % len;
    let j = (i + 1) % len;
    mix_spec(frames[i] as int, frames[j] as int, pos % (ONE as int))
}

/// How far the read position moves per output frame when a loop recorded
/// at speed `recorded` plays at speed `current` and the listener hears
/// time pass at `rate`, a fraction of `ONE`: the pitch ratio
/// `current / recorded` times the rate.
pub open spec fn pitch_spec(current: int, recorded: int, rate: int) -> int {
    current * rate / recorded
}

/// The step of the read position per output frame.
pub fn pitch_step(current: u32, recorded: u32, rate: u32) -> (step: u64)
    requires
        recorded > 0,
    ensures
        step == pitch_spec(current as int, recorded as int, rate as int),
        recorded == current ==> step == rate,
{
    assert(current * rate <= 0xFFFF_FFFF * 0xFFFF_FFFF) by (nonlinear_arith)
        requires
            0 <= current <= 0xFFFF_FFFF,
            0 <= rate <= 0xFFFF_FFFF,
    ;
    let step = (current as u64) * (rate as u64) / (recorded as u64);
    proof {
        if recorded == current {
            vstd::arithmetic::div_mod::lemma_div_multiples_vanish(rate as int, recorded as int);
            assert(current * rate == (recorded as int) * (rate as int));
        }
    }
    step
}

/// The cursor at position `pos`.
pub open spec fn cursor_at(pos: int) -> Cursor {
    Cursor { index: (pos / (ONE as int)) as usize, frac: (pos % (ONE as int)) as u16 }
}

/// A cursor is the cursor at its own position.
pub proof fn lemma_cursor_at(c: Cursor)
    ensures
        cursor_at(c.position()) == c,
{
    lemma_split(c.index as int, c.frac as int);
}

/// Splitting a position into frame and fraction.
proof fn lemma_split(index: int, frac: int)
    requires
        0 <= frac < ONE,
    ensures
        (index * ONE + frac) / (ONE as int) == index,
        (index * ONE + frac) % (ONE as int) == frac,
{
    assert(index * ONE + frac == (ONE as int) * index + frac) by (nonlinear_arith);
    lemma_fundamental_div_mod_converse(index * ONE + frac, ONE as int, index, frac);
}

/// A loop reads the same a whole number of loop lengths further on.
pub proof fn lemma_sample_wraps(frames: Seq<i32>, pos: int, turns: int)
    requires
        frames.len() > 0,
    ensures
        sample_spec(frames, pos + turns * (frames.len() * ONE)) == sample_spec(frames, pos),
{
    let one = ONE as int;
    let len = frames.len() as int;
    let q = pos / one;
    let r = pos % one;
    lemma_fundamental_div_mod(pos, one);
    let shifted = pos + turns * (len * one);
    assert(shifted == one * (q + turns * len) + r) by (nonlinear_arith)
        requires
            pos == one * q + r,
            shifted == pos + turns * (len * one),
    ;
    lemma_fundamental_div_mod_converse(shifted, one, q + turns * len, r);
    assert(q + turns * len == len * turns + q) by (nonlinear_arith);
    lemma_mod_multiples_vanish(turns, q, len);
}

/// A loop reads at any position as at that position wrapped into it.
pub proof fn lemma_sample_reduced(frames: Seq<i32>, pos: int)
    requires
        frames.len() > 0,
    ensures
        sample_spec(frames, pos % (frames.len() * ONE)) == sample_spec(frames, pos),
{
    let m = frames.len() * ONE;
    lemma_fundamental_div_mod(pos, m);
    let k = pos / m;
    assert(pos % m == pos + (-k) * m) by (nonlinear_arith)
        requires
            pos == m * k + pos % m,
    ;
    lemma_sample_wraps(frames, pos, -k);
}

impl Cursor {
    /// The position as one number: the frame index with the fraction
    /// behind it.
    pub open spec fn position(&self) -> int {
        self.index * ONE + self.frac
    }

    /// The start of a loop.
    pub fn start() -> (c: Cursor)
        ensures
            c.position() == 0,
    {
        Cursor { index: 0, frac: 0 }
    }

    /// The amplitude of `frames` under the cursor.
    pub fn read(&self, frames: &Vec<i32>) -> (s: i32)
        requires
            frames@.len() > 0,
        ensures
            s == sample_spec(frames@, self.position()),
    {
        let len = frames.len();
        let i = self.index % len;
        let j = if i + 1 == len {
            0
        } else {
            i + 1
        };
        proof {
            lemma_split(self.index as int, self.frac as int);
            if i + 1 == len {
                vstd::arithmetic::div_mod::lemma_mod_self_0(len as int);
            } else {
                lemma_small_mod((i + 1) as nat, len as nat);
            }
        }
        mix(frames[i], frames[j], self.frac as u32)
    }

    /// The cursor `step` further on in a loop of `len` frames, wrapped
    /// into the loop.
    pub fn advance(&self, step: u64, len: usize) -> (c: Cursor)
        requires
            len > 0,
        ensures
            c.position() == (self.position() + step) % (len * ONE),
            c.index < len,
    {
        let i = self.index % len;
        let fine: u32 = self.frac as u32 + (step % 65536) as u32;
        let carry: u32 = fine / 65536;
        let frac: u32 = fine % 65536;
        let whole: u64 = step / 65536;
        let sum: u128 = i as u128 + whole as u128 + carry as u128;
        let index: u128 = sum % (len as u128);
        proof {
            let one = ONE as int;
            let x = self.position() + step;
            let y = self.index + whole + carry;
            lemma_fundamental_div_mod(step as int, one);
            lemma_fundamental_div_mod(fine as int, one);
            assert(x == y * one + frac) by (nonlinear_arith)
                requires
                    x == self.index * one + self.frac + step,
                    y == self.index + whole + carry,
                    step as int == one * whole + (step as int % one),
                    fine as int == self.frac + (step as int % one),
                    fine as int == one * carry + frac,
            ;
            lemma_split(y, frac as int);
            lemma_mod_breakdown(x, one, len as int);
            lemma_fundamental_div_mod(self.index as int, len as int);
            let k = self.index as int / len as int;
            assert(y == len * k + sum) by (nonlinear_arith)
                requires
                    y == self.index + whole + carry,
                    sum as int == i + whole + carry,
                    self.index as int == len * k + i,
            ;
            lemma_mod_multiples_vanish(k, sum as int, len as int);
            assert(one * len == len * one) by (nonlinear_arith);
            assert(one * index + frac == index * one + frac) by (nonlinear_arith);
        }
        Cursor { index: index as usize, frac: frac as u16 }
    }
}

} // verus!
