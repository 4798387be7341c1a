//! Arithmetic on fractions of `ONE`.

use vstd::arithmetic::div_mod::lemma_fundamental_div_mod_converse;
use vstd::prelude::*;

verus! {

/// The fixed-point representation of 1: sixteen fractional bits.
pub const ONE: u32 = 65536;

/// The gain that stands for 1: twenty-four fractional bits.
pub const GAIN_ONE: u32 = 0x100_0000;

/// `r` is the integer square root of `n`: the largest integer whose square
/// does not exceed `n`.
pub open spec fn is_root(n: int, r: int) -> bool {
    0 <= r && r * r <= n < (r + 1) * (r + 1)
}

/// Squaring preserves order on the non-negative integers.
pub proof fn lemma_square_monotone(a: int, b: int)
    requires
        0 <= a <= b,
    ensures
        a * a <= b * b,
{
    assert(a * a <= b * b) by (nonlinear_arith)
        requires
            0 <= a <= b,
    ;
}

/// An integer has at most one integer square root.
pub proof fn lemma_root_unique(n: int, r: int, s: int)
    requires
        is_root(n, r),
        is_root(n, s),
    ensures
        r == s,
{
    if r < s {
        lemma_square_monotone(r + 1, s);
    } else if s < r {
        lemma_square_monotone(s + 1, r);
    }
}

/// Every natural number has an integer square root.
pub proof fn lemma_root_exists(n: nat)
    ensures
        exists|r: int| is_root(n as int, r),
    decreases n,
{
    if n == 0 {
        assert(is_root(0, 0));
    } else {
        let m: int = n - 1;
        lemma_root_exists(m as nat);
        let r = root(m);
        if (r + 1) * (r + 1) <= n {
            assert((r + 2) * (r + 2) > (r + 1) * (r + 1)) by (nonlinear_arith)
                requires
                    r >= 0,
            ;
            assert(is_root(n as int, r + 1));
        } else {
            assert(is_root(n as int, r));
        }
    }
}

/// The integer square root of a natural number.
pub open spec fn root(n: int) -> int {
    choose|r: int| is_root(n, r)
}

/// The integer square root of `n`.
pub fn isqrt(n: u64) -> (r: u32)
    ensures
        is_root(n as int, r as int),
        r == root(n as int),
{
    proof {
        lemma_root_exists(n as nat);
    }
    let mut lo: u64 = 0;
    let mut hi: u64 = 0x1_0000_0000;
    assert(0x1_0000_0000int * 0x1_0000_0000int > n) by (nonlinear_arith)
        requires
            n <= 0xFFFF_FFFF_FFFF_FFFF,
    ;
    while hi - lo > 1
        invariant
            lo < hi <= 0x1_0000_0000,
            lo * lo <= n < hi * hi,
        decreases hi - lo,
    {
        let mid: u64 = lo + (hi - lo) / 2;
        assert(mid * mid <= 0xFFFF_FFFF * 0xFFFF_FFFF) by {
            lemma_square_monotone(mid as int, 0xFFFF_FFFF);
        }
        if mid * mid <= n {
            lo = mid;
        } else {
            hi = mid;
        }
    }
    proof {
        lemma_root_unique(n as int, lo as int, root(n as int));
    }
    lo as u32
}

/// The quotient of `x` by `d`, rounded toward negative infinity.
pub fn div_floor(x: i64, d: u32) -> (q: i64)
    requires
        d > 0,
    ensures
        q == x as int / d as int,
{
    let dd: i64 = d as i64;
    if x >= 0 {
        x / dd
    } else {
        let m: i64 = -(x + 1);
        let q: i64 = m / dd;
        proof {
            let r = m as int % dd as int;
            assert(m as int == dd * q + r) by {
                vstd::arithmetic::div_mod::lemma_fundamental_div_mod(m as int, dd as int);
            }
            assert(x as int == (-q - 1) * dd + (dd - 1 - r)) by (nonlinear_arith)
                requires
                    m as int == dd * q + r,
                    m as int == -(x as int + 1),
            ;
            lemma_fundamental_div_mod_converse(x as int, dd as int, -q - 1, dd - 1 - r);
        }
        -q - 1
    }
}

/// The value at fraction `f` of the way from `a` to `b`, rounded toward
/// negative infinity.
pub open spec fn mix_spec(a: int, b: int, f: int) -> int {
    (a * (ONE - f) + b * f) / (ONE as int)
}

/// A value between two others lies between them after rounding too.
pub proof fn lemma_mix_between(a: int, b: int, f: int)
    requires
        0 <= f <= ONE,
    ensures
        a <= b ==> a <= mix_spec(a, b, f) <= b,
        b <= a ==> b <= mix_spec(a, b, f) <= a,
        f == 0 ==> mix_spec(a, b, f) == a,
        f == ONE ==> mix_spec(a, b, f) == b,
{
    let one = ONE as int;
    let x = a * (one - f) + b * f;
    let lo = if a <= b { a } else { b };
    let hi = if a <= b { b } else { a };
    assert(lo * one <= x <= hi * one) by (nonlinear_arith)
        requires
            0 <= f <= one,
            x == a * (one - f) + b * f,
            lo <= a <= hi,
            lo <= b <= hi,
    ;
    vstd::arithmetic::div_mod::lemma_div_is_ordered(lo * one, x, one);
    vstd::arithmetic::div_mod::lemma_div_is_ordered(x, hi * one, one);
    vstd::arithmetic::div_mod::lemma_div_multiples_vanish(lo, one);
    vstd::arithmetic::div_mod::lemma_div_multiples_vanish(hi, one);
    if f == 0 {
        assert(x == a * one) by (nonlinear_arith)
            requires
                x == a * (one - f) + b * f,
                f == 0,
        ;
        vstd::arithmetic::div_mod::lemma_div_multiples_vanish(a, one);
    }
    if f == one {
        assert(x == b * one) by (nonlinear_arith)
            requires
                x == a * (one - f) + b * f,
                f == one,
        ;
        vstd::arithmetic::div_mod::lemma_div_multiples_vanish(b, one);
    }
}

/// Linear interpolation from `a` to `b` at fraction `f` of `ONE`.
pub fn mix(a: i32, b: i32, f: u32) -> (r: i32)
    requires
        f <= ONE,
    ensures
        r == mix_spec(a as int, b as int, f as int),
{
    let g: i64 = (ONE - f) as i64;
    assert(-0x8000_0000 * 0x1_0000 <= (a as int) * (g as int) <= 0x8000_0000 * 0x1_0000)
        by (nonlinear_arith)
        requires
            -0x8000_0000 <= a as int <= 0x8000_0000,
            0 <= g as int <= 0x1_0000,
    ;
    assert(-0x8000_0000 * 0x1_0000 <= (b as int) * (f as int) <= 0x8000_0000 * 0x1_0000)
        by (nonlinear_arith)
        requires
            -0x8000_0000 <= b as int <= 0x8000_0000,
            0 <= f as int <= 0x1_0000,
    ;
    let x: i64 = (a as i64) * g;
    let y: i64 = (b as i64) * (f as i64);
    let q: i64 = div_floor(x + y, ONE);
    proof {
        lemma_mix_between(a as int, b as int, f as int);
    }
    q as i32
}

} // verus!
