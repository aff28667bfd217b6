//! Positions of grid columns in single precision, worked out in integers.
//!
//! A column's coordinate is a fraction `num / den`. Which of `bins` equal
//! bins it falls into is decided as single-precision arithmetic decides it:
//! the fraction is rounded to 24 significant bits, so is its product with
//! the bin count, and the bin is the integer part of that. Rounding is to
//! nearest, ties to even, the same on every machine.

use vstd::prelude::*;
use vstd::arithmetic::div_mod::{lemma_fundamental_div_mod, lemma_mod_bound};

verus! {

/// The integer nearest to `n / d`, the even one of two equally near.
pub open spec fn nearest_even(n: int, d: int) -> int {
    let q: int = n / d;
    let r: int = n % d;
    if 2 * r > d || (2 * r == d && q % 2 == 1) {
        q + 1
    } else {
        q
    }
}

/// `n` doubled until it reaches `limit`, together with `scale` doubled as often.
pub open spec fn raised(n: int, limit: int, scale: int) -> (int, int)
    decreases (if n < limit { limit - n } else { 0 }),
{
    if n <= 0 || n >= limit {
        (n, scale)
    } else {
        raised(2 * n, limit, 2 * scale)
    }
}

/// `d` doubled until `p` lies below `2^24 * d`: the spacing of
/// single-precision numbers around `p`.
pub open spec fn granule(p: int, d: int) -> int
    decreases (if 0x100_0000 * d <= p { p - 0x100_0000 * d + 1 } else { 0 }),
{
    if d <= 0 || p < 0x100_0000 * d {
        d
    } else {
        granule(p, 2 * d)
    }
}

/// The integer part of `(num / den) * bins` in single precision.
pub open spec fn single_floor(num: int, den: int, bins: int) -> int {
    if num <= 0 {
        0
    } else {
        let (n, scale) = raised(num, den * 0x80_0000, 1);
        let p: int = nearest_even(n, den) * bins;
        let d: int = granule(p, 1);
        nearest_even(p, d) * d / scale
    }
}

/// Computes `nearest_even`.
pub fn round_even(n: u64, d: u64) -> (r: u64)
    requires
        0 < d <= 0x1_0000,
        n <= 0x4_0000_0000,
    ensures
        r == nearest_even(n as int, d as int),
        r * d <= n + d,
        r <= n / d + 1,
{
    let q: u64 = n / d;
    let rem: u64 = n % d;
    proof {
        lemma_fundamental_div_mod(n as int, d as int);
        lemma_mod_bound(n as int, d as int);
        assert((q + 1) * d == q * d + d) by (nonlinear_arith);
        assert(q * d == d * q) by (nonlinear_arith);
    }
    if 2 * rem > d || (2 * rem == d && q % 2 == 1) {
        q + 1
    } else {
        q
    }
}

/// Computes `single_floor`.
pub fn scaled_floor(num: u64, den: u64, bins: u64) -> (r: u64)
    requires
        0 < den <= 512,
        num < den,
        bins <= 255,
    ensures
        r == single_floor(num as int, den as int, bins as int),
{
    if num == 0 {
        return 0;
    }
    let limit: u64 = den * 0x80_0000;
    let mut n: u64 = num;
    let mut scale: u64 = 1;
    while n < limit
        invariant
            1 <= scale <= n,
            n < 2 * limit,
            limit == den * 0x80_0000,
            den <= 512,
            raised(num as int, limit as int, 1) == raised(n as int, limit as int, scale as int),
        decreases (if n < limit { limit - n } else { 0 }),
    {
        n = 2 * n;
        scale = 2 * scale;
    }
    proof {
        lemma_fundamental_div_mod(n as int, den as int);
        lemma_mod_bound(n as int, den as int);
        assert(n / den <= 0x100_0000) by (nonlinear_arith)
            requires
                n as int == den as int * (n as int / den as int) + n as int % den as int,
                0 <= n as int % den as int,
                n < 2 * (den * 0x80_0000),
                0 < den,
        ;
    }
    let m: u64 = round_even(n, den);
    assert(m * bins <= 0x100_0001 * 255) by (nonlinear_arith)
        requires
            m <= 0x100_0001,
            bins <= 255,
    ;
    let p: u64 = m * bins;
    let mut d: u64 = 1;
    while p >= 0x100_0000 * d
        invariant
            1 <= d <= 512,
            p <= 0x100_0001 * 255,
            granule(p as int, 1) == granule(p as int, d as int),
        decreases (if 0x100_0000 * d <= p { p - 0x100_0000 * d + 1 } else { 0 }),
    {
        d = 2 * d;
    }
    let rounded: u64 = round_even(p, d);
    proof {
        assert(rounded * d <= p + d);
    }
    rounded * d / scale
}

} // verus!
