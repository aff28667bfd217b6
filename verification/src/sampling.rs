//! Array-wide operations: clamping to a bound, resampling from a table of
//! cuts, summing, and laying out a fresh prediction kernel.

use vstd::prelude::*;
use vstd::arithmetic::div_mod::{lemma_fundamental_div_mod, lemma_fundamental_div_mod_converse, lemma_mod_bound};
use crate::rng::{stream, unit_of, Xorshift32};
use crate::sums::{lemma_total_prefix, total};
use crate::state::cell_budget;

verus! {

/// Inverse-CDF sampling by a table of cuts: the first index from `i` on
/// whose cut exceeds the variate, and `top` when none below `top` does. A
/// table that ends early is read as if continued by zeros.
pub open spec fn sample_from(cuts: Seq<u32>, u: u32, top: int, i: int) -> int
    decreases top - i,
{
    if i >= top {
        top
    } else if i < cuts.len() && u < cuts[i] {
        i
    } else {
        sample_from(cuts, u, top, i + 1)
    }
}

/// The index in `0 ..= top` that the variate `u` selects.
pub open spec fn sample(cuts: Seq<u32>, u: u32, top: int) -> int {
    sample_from(cuts, u, top, 0)
}

/// The table for entry `i`, or the empty table when there is none.
pub open spec fn table_at(tables: Seq<Seq<u32>>, i: int) -> Seq<u32> {
    if 0 <= i < tables.len() {
        tables[i]
    } else {
        Seq::empty()
    }
}

/// `len` values in `0 ..= top`, the `i`-th sampled with draw `i + 1` of the stream.
pub open spec fn resampled_u8(len: nat, rng: u32, cuts: Seq<u32>, top: u8) -> Seq<u8> {
    Seq::new(len, |i: int| sample(cuts, unit_of(stream(rng, (i + 1) as nat)), top as int) as u8)
}

/// As `resampled_u8`, for wider values.
pub open spec fn resampled_u16(len: nat, rng: u32, cuts: Seq<u32>, top: u16) -> Seq<u16> {
    Seq::new(len, |i: int| sample(cuts, unit_of(stream(rng, (i + 1) as nat)), top as int) as u16)
}

/// `len` values in `-l ..= l`: index `k` of the table stands for `k - l`.
pub open spec fn resampled_i16(len: nat, rng: u32, cuts: Seq<u32>, l: i16) -> Seq<i16> {
    Seq::new(
        len,
        |i: int| (sample(cuts, unit_of(stream(rng, (i + 1) as nat)), 2 * l as int) - l) as i16,
    )
}

/// As `resampled_u8`, with a table of its own for every entry.
pub open spec fn resampled_each(len: nat, rng: u32, tables: Seq<Seq<u32>>, top: u8) -> Seq<u8> {
    Seq::new(
        len,
        |i: int| sample(table_at(tables, i), unit_of(stream(rng, (i + 1) as nat)), top as int) as u8,
    )
}

/// Every entry brought down to `top` where it lies above.
pub open spec fn clamped_u8(s: Seq<u8>, top: u8) -> Seq<u8> {
    Seq::new(s.len(), |i: int| if s[i] > top { top } else { s[i] })
}

/// As `clamped_u8`, for wider values.
pub open spec fn clamped_u16(s: Seq<u16>, top: u16) -> Seq<u16> {
    Seq::new(s.len(), |i: int| if s[i] > top { top } else { s[i] })
}

/// Every entry brought into `-l ..= l`.
pub open spec fn clamped_i16(s: Seq<i16>, l: i16) -> Seq<i16> {
    Seq::new(
        s.len(),
        |i: int| if s[i] > l { l } else if s[i] < -l { (-l) as i16 } else { s[i] },
    )
}

/// The prediction kernel a simulation starts from: at every cell the budget
/// spread evenly over the directions, the remainder going one unit each to
/// the first directions.
pub open spec fn fresh_budget(slots: nat, r_count: int, budget: u8) -> Seq<u8> {
    Seq::new(
        slots,
        |i: int| (budget as int / r_count + (if i % r_count < budget as int % r_count { 1int } else { 0 })) as u8,
    )
}

/// A sampled index lies between where the search starts and `top`.
pub proof fn lemma_sample_range(cuts: Seq<u32>, u: u32, top: int, i: int)
    requires
        0 <= i <= top,
    ensures
        i <= sample_from(cuts, u, top, i) <= top,
    decreases top - i,
{
    if i < top && !(i < cuts.len() && u < cuts[i]) {
        lemma_sample_range(cuts, u, top, i + 1);
    }
}

/// The sum of an even spread with remainder is the budget.
proof fn lemma_total_spread(s: Seq<u8>, base: int, rem: int, k: int)
    requires
        0 <= k <= s.len(),
        0 <= rem,
        forall|r: int| 0 <= r < s.len() ==> #[trigger] s[r] == base + (if r < rem { 1int } else { 0 }),
    ensures
        total(s.subrange(0, k)) == base * k + (if k < rem { k } else { rem }),
    decreases k,
{
    if k == 0 {
        assert(base * 0 == 0);
    } else {
        lemma_total_spread(s, base, rem, k - 1);
        lemma_total_prefix(s, k - 1);
        assert(base * k == base * (k - 1) + base) by (nonlinear_arith);
    }
}

/// A fresh kernel keeps the budget at every cell.
pub proof fn lemma_fresh_budget(count: int, r_count: int, budget: u8)
    requires
        0 <= count,
        0 < r_count <= 255,
    ensures
        forall|c: int|
            0 <= c < count ==> #[trigger] cell_budget(
                fresh_budget((count * r_count) as nat, r_count, budget),
                c,
                r_count,
            ) == budget,
{
    let f = fresh_budget((count * r_count) as nat, r_count, budget);
    let base: int = budget as int / r_count;
    let rem: int = budget as int % r_count;
    lemma_fundamental_div_mod(budget as int, r_count);
    lemma_mod_bound(budget as int, r_count);
    assert(0 <= count * r_count) by (nonlinear_arith)
        requires
            0 <= count,
            0 < r_count,
    ;
    assert forall|c: int| 0 <= c < count implies #[trigger] cell_budget(f, c, r_count) == budget by {
        assert(0 <= c * r_count && c * r_count + r_count <= count * r_count) by (nonlinear_arith)
            requires
                0 <= c < count,
                0 < r_count,
        ;
        let sub = f.subrange(c * r_count, c * r_count + r_count);
        assert forall|r: int| 0 <= r < sub.len() implies #[trigger] sub[r] == base + (if r < rem {
            1int
        } else {
            0
        }) by {
            assert(c * r_count + r == r_count * c + r) by (nonlinear_arith);
            lemma_fundamental_div_mod_converse(c * r_count + r, r_count, c, r);
            assert(0 <= base <= 255) by (nonlinear_arith)
                requires
                    budget as int == r_count * base + rem,
                    0 <= rem < r_count,
                    0 <= budget as int <= 255,
                    base == budget as int / r_count,
                    0 < r_count,
            ;
            if base == 255 {
                assert(rem == 0) by (nonlinear_arith)
                    requires
                        budget as int == r_count * base + rem,
                        base == 255,
                        0 <= rem,
                        1 <= r_count,
                        budget as int <= 255,
                ;
            }
        }
        lemma_total_spread(sub, base, rem, r_count);
        assert(sub.subrange(0, r_count) =~= sub);
        assert(base * r_count == r_count * base) by (nonlinear_arith);
    }
}

/// Computes `sample`.
pub fn sample_index(cuts: &Vec<u32>, u: u32, top: usize) -> (idx: usize)
    ensures
        idx == sample(cuts@, u, top as int),
        idx <= top,
{
    let mut i: usize = 0;
    while i < top && !(i < cuts.len() && u < cuts[i])
        invariant
            i <= top,
            sample(cuts@, u, top as int) == sample_from(cuts@, u, top as int, i as int),
        decreases top - i,
    {
        i = i + 1;
    }
    i
}

/// Resamples every entry of `v` from one table.
pub fn resample_u8(v: &mut Vec<u8>, rng: &mut Xorshift32, cuts: &Vec<u32>, top: u8)
    ensures
        final(v)@ == resampled_u8(old(v)@.len(), old(rng)@, cuts@, top),
        final(rng)@ == stream(old(rng)@, old(v)@.len()),
        forall|i: int| 0 <= i < final(v)@.len() ==> #[trigger] final(v)@[i] <= top,
{
    let ghost g0 = rng@;
    let n: usize = v.len();
    let mut i: usize = 0;
    while i < n
        invariant
            i <= n,
            v@.len() == n,
            rng@ == stream(g0, i as nat),
            forall|j: int| 0 <= j < i ==> #[trigger] v@[j] == resampled_u8(n as nat, g0, cuts@, top)[j],
            forall|j: int| 0 <= j < i ==> #[trigger] v@[j] <= top,
        decreases n - i,
    {
        let u: u32 = rng.next_unit();
        let idx: usize = sample_index(cuts, u, top as usize);
        v[i] = idx as u8;
        i = i + 1;
    }
    assert(v@ =~= resampled_u8(n as nat, g0, cuts@, top));
}

/// Resamples every entry of `v`, each from its own table.
pub fn resample_each(v: &mut Vec<u8>, rng: &mut Xorshift32, tables: &Vec<Vec<u32>>, top: u8)
    ensures
        final(v)@ == resampled_each(
            old(v)@.len(),
            old(rng)@,
            Seq::new(tables@.len(), |k: int| tables@[k]@),
            top,
        ),
        final(rng)@ == stream(old(rng)@, old(v)@.len()),
        forall|i: int| 0 <= i < final(v)@.len() ==> #[trigger] final(v)@[i] <= top,
{
    let ghost g0 = rng@;
    let ghost deep = Seq::new(tables@.len(), |k: int| tables@[k]@);
    let n: usize = v.len();
    let none: Vec<u32> = Vec::new();
    let mut i: usize = 0;
    while i < n
        invariant
            i <= n,
            v@.len() == n,
            none@.len() == 0,
            deep == Seq::new(tables@.len(), |k: int| tables@[k]@),
            rng@ == stream(g0, i as nat),
            forall|j: int| 0 <= j < i ==> #[trigger] v@[j] == resampled_each(n as nat, g0, deep, top)[j],
            forall|j: int| 0 <= j < i ==> #[trigger] v@[j] <= top,
        decreases n - i,
    {
        let u: u32 = rng.next_unit();
        let idx: usize = if i < tables.len() {
            sample_index(&tables[i], u, top as usize)
        } else {
            sample_index(&none, u, top as usize)
        };
        assert(table_at(deep, i as int) =~= (if i < tables@.len() { tables@[i as int]@ } else { none@ }));
        v[i] = idx as u8;
        i = i + 1;
    }
    assert(v@ =~= resampled_each(n as nat, g0, deep, top));
}

/// Resamples every entry of `v` from one table.
pub fn resample_u16(v: &mut Vec<u16>, rng: &mut Xorshift32, cuts: &Vec<u32>, top: u16)
    ensures
        final(v)@ == resampled_u16(old(v)@.len(), old(rng)@, cuts@, top),
        final(rng)@ == stream(old(rng)@, old(v)@.len()),
        forall|i: int| 0 <= i < final(v)@.len() ==> #[trigger] final(v)@[i] <= top,
{
    let ghost g0 = rng@;
    let n: usize = v.len();
    let mut i: usize = 0;
    while i < n
        invariant
            i <= n,
            v@.len() == n,
            rng@ == stream(g0, i as nat),
            forall|j: int| 0 <= j < i ==> #[trigger] v@[j] == resampled_u16(n as nat, g0, cuts@, top)[j],
            forall|j: int| 0 <= j < i ==> #[trigger] v@[j] <= top,
        decreases n - i,
    {
        let u: u32 = rng.next_unit();
        let idx: usize = sample_index(cuts, u, top as usize);
        v[i] = idx as u16;
        i = i + 1;
    }
    assert(v@ =~= resampled_u16(n as nat, g0, cuts@, top));
}

/// Resamples every entry of `v` within `-l ..= l` from one table.
pub fn resample_i16(v: &mut Vec<i16>, rng: &mut Xorshift32, cuts: &Vec<u32>, l: i16)
    requires
        l >= 1,
    ensures
        final(v)@ == resampled_i16(old(v)@.len(), old(rng)@, cuts@, l),
        final(rng)@ == stream(old(rng)@, old(v)@.len()),
        forall|i: int| 0 <= i < final(v)@.len() ==> -l <= #[trigger] final(v)@[i] <= l,
{
    let ghost g0 = rng@;
    let n: usize = v.len();
    let mut i: usize = 0;
    while i < n
        invariant
            i <= n,
            l >= 1,
            v@.len() == n,
            rng@ == stream(g0, i as nat),
            forall|j: int| 0 <= j < i ==> #[trigger] v@[j] == resampled_i16(n as nat, g0, cuts@, l)[j],
            forall|j: int| 0 <= j < i ==> -l <= #[trigger] v@[j] <= l,
        decreases n - i,
    {
        let u: u32 = rng.next_unit();
        let idx: usize = sample_index(cuts, u, 2 * (l as usize));
        v[i] = (idx as i32 - l as i32) as i16;
        i = i + 1;
    }
    assert(v@ =~= resampled_i16(n as nat, g0, cuts@, l));
}

/// Brings every entry of `v` down to `top`.
pub fn clamp_u8(v: &mut Vec<u8>, top: u8)
    ensures
        final(v)@ == clamped_u8(old(v)@, top),
        forall|i: int| 0 <= i < final(v)@.len() ==> #[trigger] final(v)@[i] <= top,
{
    let ghost before = v@;
    let n: usize = v.len();
    let mut i: usize = 0;
    while i < n
        invariant
            i <= n,
            v@.len() == n,
            before.len() == n,
            forall|j: int| 0 <= j < i ==> #[trigger] v@[j] == clamped_u8(before, top)[j],
            forall|j: int| i <= j < n ==> #[trigger] v@[j] == before[j],
        decreases n - i,
    {
        if v[i] > top {
            v[i] = top;
        }
        i = i + 1;
    }
    assert(v@ =~= clamped_u8(before, top));
}

/// Brings every entry of `v` down to `top`.
pub fn clamp_u16(v: &mut Vec<u16>, top: u16)
    ensures
        final(v)@ == clamped_u16(old(v)@, top),
        forall|i: int| 0 <= i < final(v)@.len() ==> #[trigger] final(v)@[i] <= top,
{
    let ghost before = v@;
    let n: usize = v.len();
    let mut i: usize = 0;
    while i < n
        invariant
            i <= n,
            v@.len() == n,
            before.len() == n,
            forall|j: int| 0 <= j < i ==> #[trigger] v@[j] == clamped_u16(before, top)[j],
            forall|j: int| i <= j < n ==> #[trigger] v@[j] == before[j],
        decreases n - i,
    {
        if v[i] > top {
            v[i] = top;
        }
        i = i + 1;
    }
    assert(v@ =~= clamped_u16(before, top));
}

/// Brings every entry of `v` into `-l ..= l`.
pub fn clamp_i16(v: &mut Vec<i16>, l: i16)
    requires
        l >= 1,
    ensures
        final(v)@ == clamped_i16(old(v)@, l),
        forall|i: int| 0 <= i < final(v)@.len() ==> -l <= #[trigger] final(v)@[i] <= l,
{
    let ghost before = v@;
    let n: usize = v.len();
    let mut i: usize = 0;
    while i < n
        invariant
            i <= n,
            l >= 1,
            v@.len() == n,
            before.len() == n,
            forall|j: int| 0 <= j < i ==> #[trigger] v@[j] == clamped_i16(before, l)[j],
            forall|j: int| i <= j < n ==> #[trigger] v@[j] == before[j],
        decreases n - i,
    {
        if v[i] > l {
            v[i] = l;
        } else if v[i] < -l {
            v[i] = -l;
        }
        i = i + 1;
    }
    assert(v@ =~= clamped_i16(before, l));
}

/// Sums the entries of `v`.
pub fn sum_of(v: &Vec<u8>) -> (s: i64)
    requires
        v@.len() <= u32::MAX,
    ensures
        s == total(v@),
{
    let n: usize = v.len();
    let mut s: i64 = 0;
    let mut i: usize = 0;
    while i < n
        invariant
            i <= n,
            n == v@.len(),
            n <= u32::MAX,
            s == total(v@.subrange(0, i as int)),
            0 <= s <= 255 * i,
        decreases n - i,
    {
        proof {
            lemma_total_prefix(v@, i as int);
        }
        s = s + v[i] as i64;
        i = i + 1;
    }
    assert(v@.subrange(0, n as int) =~= v@);
    s
}

/// Lays out a fresh prediction kernel of `count` cells.
pub fn spread_budget(count: usize, r_count: usize, budget: u8) -> (v: Vec<u8>)
    requires
        0 < r_count <= 8,
        count * r_count <= usize::MAX,
    ensures
        v@ == fresh_budget((count * r_count) as nat, r_count as int, budget),
        forall|c: int| 0 <= c < count ==> #[trigger] cell_budget(v@, c, r_count as int) == budget,
{
    let base: u8 = budget / (r_count as u8);
    let rem: usize = (budget % (r_count as u8)) as usize;
    let slots: usize = count * r_count;
    let mut v: Vec<u8> = Vec::with_capacity(slots);
    let mut i: usize = 0;
    let mut r: usize = 0;
    proof {
        lemma_fundamental_div_mod(budget as int, r_count as int);
        lemma_mod_bound(budget as int, r_count as int);
        assert(base as int + 1 <= 255 || rem == 0) by (nonlinear_arith)
            requires
                budget as int == r_count as int * base as int + rem as int,
                0 <= rem,
                1 <= r_count,
                budget <= 255,
                base as int == budget as int / r_count as int,
        ;
    }
    while i < slots
        invariant
            i <= slots,
            0 < r_count <= 8,
            r < r_count,
            r == i as int % r_count as int,
            v@.len() == i,
            base as int == budget as int / r_count as int,
            rem as int == budget as int % r_count as int,
            base as int + 1 <= 255 || rem == 0,
            forall|j: int| 0 <= j < i ==> #[trigger] v@[j] == fresh_budget(slots as nat, r_count as int, budget)[j],
        decreases slots - i,
    {
        let val: u8 = if r < rem {
            base + 1
        } else {
            base
        };
        v.push(val);
        proof {
            let q: int = i as int / r_count as int;
            lemma_fundamental_div_mod(i as int, r_count as int);
            if r + 1 == r_count {
                assert(i + 1 == (q + 1) * r_count + 0) by (nonlinear_arith)
                    requires
                        i as int == r_count as int * q + r as int,
                        r + 1 == r_count,
                ;
                lemma_fundamental_div_mod_converse(i as int + 1, r_count as int, q + 1, 0);
            } else {
                assert(i + 1 == q * r_count + (r + 1)) by (nonlinear_arith)
                    requires
                        i as int == r_count as int * q + r as int,
                ;
                lemma_fundamental_div_mod_converse(i as int + 1, r_count as int, q, r as int + 1);
            }
        }
        i = i + 1;
        r = if r + 1 == r_count {
            0
        } else {
            r + 1
        };
    }
    proof {
        assert(v@ =~= fresh_budget(slots as nat, r_count as int, budget));
        lemma_fresh_budget(count as int, r_count as int, budget);
    }
    v
}

} // verus!
