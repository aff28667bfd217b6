//! Sums and tallies over sequences of small integers, with the facts the
//! engine needs to keep running totals exact.

use vstd::prelude::*;

verus! {

/// Sum of the entries of `s`.
pub open spec fn total(s: Seq<u8>) -> int
    decreases s.len(),
{
    if s.len() == 0 {
        0
    } else {
        total(s.drop_last()) + s.last() as int
    }
}

/// Sum of the entries of `s`.
pub open spec fn total_u32(s: Seq<u32>) -> int
    decreases s.len(),
{
    if s.len() == 0 {
        0
    } else {
        total_u32(s.drop_last()) + s.last() as int
    }
}

/// The histogram bin of a value: itself, or the top bin if it lies beyond.
pub open spec fn bin_of(v: u8, top: int) -> int {
    if v as int > top {
        top
    } else {
        v as int
    }
}

/// Number of entries of `s` that fall into bin `b`.
pub open spec fn tally(s: Seq<u8>, b: int, top: int) -> int
    decreases s.len(),
{
    if s.len() == 0 {
        0
    } else {
        tally(s.drop_last(), b, top) + (if bin_of(s.last(), top) == b { 1int } else { 0 })
    }
}

/// Extending a prefix by one entry adds that entry.
pub proof fn lemma_total_prefix(s: Seq<u8>, k: int)
    requires
        0 <= k < s.len(),
    ensures
        total(s.subrange(0, k + 1)) == total(s.subrange(0, k)) + s[k],
{
    assert(s.subrange(0, k + 1).drop_last() =~= s.subrange(0, k));
}

/// Extending a prefix by one entry raises exactly one bin's tally.
pub proof fn lemma_tally_prefix(s: Seq<u8>, k: int, b: int, top: int)
    requires
        0 <= k < s.len(),
    ensures
        tally(s.subrange(0, k + 1), b, top) == tally(s.subrange(0, k), b, top) + (if bin_of(
            s[k],
            top,
        ) == b {
            1int
        } else {
            0
        }),
{
    assert(s.subrange(0, k + 1).drop_last() =~= s.subrange(0, k));
}

/// A sum lies between 0 and `bound` times the length.
pub proof fn lemma_total_bound(s: Seq<u8>, bound: int)
    requires
        forall|i: int| 0 <= i < s.len() ==> s[i] <= bound,
    ensures
        0 <= total(s) <= bound * s.len(),
    decreases s.len(),
{
    if s.len() > 0 {
        lemma_total_bound(s.drop_last(), bound);
        assert(bound * s.len() == bound * (s.len() - 1) + bound) by (nonlinear_arith);
    } else {
        assert(bound * 0 == 0);
    }
}

/// A sequence of zeros sums to zero.
pub proof fn lemma_total_zeros(s: Seq<u8>)
    requires
        forall|i: int| 0 <= i < s.len() ==> s[i] == 0,
    ensures
        total(s) == 0,
    decreases s.len(),
{
    if s.len() > 0 {
        lemma_total_zeros(s.drop_last());
    }
}

/// Replacing one entry shifts the sum by the difference.
pub proof fn lemma_total_update(s: Seq<u8>, i: int, v: u8)
    requires
        0 <= i < s.len(),
    ensures
        total(s.update(i, v)) == total(s) - s[i] + v,
    decreases s.len(),
{
    let t = s.update(i, v);
    if i == s.len() - 1 {
        assert(t.drop_last() =~= s.drop_last());
    } else {
        lemma_total_update(s.drop_last(), i, v);
        assert(t.drop_last() =~= s.drop_last().update(i, v));
    }
}

/// Two distinct entries together do not exceed the sum.
pub proof fn lemma_total_two(s: Seq<u8>, a: int, b: int)
    requires
        0 <= a < s.len(),
        0 <= b < s.len(),
        a != b,
    ensures
        s[a] + s[b] <= total(s),
{
    let z = s.update(a, 0u8).update(b, 0u8);
    lemma_total_update(s, a, 0u8);
    lemma_total_update(s.update(a, 0u8), b, 0u8);
    lemma_total_bound(z, 255);
}

/// Replacing one count shifts the sum by the difference.
pub proof fn lemma_total_u32_update(s: Seq<u32>, i: int, v: u32)
    requires
        0 <= i < s.len(),
    ensures
        total_u32(s.update(i, v)) == total_u32(s) - s[i] + v,
    decreases s.len(),
{
    let t = s.update(i, v);
    if i == s.len() - 1 {
        assert(t.drop_last() =~= s.drop_last());
    } else {
        lemma_total_u32_update(s.drop_last(), i, v);
        assert(t.drop_last() =~= s.drop_last().update(i, v));
    }
}

/// A sum of counts is not negative.
pub proof fn lemma_total_u32_nonneg(s: Seq<u32>)
    ensures
        0 <= total_u32(s),
    decreases s.len(),
{
    if s.len() > 0 {
        lemma_total_u32_nonneg(s.drop_last());
    }
}

/// No count exceeds the sum of all counts.
pub proof fn lemma_total_u32_ge(s: Seq<u32>, i: int)
    requires
        0 <= i < s.len(),
    ensures
        s[i] <= total_u32(s),
    decreases s.len(),
{
    lemma_total_u32_nonneg(s.drop_last());
    if i < s.len() - 1 {
        lemma_total_u32_ge(s.drop_last(), i);
    }
}

/// Counts of zero sum to zero.
pub proof fn lemma_total_u32_zeros(s: Seq<u32>)
    requires
        forall|i: int| 0 <= i < s.len() ==> s[i] == 0,
    ensures
        total_u32(s) == 0,
    decreases s.len(),
{
    if s.len() > 0 {
        lemma_total_u32_zeros(s.drop_last());
    }
}

/// Counts every entry of `v` in the bin of its value, values beyond `top`
/// in the top bin.
pub fn histogram(v: &Vec<u8>, top: u8) -> (h: Vec<u32>)
    requires
        v@.len() <= u32::MAX,
    ensures
        h@.len() == top + 1,
        forall|b: int| 0 <= b <= top ==> #[trigger] h@[b] == tally(v@, b, top as int),
        total_u32(h@) == v@.len(),
{
    let bins: usize = top as usize + 1;
    let mut h: Vec<u32> = vec![0u32; bins];
    let n: usize = v.len();
    let mut i: usize = 0;
    proof {
        lemma_total_u32_zeros(h@);
    }
    while i < n
        invariant
            i <= n,
            n == v@.len(),
            n <= u32::MAX,
            bins == top + 1,
            h@.len() == bins,
            total_u32(h@) == i,
            forall|b: int| 0 <= b <= top ==> #[trigger] h@[b] == tally(v@.subrange(0, i as int), b, top as int),
        decreases n - i,
    {
        let idx: usize = if v[i] as usize > bins - 1 {
            bins - 1
        } else {
            v[i] as usize
        };
        proof {
            lemma_total_u32_ge(h@, idx as int);
            lemma_total_u32_update(h@, idx as int, (h@[idx as int] + 1) as u32);
            assert forall|b: int| 0 <= b <= top implies tally(
                v@.subrange(0, i as int + 1),
                b,
                top as int,
            ) == tally(v@.subrange(0, i as int), b, top as int) + (if b == idx { 1int } else { 0 }) by {
                lemma_tally_prefix(v@, i as int, b, top as int);
            }
        }
        h[idx] = h[idx] + 1;
        i = i + 1;
    }
    assert(v@.subrange(0, n as int) =~= v@);
    h
}

} // verus!
