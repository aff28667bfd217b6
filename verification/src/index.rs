//! Index arithmetic: the triangular layout of unordered pairs, the layered
//! grid, and the stencil of the prediction kernel.

use vstd::prelude::*;

verus! {

/// Number of unordered pairs among `n` items.
pub open spec fn pair_count(n: int) -> int {
    n * (n - 1) / 2
}

/// Index of the first pair of row `i`: the pairs `(i, i + 1) .. (i, n - 1)`
/// follow those of all earlier rows.
pub open spec fn row_start(n: int, i: int) -> int {
    i * (2 * n - i - 1) / 2
}

/// Position of the pair `(i, j)`, `i < j`, in row-major upper-triangular order.
pub open spec fn pair_index(n: int, i: int, j: int) -> int {
    row_start(n, i) + (j - i - 1)
}

/// Row `i` holds `n - i - 1` pairs.
pub proof fn lemma_row_step(n: int, i: int)
    ensures
        row_start(n, i + 1) == row_start(n, i) + (n - i - 1),
{
    let a: int = i * (2 * n - i - 1);
    let b: int = n - i - 1;
    assert((i + 1) * (2 * n - (i + 1) - 1) == a + 2 * b) by (nonlinear_arith)
        requires
            a == i * (2 * n - i - 1),
            b == n - i - 1,
    ;
    assert((a + 2 * b) / 2 == a / 2 + b);
}

/// Row starts grow with the row, from 0 up to the pair count at row `n`.
pub proof fn lemma_row_start_monotone(n: int, i: int, k: int)
    requires
        0 <= i <= k <= n,
    ensures
        row_start(n, i) <= row_start(n, k),
        row_start(n, 0) == 0,
        row_start(n, n) == pair_count(n),
    decreases k - i,
{
    assert(row_start(n, 0) == 0) by (nonlinear_arith);
    assert(row_start(n, n) == pair_count(n)) by (nonlinear_arith);
    if i < k {
        lemma_row_step(n, k - 1);
        lemma_row_start_monotone(n, i, k - 1);
    }
}

/// A pair count that fits 32 bits bounds the item count.
pub proof fn lemma_pair_count_bound(n: int)
    requires
        0 <= n,
        pair_count(n) <= u32::MAX,
    ensures
        n <= 92_682,
{
    assert(n <= 92_682) by (nonlinear_arith)
        requires
            0 <= n,
            n * (n - 1) / 2 <= 0xffff_ffff,
    ;
}

/// The pair index lands inside its own row, hence inside the pair range.
pub proof fn lemma_pair_index_range(n: int, i: int, j: int)
    requires
        0 <= i < j < n,
    ensures
        row_start(n, i) <= pair_index(n, i, j) < row_start(n, i + 1),
        0 <= pair_index(n, i, j) < pair_count(n),
{
    lemma_row_step(n, i);
    lemma_row_start_monotone(n, 0, i);
    lemma_row_start_monotone(n, i + 1, n);
}

/// Distinct pairs have distinct indices.
pub proof fn lemma_pair_index_injective(n: int, i: int, j: int, k: int, l: int)
    requires
        0 <= i < j < n,
        0 <= k < l < n,
        pair_index(n, i, j) == pair_index(n, k, l),
    ensures
        i == k,
        j == l,
{
    lemma_pair_index_range(n, i, j);
    lemma_pair_index_range(n, k, l);
    if i < k {
        lemma_row_start_monotone(n, i + 1, k);
    } else if k < i {
        lemma_row_start_monotone(n, k + 1, i);
    }
}

/// The row that holds `idx`, searched upward from row `i`.
proof fn lemma_row_of(n: int, idx: int, i: int) -> (r: int)
    requires
        0 <= i < n,
        row_start(n, i) <= idx < pair_count(n),
    ensures
        i <= r < n,
        row_start(n, r) <= idx < row_start(n, r + 1),
    decreases n - i,
{
    lemma_row_start_monotone(n, 0, n);
    if idx < row_start(n, i + 1) {
        i
    } else {
        lemma_row_of(n, idx, i + 1)
    }
}

/// Every index below the pair count is the index of some pair.
pub proof fn lemma_pair_index_surjective(n: int, idx: int) -> (p: (int, int))
    requires
        0 <= idx < pair_count(n),
        0 <= n,
    ensures
        0 <= p.0 < p.1 < n,
        pair_index(n, p.0, p.1) == idx,
{
    assert(n > 0) by (nonlinear_arith)
        requires
            0 <= n,
            0 < n * (n - 1) / 2,
    ;
    lemma_row_start_monotone(n, 0, n);
    let i: int = lemma_row_of(n, idx, 0);
    lemma_row_step(n, i);
    (i, i + 1 + (idx - row_start(n, i)))
}

/// Whether the pairs among `n` items can be counted in 32 bits.
pub fn pairs_fit(n: usize) -> (fit: bool)
    ensures
        fit == (pair_count(n as int) <= u32::MAX),
{
    proof {
        if n <= 92_682 {
            assert(n * (n - 1) / 2 <= 0xffff_ffff) by (nonlinear_arith)
                requires
                    0 <= n <= 92_682,
            ;
        } else {
            assert(n * (n - 1) / 2 > 0xffff_ffff) by (nonlinear_arith)
                requires
                    n >= 92_683,
            ;
        }
    }
    n <= 92_682
}

/// Computes the index of the pair `(i, j)`.
pub fn edge_index(n: usize, i: usize, j: usize) -> (idx: usize)
    requires
        i < j < n,
        pair_count(n as int) <= u32::MAX,
    ensures
        idx == pair_index(n as int, i as int, j as int),
        idx < pair_count(n as int),
{
    proof {
        lemma_pair_count_bound(n as int);
        lemma_pair_index_range(n as int, i as int, j as int);
        lemma_row_start_monotone(n as int, 0, i as int);
        lemma_row_start_monotone(n as int, i as int, n as int);
        assert(0 <= i * (2 * n - i - 1)) by (nonlinear_arith)
            requires
                0 <= i < n,
        ;
        assert(i * (2 * n - i - 1) / 2 <= u32::MAX);
    }
    let twice: u64 = i as u64 * (2 * (n as u64) - i as u64 - 1);
    let before: u64 = twice / 2;
    (before + (j as u64 - i as u64 - 1)) as usize
}

/// Recovers the pair that sits at `idx`.
pub fn pair_of(n: usize, idx: usize) -> (p: (usize, usize))
    requires
        idx < pair_count(n as int),
        pair_count(n as int) <= u32::MAX,
    ensures
        p.0 < p.1 < n,
        pair_index(n as int, p.0 as int, p.1 as int) == idx,
{
    proof {
        lemma_row_start_monotone(n as int, 0, n as int);
    }
    let mut i: usize = 0;
    let mut start: usize = 0;
    while idx - start >= n - i - 1
        invariant
            i < n,
            start == row_start(n as int, i as int),
            start <= idx < row_start(n as int, n as int),
            row_start(n as int, n as int) == pair_count(n as int),
            pair_count(n as int) <= u32::MAX,
        decreases n - i,
    {
        proof {
            lemma_row_step(n as int, i as int);
            if i + 1 >= n {
                assert(false);
            }
            lemma_row_start_monotone(n as int, i as int + 1, n as int);
        }
        start = start + (n - i - 1);
        i = i + 1;
    }
    proof {
        lemma_row_step(n as int, i as int);
    }
    (i, i + 1 + (idx - start))
}

/// Slots of one meta layer's bond array: a horizontal and a vertical edge per cell.
pub open spec fn edge_slots(grid: int) -> int {
    2 * grid * grid
}

/// Computes `edge_slots`, saturating at the machine limit.
pub fn meta_edge_count(grid: usize) -> (r: usize)
    ensures
        edge_slots(grid as int) <= usize::MAX ==> r == edge_slots(grid as int),
        edge_slots(grid as int) > usize::MAX ==> r == usize::MAX,
{
    proof {
        assert(2 * grid * grid == 2 * (grid * grid)) by (nonlinear_arith);
    }
    match grid.checked_mul(grid) {
        Some(cells) => match cells.checked_mul(2) {
            Some(slots) => slots,
            None => usize::MAX,
        },
        None => {
            proof {
                assert(2 * (grid * grid) > usize::MAX) by (nonlinear_arith)
                    requires
                        grid * grid > usize::MAX,
                ;
            }
            usize::MAX
        },
    }
}

} // verus!
