//! Geometry of the periodic grid: wrapped neighbours, the prediction stencil,
//! quadrants and vertical stripes, all in exact integer arithmetic.

use vstd::prelude::*;
use vstd::arithmetic::div_mod::lemma_fundamental_div_mod_converse;
use vstd::arithmetic::div_mod::lemma_fundamental_div_mod;
use vstd::arithmetic::div_mod::lemma_mod_bound;
use crate::single::{scaled_floor, single_floor};

verus! {

/// Largest stencil: the eight neighbours of a cell.
pub const STENCIL_MAX: usize = 8;

/// A coordinate folded back onto a ring of `g` sites.
pub open spec fn wrap(t: int, g: int) -> int {
    t % g
}

/// The cell reached from cell `q` by the offset `(dx, dy)` on a periodic
/// `g` by `g` grid stored row by row.
pub open spec fn neighbor(q: int, dx: int, dy: int, g: int) -> int {
    wrap(q / g + dy, g) * g + wrap(q % g + dx, g)
}

/// Number of directions of a stencil, one per neighbour: 4 for the cross,
/// 8 for the full square.
pub open spec fn stencil_len(stencil: u8) -> int {
    if stencil == 1 {
        8
    } else {
        4
    }
}

/// Horizontal component of direction `r`. The directions are right, left,
/// down, up, then the four corners; the cross is the first four.
pub open spec fn stencil_dx(r: int) -> int {
    if r == 0 || r == 4 || r == 6 {
        1
    } else if r == 1 || r == 5 || r == 7 {
        -1
    } else {
        0
    }
}

/// Vertical component of direction `r`.
pub open spec fn stencil_dy(r: int) -> int {
    if r == 2 || r == 4 || r == 5 {
        1
    } else if r == 3 || r == 6 || r == 7 {
        -1
    } else {
        0
    }
}

/// Position of the weight of direction `r` at cell `q` of interface `interface`.
pub open spec fn budget_slot(interface: int, q: int, r: int, cells: int, r_count: int) -> int {
    (interface * cells + q) * r_count + r
}

/// Whether a coordinate lies in the lower half of the grid: its cell centre
/// is left of (or above) the middle.
pub open spec fn low_half(c: int, g: int) -> bool {
    c < g / 2
}

/// Quadrant of a cell: bit 0 is set in the right half, bit 1 in the lower half.
pub open spec fn quadrant(q: int, g: int) -> int {
    (if low_half(q / g, g) { 0int } else { 2int }) + (if low_half(q % g, g) { 0int } else { 1int })
}

/// `v`, or `top` where `v` lies beyond it.
pub open spec fn capped(v: int, top: int) -> int {
    if v > top {
        top
    } else {
        v
    }
}

/// The vertical bin, out of `bins`, that holds the centre of column `c`,
/// placed at `(c + 1/2) / g` in single precision.
pub open spec fn center_bin(c: int, g: int, bins: int) -> int {
    capped(single_floor(2 * c + 1, 2 * g, bins), bins - 1)
}

/// The vertical bin, out of `bins`, that holds the left edge of column `c`,
/// placed at `c / g` in single precision.
pub open spec fn edge_bin(c: int, g: int, bins: int) -> int {
    capped(single_floor(c, g, bins), bins - 1)
}

/// Whether bin `idx` is one of the `span` consecutive bins that start at
/// `start` on a ring of `bins`; a span longer than the ring covers it all.
pub open spec fn in_span(idx: int, start: int, span: int, bins: int) -> bool {
    (idx + bins - start % bins) % bins < (if span < bins { span } else { bins })
}

/// Sign of `upper - lower` as 0 (below), 1 (equal) or 2 (above).
pub open spec fn mismatch_sign(upper: u8, lower: u8) -> u8 {
    if upper < lower {
        0
    } else if upper == lower {
        1
    } else {
        2
    }
}

/// The stencil holds one direction per neighbour: every direction leads to
/// one of the eight cells around a cell and never to the cell itself, the
/// four of the cross to the cells that share an edge with it, and no two
/// directions lead to the same cell.
pub proof fn lemma_stencil(stencil: u8)
    ensures
        stencil_len(stencil) == 4 || stencil_len(stencil) == 8,
        stencil_len(stencil) == 8 <==> stencil == 1,
        forall|r: int|
            0 <= r < stencil_len(stencil) ==> -1 <= #[trigger] stencil_dx(r) <= 1 && -1
                <= stencil_dy(r) <= 1 && !(stencil_dx(r) == 0 && stencil_dy(r) == 0),
        forall|r: int|
            0 <= r < 4 ==> (#[trigger] stencil_dx(r) == 0) != (stencil_dy(r) == 0),
        forall|r: int, q: int|
            0 <= r < q < 8 ==> !(#[trigger] stencil_dx(r) == #[trigger] stencil_dx(q)
                && stencil_dy(r) == stencil_dy(q)),
{
}

/// A remainder below twice the modulus is found by one subtraction at most.
proof fn lemma_mod_once(x: int, m: int)
    requires
        0 < m,
        0 <= x < 2 * m,
    ensures
        x % m == (if x < m { x } else { x - m }),
{
    if x < m {
        lemma_fundamental_div_mod_converse(x, m, 0, x);
    } else {
        lemma_fundamental_div_mod_converse(x, m, 1, x - m);
    }
}

/// A bin is in the span exactly when it is one of the first `span` bins
/// counted from `start` around the ring.
pub proof fn lemma_in_span(idx: int, start: int, span: int, bins: int)
    requires
        0 < bins,
        0 <= idx < bins,
        0 <= start,
        0 <= span,
    ensures
        in_span(idx, start, span, bins) <==> exists|i: int|
            0 <= i < span && i < bins && #[trigger] wrap(start % bins + i, bins) == idx,
{
    let s: int = start % bins;
    lemma_mod_bound(start, bins);
    let d: int = (idx + bins - s) % bins;
    lemma_mod_once(idx + bins - s, bins);
    let reach: int = if span < bins { span } else { bins };
    if in_span(idx, start, span, bins) {
        lemma_mod_once(s + d, bins);
        assert(0 <= d < span && d < bins && wrap(start % bins + d, bins) == idx);
    }
    if exists|i: int| 0 <= i < span && i < bins && #[trigger] wrap(start % bins + i, bins) == idx {
        let i: int = choose|i: int|
            0 <= i < span && i < bins && #[trigger] wrap(start % bins + i, bins) == idx;
        lemma_mod_once(s + i, bins);
        assert(d == i);
    }
}

/// A cell centre is in the lower half exactly when it lies before the middle.
pub proof fn lemma_low_half_center(c: int, g: int)
    requires
        0 <= c,
        0 < g,
    ensures
        low_half(c, g) <==> 2 * c + 1 < g,
{
}

/// A wrapped neighbour is a cell of the grid.
pub proof fn lemma_neighbor_range(q: int, dx: int, dy: int, g: int)
    requires
        0 < g,
    ensures
        0 <= neighbor(q, dx, dy, g) < g * g,
{
    let x: int = wrap(q % g + dx, g);
    let y: int = wrap(q / g + dy, g);
    lemma_mod_bound(q % g + dx, g);
    lemma_mod_bound(q / g + dy, g);
    assert(0 <= y * g + x < g * g) by (nonlinear_arith)
        requires
            0 <= x < g,
            0 <= y < g,
    ;
}

/// Folds `t` onto `0 .. g`.
pub fn wrap_coord(t: i64, g: i64) -> (r: i64)
    requires
        0 < g,
        -0x4000_0000_0000_0000 < t,
    ensures
        r == wrap(t as int, g as int),
        0 <= r < g,
{
    if t >= 0 {
        proof {
            lemma_mod_bound(t as int, g as int);
        }
        t % g
    } else {
        let a: i64 = -t;
        let m: i64 = a % g;
        proof {
            lemma_fundamental_div_mod(a as int, g as int);
            lemma_mod_bound(a as int, g as int);
            let k: int = a as int / g as int;
            if m == 0 {
                assert(t as int == (-k) * g + 0) by (nonlinear_arith)
                    requires
                        a as int == g as int * k + 0,
                        t as int == -(a as int),
                ;
                lemma_fundamental_div_mod_converse(t as int, g as int, -k, 0);
            } else {
                assert(t as int == (-k - 1) * g + (g - m)) by (nonlinear_arith)
                    requires
                        a as int == g as int * k + m as int,
                        t as int == -(a as int),
                ;
                lemma_fundamental_div_mod_converse(t as int, g as int, -k - 1, g as int - m as int);
            }
        }
        if m == 0 {
            0
        } else {
            g - m
        }
    }
}

/// Computes the wrapped neighbour of cell `q`.
pub fn offset_index(q: usize, dx: i32, dy: i32, g: usize) -> (r: usize)
    requires
        0 < g <= 0xffff,
        q < g * g,
    ensures
        r == neighbor(q as int, dx as int, dy as int, g as int),
        r < g * g,
{
    proof {
        lemma_neighbor_range(q as int, dx as int, dy as int, g as int);
        assert(g * g <= 0xffff * 0xffff) by (nonlinear_arith)
            requires
                0 < g <= 0xffff,
        ;
    }
    let x: i64 = (q % g) as i64;
    let y: i64 = (q / g) as i64;
    let nx: i64 = wrap_coord(x + dx as i64, g as i64);
    let ny: i64 = wrap_coord(y + dy as i64, g as i64);
    assert(ny * g + nx == neighbor(q as int, dx as int, dy as int, g as int));
    assert(0 <= ny * g) by (nonlinear_arith)
        requires
            0 <= ny,
            0 < g,
    ;
    (ny as u64 * g as u64 + nx as u64) as usize
}

/// Computes `stencil_len`.
pub fn op_r_count(stencil: u8) -> (r: usize)
    ensures
        r == stencil_len(stencil),
        2 <= r <= STENCIL_MAX,
{
    if stencil == 1 {
        8
    } else {
        4
    }
}

/// Computes the offset of direction `r`.
pub fn stencil_offset(r: usize) -> (d: (i32, i32))
    requires
        r < STENCIL_MAX,
    ensures
        d.0 == stencil_dx(r as int),
        d.1 == stencil_dy(r as int),
{
    let dx: i32 = if r == 0 || r == 4 || r == 6 {
        1
    } else if r == 1 || r == 5 || r == 7 {
        -1
    } else {
        0
    };
    let dy: i32 = if r == 2 || r == 4 || r == 5 {
        1
    } else if r == 3 || r == 6 || r == 7 {
        -1
    } else {
        0
    };
    (dx, dy)
}

/// Computes `budget_slot`.
pub fn op_k_index(interface: usize, q: usize, r_idx: usize, cells: usize, r_count: usize) -> (idx: usize)
    requires
        interface < 16,
        q < cells <= 0x1_0000,
        r_idx < r_count <= STENCIL_MAX,
    ensures
        idx == budget_slot(interface as int, q as int, r_idx as int, cells as int, r_count as int),
        idx < 16 * cells * r_count,
{
    assert(interface * cells + q < 16 * cells) by (nonlinear_arith)
        requires
            interface < 16,
            q < cells,
    ;
    assert((interface * cells + q) * r_count + r_idx < 16 * cells * r_count) by (nonlinear_arith)
        requires
            interface * cells + q < 16 * cells,
            r_idx < r_count,
    ;
    assert(16 * cells * r_count <= 16 * 0x1_0000 * 8) by (nonlinear_arith)
        requires
            cells <= 0x1_0000,
            r_count <= 8,
    ;
    (interface * cells + q) * r_count + r_idx
}

/// Computes `mismatch_sign`.
pub fn mismatch_bin(upper: u8, lower: u8) -> (r: u8)
    ensures
        r == mismatch_sign(upper, lower),
{
    if upper < lower {
        0
    } else if upper == lower {
        1
    } else {
        2
    }
}

/// Computes `quadrant`.
pub fn cell_quadrant(q: usize, g: usize) -> (r: u8)
    requires
        0 < g,
    ensures
        r == quadrant(q as int, g as int),
        r < 4,
{
    let qx: u8 = if q % g < g / 2 { 0 } else { 1 };
    let qy: u8 = if q / g < g / 2 { 0 } else { 2 };
    qy + qx
}

/// Computes `center_bin`.
pub fn column_center_bin(c: usize, g: usize, bins: u8) -> (r: u8)
    requires
        c < g <= 256,
        0 < bins,
    ensures
        r == center_bin(c as int, g as int, bins as int),
        r < bins,
{
    let raw: u64 = scaled_floor(2 * c as u64 + 1, 2 * g as u64, bins as u64);
    if raw > bins as u64 - 1 {
        bins - 1
    } else {
        raw as u8
    }
}

/// Computes `edge_bin`.
pub fn column_edge_bin(c: usize, g: usize, bins: u8) -> (r: u8)
    requires
        c < g <= 256,
        0 < bins,
    ensures
        r == edge_bin(c as int, g as int, bins as int),
        r < bins,
{
    let raw: u64 = scaled_floor(c as u64, g as u64, bins as u64);
    if raw > bins as u64 - 1 {
        bins - 1
    } else {
        raw as u8
    }
}

/// Computes `in_span`.
pub fn span_covers(idx: u8, start: u8, span: u8, bins: u8) -> (r: bool)
    requires
        0 < bins,
        idx < bins,
    ensures
        r == in_span(idx as int, start as int, span as int, bins as int),
{
    let s: u16 = (start % bins) as u16;
    let d: u16 = (idx as u16 + bins as u16 - s) % bins as u16;
    let reach: u16 = if span < bins { span as u16 } else { bins as u16 };
    d < reach
}

} // verus!
