//! Perturbing the field: resampling or zeroing a fraction of the cells of a
//! region, driven by a stream of its own.

use vstd::prelude::*;
use crate::grid::{cell_quadrant, column_edge_bin, edge_bin, in_span, quadrant, span_covers};
use crate::params::lemma_cells_bound;
use crate::rng::{unit_of, xorshift, Xorshift32};
use crate::state::{Phase, Sim, SimView};
use crate::sums::total;

verus! {

/// Which field a perturbation acts on.
#[derive(Clone, Copy, Debug)]
pub enum Target {
    BaseField,
    /// The field of one meta layer.
    MetaField(u16),
}

/// What a perturbation does to a cell it picks.
#[derive(Clone, Copy, Debug)]
pub enum Mode {
    /// A fresh uniform value in `0 ..= l_s`.
    Randomize,
    Zero,
}

/// The cells a perturbation may pick from.
#[derive(Clone, Copy, Debug)]
pub enum Region {
    All,
    /// One quadrant; none given means quadrant 0, and any beyond 3 means 3.
    Quadrant(Option<u8>),
    /// A span of vertical bins. By default there are as many bins as the
    /// clock has states, and the span is the single bin 0.
    Stripe { bins: Option<u8>, span: Option<u8>, bin: Option<u8> },
}

/// A region resolved against a grid, with what to do inside.
#[derive(Clone, Copy, Debug)]
pub struct Sweeper {
    pub grid: usize,
    pub region: Region,
    pub clock_k: u8,
    pub cut: u32,
    pub zero: bool,
    pub top: u8,
}

/// A sweep in progress: the array, the stream, and whether any cell was written.
pub struct Sweep {
    pub cells: Seq<u8>,
    pub rng: u32,
    pub touched: bool,
}

impl Sweeper {
    /// Whether cell `q` lies in the region.
    pub open spec fn covers(self, q: int) -> bool {
        let g: int = self.grid as int;
        match self.region {
            Region::All => true,
            Region::Quadrant(given) => {
                let want: int = match given {
                    Some(v) => if v > 3 { 3int } else { v as int },
                    None => 0int,
                };
                quadrant(q, g) == want
            },
            Region::Stripe { bins, span, bin } => {
                let bins: int = match bins {
                    Some(v) => if v < 1 { 1int } else { v as int },
                    None => self.clock_k as int,
                };
                let span: int = match span {
                    Some(v) => if v < 1 { 1int } else { v as int },
                    None => 1int,
                };
                let bin: int = match bin {
                    Some(v) => v as int,
                    None => 0int,
                };
                in_span(edge_bin(q % g, g, bins), bin, span, bins)
            },
        }
    }

    /// Computes `covers`.
    pub fn covers_cell(&self, q: usize) -> (r: bool)
        requires
            0 < self.grid <= 256,
            self.clock_k >= 1,
        ensures
            r == self.covers(q as int),
    {
        match self.region {
            Region::All => true,
            Region::Quadrant(given) => {
                let want: u8 = match given {
                    Some(v) => if v > 3 { 3 } else { v },
                    None => 0,
                };
                cell_quadrant(q, self.grid) == want
            },
            Region::Stripe { bins, span, bin } => {
                let bins: u8 = match bins {
                    Some(v) => if v < 1 { 1 } else { v },
                    None => self.clock_k,
                };
                let span: u8 = match span {
                    Some(v) => if v < 1 { 1 } else { v },
                    None => 1,
                };
                let bin: u8 = match bin {
                    Some(v) => v,
                    None => 0,
                };
                let stripe: u8 = column_edge_bin(q % self.grid, self.grid, bins);
                span_covers(stripe, bin, span, bins)
            },
        }
    }
}

/// The sweep after the first `k` cells of the window that starts at `base`.
/// A cell outside the region costs nothing. A cell inside costs one draw and
/// is picked when the variate is below the cut; a picked cell is zeroed, or
/// costs one more draw for its new value.
pub open spec fn swept(s: Seq<u8>, seed: u32, k: nat, base: int, by: Sweeper) -> Sweep
    decreases k,
{
    if k == 0 {
        Sweep { cells: s, rng: seed, touched: false }
    } else {
        let before = swept(s, seed, (k - 1) as nat, base, by);
        let q: int = k - 1;
        if !by.covers(q) {
            before
        } else {
            let r1: u32 = xorshift(before.rng);
            let r2: u32 = xorshift(r1);
            if unit_of(r1) >= by.cut {
                Sweep { rng: r1, ..before }
            } else if by.zero {
                Sweep { cells: before.cells.update(base + q, 0u8), rng: r1, touched: true }
            } else {
                Sweep {
                    cells: before.cells.update(base + q, (r2 as int % (by.top + 1)) as u8),
                    rng: r2,
                    touched: true,
                }
            }
        }
    }
}

/// Sweeps the window of `cells` entries that starts at `base`.
pub fn sweep(v: &mut Vec<u8>, base: usize, cells: usize, seed: u32, by: &Sweeper) -> (touched: bool)
    requires
        base + cells <= old(v)@.len(),
        0 < by.grid <= 256,
        by.clock_k >= 1,
        forall|i: int| 0 <= i < old(v)@.len() ==> #[trigger] old(v)@[i] <= by.top,
    ensures
        final(v)@ == swept(old(v)@, seed, cells as nat, base as int, *by).cells,
        touched == swept(old(v)@, seed, cells as nat, base as int, *by).touched,
        final(v)@.len() == old(v)@.len(),
        forall|i: int| 0 <= i < final(v)@.len() ==> #[trigger] final(v)@[i] <= by.top,
{
    let ghost start = v@;
    let mut rng: Xorshift32 = Xorshift32::resume(seed);
    let mut touched: bool = false;
    let mut k: usize = 0;
    while k < cells
        invariant
            k <= cells,
            base + cells <= v.len(),
            v@.len() == start.len(),
            0 < by.grid <= 256,
            by.clock_k >= 1,
            forall|i: int| 0 <= i < v@.len() ==> #[trigger] v@[i] <= by.top,
            v@ == swept(start, seed, k as nat, base as int, *by).cells,
            rng@ == swept(start, seed, k as nat, base as int, *by).rng,
            touched == swept(start, seed, k as nat, base as int, *by).touched,
        decreases cells - k,
    {
        if by.covers_cell(k) {
            let u: u32 = rng.next_unit();
            if u < by.cut {
                if by.zero {
                    v[base + k] = 0;
                } else {
                    let val: usize = rng.below(by.top as usize + 1);
                    v[base + k] = val as u8;
                }
                touched = true;
            }
        }
        k = k + 1;
    }
    touched
}

impl SimView {
    /// What a perturbation does inside its region.
    pub open spec fn sweeper(self, mode: Mode, region: Region, cut: u32) -> Sweeper {
        Sweeper {
            grid: self.params.grid_size as usize,
            region,
            clock_k: self.params.clock_k,
            cut,
            zero: mode is Zero,
            top: self.params.l_s,
        }
    }

    /// The state after a perturbation. A cut of 0 picks no cell and changes
    /// nothing. Otherwise the sweep runs on a stream of its own, started at
    /// the given seed or, when none is given, at a draw from the engine's
    /// stream; an open request is dropped. A meta layer that does not exist is
    /// left alone.
    pub open spec fn perturbed(
        self,
        target: Target,
        mode: Mode,
        region: Region,
        cut: u32,
        seed: Option<u32>,
    ) -> SimView {
        if cut == 0 {
            self
        } else {
            let drawn: u32 = xorshift(self.rng);
            let s = match seed {
                Some(_) => SimView { pending: Phase::Idle, ..self },
                None => SimView { pending: Phase::Idle, rng: drawn, ..self },
            };
            let start: u32 = match seed {
                Some(v) => v,
                None => drawn,
            };
            let by = self.sweeper(mode, region, cut);
            match target {
                Target::BaseField => {
                    let field = swept(s.field, start, s.cells() as nat, 0, by).cells;
                    SimView { field, sum_s: total(field) as i64, ..s }
                },
                Target::MetaField(layer) => if layer >= s.params.meta_layers {
                    s
                } else {
                    SimView {
                        meta_field: swept(
                            s.meta_field,
                            start,
                            s.cells() as nat,
                            layer * s.cells(),
                            by,
                        ).cells,
                        ..s
                    }
                },
            }
        }
    }
}

impl Sim {
    /// Resamples or zeroes a fraction of the cells of a region of one field.
    /// `cut` stands for the fraction: a cell is picked when its variate is
    /// below it.
    pub fn apply_perturbation(
        &mut self,
        target: Target,
        mode: Mode,
        region: Region,
        cut: u32,
        seed: Option<u32>,
    )
        requires
            old(self)@.wf(),
        ensures
            final(self)@ == old(self)@.perturbed(target, mode, region, cut, seed),
            final(self)@.wf(),
    {
        if cut == 0 {
            return ;
        }
        proof {
            lemma_cells_bound(self.params);
        }
        self.pending = Phase::Idle;
        let start: u32 = match seed {
            Some(v) => v,
            None => self.rng.next_u32(),
        };
        let by = Sweeper {
            grid: self.params.grid_size as usize,
            region,
            clock_k: self.params.clock_k,
            cut,
            zero: match mode {
                Mode::Zero => true,
                Mode::Randomize => false,
            },
            top: self.params.l_s,
        };
        let cells: usize = self.cells();
        match target {
            Target::BaseField => {
                proof {
                    lemma_untouched(self.s_field@, start, cells as nat, 0, by);
                }
                let touched: bool = sweep(&mut self.s_field, 0, cells, start, &by);
                if touched {
                    self.recompute_sum_s();
                }
            },
            Target::MetaField(layer) => {
                if layer < self.params.meta_layers {
                    let base: usize = self.layer_base(layer as usize, cells);
                    let _ = sweep(&mut self.meta_field, base, cells, start, &by);
                }
            },
        }
    }
}

/// A sweep that wrote no cell left the array as it was.
pub proof fn lemma_untouched(s: Seq<u8>, seed: u32, k: nat, base: int, by: Sweeper)
    ensures
        !swept(s, seed, k, base, by).touched ==> swept(s, seed, k, base, by).cells == s,
    decreases k,
{
    if k > 0 {
        lemma_untouched(s, seed, (k - 1) as nat, base, by);
    }
}

} // verus!
