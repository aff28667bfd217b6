//! Read access to the state.

use vstd::prelude::*;
use crate::grid::{stencil_dx, stencil_dy, stencil_offset};
use crate::index::{lemma_pair_index_injective, pair_index};
use crate::params::{lemma_cells_bound, Params};
use crate::state::{Clock, DiagTotals, Phase, Record, Sim, MOVE_KIND_COUNT};
use crate::sums::{histogram, tally, total_u32};

verus! {

/// The pair stored at `index`.
pub open spec fn pair_at(n: int, index: int) -> (int, int) {
    choose|i: int, j: int| 0 <= i < j < n && pair_index(n, i, j) == index
}

/// The pairs among the first `k` whose weight is at least `threshold`, each
/// as its two particle indices, in pair order.
pub open spec fn bonded(w: Seq<u8>, n: int, threshold: u8, k: nat) -> Seq<u32>
    decreases k,
{
    if k == 0 {
        Seq::empty()
    } else {
        let before = bonded(w, n, threshold, (k - 1) as nat);
        if w[k - 1] >= threshold {
            before.push(pair_at(n, k - 1).0 as u32).push(pair_at(n, k - 1).1 as u32)
        } else {
            before
        }
    }
}

/// The log as a flat list of words: step, subject and tags of each record.
pub open spec fn log_words(log: Seq<Record>) -> Seq<u32> {
    Seq::new(
        3 * log.len(),
        |i: int| if i % 3 == 0 {
            log[i / 3].step
        } else if i % 3 == 1 {
            log[i / 3].subject
        } else {
            log[i / 3].tags
        },
    )
}

/// The integer part of the diagnostics: counts, cycle length, histograms.
pub struct Diagnostics {
    pub totals: DiagTotals,
    pub p3_cycle_len: u8,
    pub w_hist: Vec<u32>,
    pub s_hist: Vec<u32>,
}

impl Sim {
    /// Number of particles.
    pub fn n(&self) -> (n: usize)
        ensures
            n == self@.n,
    {
        self.n
    }

    /// The configuration.
    pub fn params(&self) -> (p: Params)
        ensures
            p == self@.params,
    {
        self.params
    }

    /// The request that is open, if any.
    pub fn pending(&self) -> (p: Phase)
        ensures
            p == self@.pending,
    {
        self.pending
    }

    /// Steps begun so far, modulo 2^32.
    pub fn step_count(&self) -> (c: u32)
        ensures
            c == self@.step_count,
    {
        self.step_count
    }

    /// State of the generator.
    pub fn rng_state(&self) -> (s: u32)
        ensures
            s == self@.rng,
    {
        self.rng.state()
    }

    /// Bond weights in pair order.
    pub fn weights(&self) -> (v: &Vec<u8>)
        ensures
            v@ == self@.w,
    {
        &self.w
    }

    /// The counters, one per particle.
    pub fn counters(&self) -> (v: &Vec<i16>)
        ensures
            v@ == self@.counters,
    {
        &self.n_counter
    }

    /// The apparatus values, one per particle.
    pub fn apparatus(&self) -> (v: &Vec<u16>)
        ensures
            v@ == self@.apparatus,
    {
        &self.a_counter
    }

    /// The base field, row by row.
    pub fn field(&self) -> (v: &Vec<u8>)
        ensures
            v@ == self@.field,
    {
        &self.s_field
    }

    /// The base field, row by row.
    pub fn base_s_field(&self) -> (v: &Vec<u8>)
        ensures
            v@ == self@.field,
    {
        &self.s_field
    }

    /// Layers of the meta tower.
    pub fn meta_layers(&self) -> (l: u16)
        ensures
            l == self@.params.meta_layers,
    {
        self.params.meta_layers
    }

    /// The field of the meta tower, layer by layer; empty without a tower.
    pub fn meta_field(&self) -> (v: &Vec<u8>)
        ensures
            v@ == self@.meta_field,
    {
        &self.meta_field
    }

    /// The counters of the meta tower, layer by layer.
    pub fn meta_n_field(&self) -> (v: &Vec<i16>)
        ensures
            v@ == self@.meta_counters,
    {
        &self.meta_n_field
    }

    /// The apparatus values of the meta tower, layer by layer.
    pub fn meta_a_field(&self) -> (v: &Vec<u16>)
        ensures
            v@ == self@.meta_apparatus,
    {
        &self.meta_a_field
    }

    /// The bond weights of the meta tower, layer by layer: per layer the
    /// horizontal edges of all cells, then the vertical ones.
    pub fn meta_w_edges(&self) -> (v: &Vec<u8>)
        ensures
            v@ == self@.meta_bonds,
    {
        &self.meta_w_edges
    }

    /// Bond slots of one meta layer.
    pub fn meta_edge_count(&self) -> (c: u32)
        requires
            self@.params.wf(),
        ensures
            c == 2 * self@.cells(),
    {
        proof {
            lemma_cells_bound(self.params);
        }
        let g: u32 = self.params.grid_size as u32;
        2 * (g * g)
    }

    /// Directions of the stencil in use.
    pub fn op_r_count(&self) -> (c: u32)
        ensures
            c == self@.r_count(),
    {
        self.r_count() as u32
    }

    /// The stencil in use as a flat list: `dx` and `dy` of each direction.
    pub fn op_offsets(&self) -> (v: Vec<i8>)
        ensures
            v@.len() == 2 * self@.r_count(),
            forall|r: int|
                0 <= r < self@.r_count() ==> #[trigger] v@[2 * r] == stencil_dx(r) && v@[2 * r + 1]
                    == stencil_dy(r),
    {
        let rc: usize = self.r_count();
        let mut v: Vec<i8> = Vec::new();
        let mut r: usize = 0;
        while r < rc
            invariant
                r <= rc <= 8,
                v@.len() == 2 * r,
                forall|k: int|
                    0 <= k < r ==> #[trigger] v@[2 * k] == stencil_dx(k) && v@[2 * k + 1]
                        == stencil_dy(k),
            decreases rc - r,
        {
            let d: (i32, i32) = stencil_offset(r);
            v.push(d.0 as i8);
            v.push(d.1 as i8);
            r = r + 1;
        }
        v
    }

    /// The weights of the prediction kernel; empty where there is none.
    pub fn op_k_tokens(&self) -> (v: &Vec<u8>)
        ensures
            v@ == self@.budget,
    {
        &self.op_k
    }

    /// The budget every cell spreads over its directions.
    pub fn op_budget_k(&self) -> (k: u32)
        ensures
            k == self@.params.op_budget_k,
    {
        self.params.op_budget_k as u32
    }

    /// Interfaces of the prediction kernel: one per meta layer.
    pub fn op_interfaces(&self) -> (c: u32)
        ensures
            c == self@.params.meta_layers,
    {
        self.params.meta_layers as u32
    }

    /// The stencil in use: 0 for the cross, 1 for the full square.
    pub fn op_stencil_id(&self) -> (s: u32)
        ensures
            s == self@.params.op_stencil,
    {
        self.params.op_stencil as u32
    }

    /// The names of the move kinds, by kind.
    pub fn ep_move_labels(&self) -> (v: Vec<&'static str>)
        ensures
            v@.len() == MOVE_KIND_COUNT,
            v@[0]@ == "X"@,
            v@[1]@ == "P1Base"@,
            v@[2]@ == "P1Meta"@,
            v@[3]@ == "P2Base"@,
            v@[4]@ == "P2Meta"@,
            v@[5]@ == "P4Base"@,
            v@[6]@ == "P4Meta"@,
            v@[7]@ == "P5Base"@,
            v@[8]@ == "P5Meta"@,
            v@[9]@ == "OpK"@,
            v@[10]@ == "Clock"@,
    {
        let mut v: Vec<&'static str> = Vec::new();
        v.push("X");
        v.push("P1Base");
        v.push("P1Meta");
        v.push("P2Base");
        v.push("P2Meta");
        v.push("P4Base");
        v.push("P4Meta");
        v.push("P5Base");
        v.push("P5Meta");
        v.push("OpK");
        v.push("Clock");
        v
    }

    /// Records in the log.
    pub fn accept_log_len(&self) -> (c: u32)
        requires
            self@.wf(),
        ensures
            c == self@.log.len(),
    {
        self.accept_log.len() as u32
    }

    /// The records of the log.
    pub fn accept_log(&self) -> (v: &Vec<Record>)
        ensures
            v@ == self@.log,
    {
        &self.accept_log
    }

    /// Step, subject and tags of every record, flattened.
    pub fn accept_log_u32(&self) -> (v: Vec<u32>)
        ensures
            v@ == log_words(self@.log),
    {
        let n: usize = self.accept_log.len();
        let mut v: Vec<u32> = Vec::new();
        let mut i: usize = 0;
        while i < n
            invariant
                i <= n,
                n == self.accept_log@.len(),
                v@.len() == 3 * i,
                forall|k: int| 0 <= k < 3 * i ==> #[trigger] v@[k] == log_words(self.accept_log@)[k],
            decreases n - i,
        {
            let rec: Record = self.accept_log[i];
            v.push(rec.step);
            v.push(rec.subject);
            v.push(rec.tags);
            i = i + 1;
        }
        assert(v@ =~= log_words(self.accept_log@));
        v
    }

    /// The entropy of every record, as the bit pattern it was given in.
    pub fn accept_log_ep(&self) -> (v: Vec<u64>)
        ensures
            v@.len() == self@.log.len(),
            forall|i: int| 0 <= i < v@.len() ==> #[trigger] v@[i] == self@.log[i].ep_bits,
    {
        let n: usize = self.accept_log.len();
        let mut v: Vec<u64> = Vec::new();
        let mut i: usize = 0;
        while i < n
            invariant
                i <= n,
                n == self.accept_log@.len(),
                v@.len() == i,
                forall|k: int| 0 <= k < i ==> #[trigger] v@[k] == self.accept_log@[k].ep_bits,
            decreases n - i,
        {
            v.push(self.accept_log[i].ep_bits);
            i = i + 1;
        }
        v
    }

    /// Whether a record was dropped since the log was last cleared.
    pub fn accept_log_overflowed(&self) -> (b: bool)
        ensures
            b == self@.log_overflowed,
    {
        self.accept_log_overflowed
    }

    /// Empties the log and lowers the overflow flag.
    pub fn accept_log_clear(&mut self)
        requires
            old(self)@.wf(),
        ensures
            final(self)@ == (crate::state::SimView {
                log: Seq::empty(),
                log_overflowed: false,
                ..old(self)@
            }),
            final(self)@.wf(),
    {
        self.accept_log = Vec::new();
        self.accept_log_overflowed = false;
    }

    /// The clock.
    pub fn clock(&self) -> (c: Clock)
        ensures
            c == self@.clock,
    {
        self.clock
    }

    /// State of the clock on its ring.
    pub fn clock_state(&self) -> (s: u32)
        ensures
            s == self@.clock.state,
    {
        self.clock.state as u32
    }

    /// Net ticks of the clock: forward minus backward.
    pub fn clock_q(&self) -> (q: i64)
        ensures
            q == self@.clock.net,
    {
        self.clock.net
    }

    /// Forward ticks of the clock.
    pub fn clock_fwd(&self) -> (c: u64)
        ensures
            c == self@.clock.fwd,
    {
        self.clock.fwd
    }

    /// Backward ticks of the clock.
    pub fn clock_bwd(&self) -> (c: u64)
        ensures
            c == self@.clock.bwd,
    {
        self.clock.bwd
    }

    /// Place in the protocol cycle.
    pub fn phase(&self) -> (p: u8)
        ensures
            p == self@.phase,
    {
        self.phase
    }

    /// Length of the protocol cycle in progress; 0 before its first step.
    pub fn p3_cycle_len(&self) -> (l: u8)
        ensures
            l == self@.cycle_len,
    {
        self.p3_cycle_len
    }

    /// The bond sum and the field sum recorded at each place of the cycle.
    pub fn p3_observables(&self) -> (o: (&Vec<i64>, &Vec<i64>))
        ensures
            o.0@ == self@.obs_w,
            o.1@ == self@.obs_s,
    {
        (&self.p3_obs1, &self.p3_obs2)
    }

    /// The running sums of the bond weights and of the base field.
    pub fn sums(&self) -> (s: (i64, i64))
        ensures
            s.0 == self@.sum_w,
            s.1 == self@.sum_s,
    {
        (self.sum_w, self.sum_s)
    }

    /// The counts of accepted moves.
    pub fn diag_totals(&self) -> (d: DiagTotals)
        ensures
            d == self@.diag,
    {
        self.diag
    }

    /// How many bond weights hold each value `0 ..= l_w`.
    pub fn w_histogram(&self) -> (h: Vec<u32>)
        requires
            self@.wf(),
        ensures
            h@.len() == self@.params.l_w + 1,
            forall|b: int|
                0 <= b <= self@.params.l_w ==> #[trigger] h@[b] == tally(
                    self@.w,
                    b,
                    self@.params.l_w as int,
                ),
            total_u32(h@) == self@.w.len(),
    {
        histogram(&self.w, self.params.l_w)
    }

    /// How many cells of the base field hold each value `0 ..= l_s`.
    pub fn s_histogram(&self) -> (h: Vec<u32>)
        requires
            self@.wf(),
        ensures
            h@.len() == self@.params.l_s + 1,
            forall|b: int|
                0 <= b <= self@.params.l_s ==> #[trigger] h@[b] == tally(
                    self@.field,
                    b,
                    self@.params.l_s as int,
                ),
            total_u32(h@) == self@.field.len(),
    {
        proof {
            lemma_cells_bound(self.params);
        }
        histogram(&self.s_field, self.params.l_s)
    }

    /// Counts, cycle length and both histograms in one bundle.
    pub fn diagnostics(&self) -> (d: Diagnostics)
        requires
            self@.wf(),
        ensures
            d.totals == self@.diag,
            d.p3_cycle_len == self@.cycle_len,
            d.w_hist@.len() == self@.params.l_w + 1,
            forall|b: int|
                0 <= b <= self@.params.l_w ==> #[trigger] d.w_hist@[b] == tally(
                    self@.w,
                    b,
                    self@.params.l_w as int,
                ),
            total_u32(d.w_hist@) == self@.w.len(),
            d.s_hist@.len() == self@.params.l_s + 1,
            forall|b: int|
                0 <= b <= self@.params.l_s ==> #[trigger] d.s_hist@[b] == tally(
                    self@.field,
                    b,
                    self@.params.l_s as int,
                ),
            total_u32(d.s_hist@) == self@.field.len(),
    {
        Diagnostics {
            totals: self.diag,
            p3_cycle_len: self.p3_cycle_len,
            w_hist: self.w_histogram(),
            s_hist: self.s_histogram(),
        }
    }

    /// The bonded pairs: every pair whose weight is at least `threshold`, as
    /// its two particle indices, in pair order.
    pub fn bonds(&self, threshold: u8) -> (out: Vec<u32>)
        requires
            self@.wf(),
        ensures
            out@ == bonded(self@.w, self@.n as int, threshold, self@.w.len()),
    {
        let n: usize = self.n;
        let m: usize = self.w.len();
        let mut out: Vec<u32> = Vec::new();
        let mut i: usize = 0;
        let mut j: usize = 1;
        let mut idx: usize = 0;
        proof {
            crate::index::lemma_pair_count_bound(n as int);
            crate::index::lemma_row_start_monotone(n as int, 0, n as int);
            if m > 0 {
                assert(n >= 2) by (nonlinear_arith)
                    requires
                        n * (n - 1) / 2 > 0,
                        n >= 0,
                ;
            }
        }
        while idx < m
            invariant
                idx <= m,
                m == self.w@.len(),
                m == crate::index::pair_count(n as int),
                n <= 92_682,
                idx < m ==> i < j < n && pair_index(n as int, i as int, j as int) == idx,
                out@ == bonded(self.w@, n as int, threshold, idx as nat),
            decreases m - idx,
        {
            proof {
                let (ci, cj) = pair_at(n as int, idx as int);
                lemma_pair_index_injective(n as int, ci, cj, i as int, j as int);
            }
            if self.w[idx] >= threshold {
                out.push(i as u32);
                out.push(j as u32);
            }
            proof {
                crate::index::lemma_row_step(n as int, i as int);
                crate::index::lemma_pair_index_range(n as int, i as int, j as int);
                crate::index::lemma_row_start_monotone(n as int, i as int + 1, n as int);
                crate::index::lemma_row_step(n as int, i as int + 1);
                crate::index::lemma_row_start_monotone(n as int, 0, n as int);
            }
            idx = idx + 1;
            if j + 1 < n {
                j = j + 1;
            } else if i + 2 < n {
                i = i + 1;
                j = i + 1;
            }
        }
        out
    }
}

} // verus!
