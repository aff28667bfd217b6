//! The move kernels up to the point where each waits for its verdict.

use vstd::prelude::*;
use crate::engine::{schedule, stepped, strongest, Slot};
use crate::grid::{
    budget_slot, cell_quadrant, column_center_bin, mismatch_bin, op_k_index, op_r_count,
    span_covers,
};
use crate::params::TargetWeight;
use crate::rng::HALF;
use crate::state::{Phase, Proposal, Request, Sim};

verus! {

/// Computes `stepped`.
pub fn step_value(from: i32, up: bool, low: i32, top: i32) -> (r: Option<i32>)
    requires
        low <= from <= top,
    ensures
        r matches Some(to) ==> stepped(from as int, up, low as int, top as int) == Some(to as int)
            && low <= to <= top && (to == from + 1 || to == from - 1) && (up <==> to > from),
        r is None ==> stepped(from as int, up, low as int, top as int) is None,
{
    if up {
        if from >= top {
            None
        } else {
            Some(from + 1)
        }
    } else {
        if from <= low {
            None
        } else {
            Some(from - 1)
        }
    }
}

impl Sim {
    /// Stops the step with `p` awaiting its verdict.
    pub(crate) fn propose(&mut self, p: Proposal) -> (r: Request)
        requires
            old(self)@.live(),
            old(self)@.admits(p),
        ensures
            (final(self)@, r) == old(self)@.propose(p),
            final(self)@.wf(),
            final(self)@.anchored(old(self)@),
            final(self)@.awaits(r),
    {
        self.pending = Phase::Judge(p);
        Request::Judge(p)
    }

    /// Directions of the stencil in use.
    pub(crate) fn r_count(&self) -> (rc: usize)
        ensures
            rc == self@.r_count(),
            rc == 4 || rc == 8,
    {
        op_r_count(self.params.op_stencil)
    }

    /// Position of the first weight of a cell of the prediction kernel.
    pub(crate) fn budget_base(&self, interface: usize, cell: usize) -> (base: usize)
        requires
            self@.wf(),
            self@.coupled(),
            interface < self@.layers(),
            cell < self@.cells(),
        ensures
            base == budget_slot(interface as int, cell as int, 0, self@.cells(), self@.r_count()),
            base + self@.r_count() <= self@.budget.len(),
            base == (interface * self@.cells() + cell) * self@.r_count(),
            base + self@.r_count() <= 0x80_0000,
    {
        let cells: usize = self.cells();
        let rc: usize = self.r_count();
        let ghost layers: int = self@.layers();
        assert((interface * cells + cell) * rc + rc <= layers * cells * rc && layers * cells * rc
            <= 16 * 0x1_0000 * 8) by (nonlinear_arith)
            requires
                0 <= interface < layers <= 16,
                0 <= cell < cells <= 0x1_0000,
                0 < rc <= 8,
        ;
        op_k_index(interface, cell, 0, cells, rc)
    }

    /// The direction that holds most of the budget at a cell.
    pub(crate) fn op_k_dir(&self, interface: usize, cell: usize) -> (d: u8)
        requires
            self@.wf(),
            cell < self@.cells(),
        ensures
            d == self@.lead_direction(interface as int, cell as int),
    {
        if self.op_k.len() == 0 {
            return 0;
        }
        if interface >= self.params.meta_layers as usize {
            return 0;
        }
        let rc: usize = self.r_count();
        let start: usize = self.budget_base(interface, cell);
        let mut best_idx: usize = 0;
        let mut best_val: u8 = 0;
        let mut r: usize = 0;
        while r < rc
            invariant
                r <= rc <= 8,
                start + rc <= self.op_k@.len(),
                start + rc <= 0x80_0000,
                best_idx < 8,
                (best_idx as int, best_val) == strongest(self.op_k@, start as int, r as nat),
            decreases rc - r,
        {
            let val: u8 = self.op_k[start + r];
            if val > best_val {
                best_val = val;
                best_idx = r;
            }
            r = r + 1;
        }
        best_idx as u8
    }

    /// Whether the clock lets a cell be written.
    pub(crate) fn clock_gate_allows(&self, cell: usize) -> (open: bool)
        requires
            self@.wf(),
            cell < self@.cells(),
        ensures
            open == self@.gate_open(cell as int),
    {
        if !self.params.repair_clock_gated {
            return true;
        }
        let g: usize = self.params.grid_size as usize;
        let active: u8 = if self.params.clock_on {
            self.clock.state
        } else {
            0
        };
        if self.params.repair_gate_mode == 1 {
            let bins: u8 = self.params.clock_k;
            let idx: u8 = column_center_bin(cell % g, g, bins);
            span_covers(idx, active, self.params.repair_gate_span, bins)
        } else {
            cell_quadrant(cell, g) == active % 4
        }
    }

    /// Particle move.
    pub(crate) fn x_move_step(&mut self) -> (r: Request)
        requires
            old(self)@.live(),
        ensures
            (final(self)@, r) == old(self)@.particle_step(),
            final(self)@.wf(),
            final(self)@.anchored(old(self)@),
            final(self)@.awaits(r),
    {
        if self.n <= 1 {
            return self.rest();
        }
        let i: usize = self.rng.below(self.n);
        let ux: u32 = self.rng.next_unit();
        let uy: u32 = self.rng.next_unit();
        self.propose(Proposal::Particle { i, ux, uy })
    }

    /// Bond write on the base layer.
    pub(crate) fn p1_write_step(&mut self) -> (r: Request)
        requires
            old(self)@.live(),
        ensures
            (final(self)@, r) == old(self)@.bond_base(),
            final(self)@.wf(),
            final(self)@.anchored(old(self)@),
            final(self)@.awaits(r),
    {
        if self.w.len() == 0 {
            return self.rest();
        }
        self.pending = Phase::Pairs;
        Request::Pairs
    }

    /// Bond write on a meta layer.
    pub(crate) fn p1_write_step_meta(&mut self, layer: usize) -> (r: Request)
        requires
            old(self)@.live(),
            layer < old(self)@.layers(),
        ensures
            (final(self)@, r) == old(self)@.bond_meta(layer as int),
            final(self)@.wf(),
            final(self)@.anchored(old(self)@),
            final(self)@.awaits(r),
    {
        let cells: usize = self.cells();
        let edges: usize = 2 * cells;
        let base: usize = self.layer_base(layer, edges);
        let edge: usize = self.rng.below(edges);
        let from: u8 = self.meta_w_edges[base + edge];
        let up: bool = self.rng.next_unit() < HALF;
        match step_value(from as i32, up, 0, self.params.l_w as i32) {
            None => self.rest(),
            Some(to) => self.propose(Proposal::BondMeta { layer, edge, from, to: to as u8 }),
        }
    }

    /// With the clock on, draws whether a counter step ticks the clock instead.
    fn clock_turn(&mut self) -> (tick: bool)
        requires
            old(self)@.live(),
        ensures
            (final(self)@, tick) == old(self)@.clock_turn(),
            final(self)@.live(),
            final(self)@.anchored(old(self)@),
    {
        if self.params.clock_on && self.params.clock_cut > 0 {
            let u: u32 = self.rng.next_unit();
            u < self.params.clock_cut
        } else {
            false
        }
    }

    /// Clock tick.
    pub(crate) fn clock_step(&mut self) -> (r: Request)
        requires
            old(self)@.live(),
        ensures
            (final(self)@, r) == old(self)@.clock_step(),
            final(self)@.wf(),
            final(self)@.anchored(old(self)@),
            final(self)@.awaits(r),
    {
        let up: bool = self.rng.next_unit() < HALF;
        self.propose(Proposal::Clock { up })
    }

    /// Counter write on the base layer.
    pub(crate) fn p4_write_step(&mut self) -> (r: Request)
        requires
            old(self)@.live(),
        ensures
            (final(self)@, r) == old(self)@.counter_base(),
            final(self)@.wf(),
            final(self)@.anchored(old(self)@),
            final(self)@.awaits(r),
    {
        if self.clock_turn() {
            return self.clock_step();
        }
        if self.n == 0 {
            return self.rest();
        }
        let k: usize = self.rng.below(self.n);
        let from: i16 = self.n_counter[k];
        let up: bool = self.rng.next_unit() < HALF;
        let l_n: i32 = self.params.l_n as i32;
        match step_value(from as i32, up, -l_n, l_n) {
            None => self.rest(),
            Some(to) => self.propose(Proposal::Counter { k, from, to: to as i16 }),
        }
    }

    /// Counter write on a meta layer.
    pub(crate) fn p4_write_step_meta(&mut self, layer: usize) -> (r: Request)
        requires
            old(self)@.live(),
            layer < old(self)@.layers(),
        ensures
            (final(self)@, r) == old(self)@.counter_meta(layer as int),
            final(self)@.wf(),
            final(self)@.anchored(old(self)@),
            final(self)@.awaits(r),
    {
        if self.clock_turn() {
            return self.clock_step();
        }
        let cells: usize = self.cells();
        let base: usize = self.layer_base(layer, cells);
        let cell: usize = self.rng.below(cells);
        let from: i16 = self.meta_n_field[base + cell];
        let up: bool = self.rng.next_unit() < HALF;
        let l_n: i32 = self.params.l_n as i32;
        match step_value(from as i32, up, -l_n, l_n) {
            None => self.rest(),
            Some(to) => self.propose(Proposal::CounterMeta { layer, cell, from, to: to as i16 }),
        }
    }

    /// Apparatus write on the base layer.
    pub(crate) fn p2_write_step(&mut self) -> (r: Request)
        requires
            old(self)@.live(),
        ensures
            (final(self)@, r) == old(self)@.apparatus_base(),
            final(self)@.wf(),
            final(self)@.anchored(old(self)@),
            final(self)@.awaits(r),
    {
        if self.n == 0 {
            return self.rest();
        }
        let k: usize = self.rng.below(self.n);
        let from: u16 = self.a_counter[k];
        let up: bool = self.rng.next_unit() < HALF;
        match step_value(from as i32, up, 0, self.params.l_a as i32) {
            None => self.rest(),
            Some(to) => self.propose(Proposal::Apparatus { k, from, to: to as u16 }),
        }
    }

    /// Apparatus write on a meta layer.
    pub(crate) fn p2_write_step_meta(&mut self, layer: usize) -> (r: Request)
        requires
            old(self)@.live(),
            layer < old(self)@.layers(),
        ensures
            (final(self)@, r) == old(self)@.apparatus_meta(layer as int),
            final(self)@.wf(),
            final(self)@.anchored(old(self)@),
            final(self)@.awaits(r),
    {
        let cells: usize = self.cells();
        let base: usize = self.layer_base(layer, cells);
        let cell: usize = self.rng.below(cells);
        let from: u16 = self.meta_a_field[base + cell];
        let up: bool = self.rng.next_unit() < HALF;
        match step_value(from as i32, up, 0, self.params.l_a as i32) {
            None => self.rest(),
            Some(to) => self.propose(Proposal::ApparatusMeta { layer, cell, from, to: to as u16 }),
        }
    }

    /// Field write on the base layer.
    pub(crate) fn p5_write_step(&mut self) -> (r: Request)
        requires
            old(self)@.live(),
        ensures
            (final(self)@, r) == old(self)@.field_base(),
            final(self)@.wf(),
            final(self)@.anchored(old(self)@),
            final(self)@.awaits(r),
    {
        let cells: usize = self.cells();
        let cell: usize = self.rng.below(cells);
        let from: u8 = self.s_field[cell];
        let mismatch: u8 = if self.params.meta_layers > 0 {
            let first: usize = self.layer_base(0, cells);
            mismatch_bin(from, self.meta_field[first + cell])
        } else {
            1
        };
        let dir: u8 = self.op_k_dir(0, cell);
        let up: bool = self.rng.next_unit() < HALF;
        match step_value(from as i32, up, 0, self.params.l_s as i32) {
            None => self.rest(),
            Some(to) => self.propose(Proposal::Field { cell, from, to: to as u8, mismatch, dir }),
        }
    }

    /// Field write on a meta layer.
    pub(crate) fn p5_write_step_meta(&mut self, layer: usize) -> (r: Request)
        requires
            old(self)@.live(),
            layer < old(self)@.layers(),
        ensures
            (final(self)@, r) == old(self)@.field_meta(layer as int),
            final(self)@.wf(),
            final(self)@.anchored(old(self)@),
            final(self)@.awaits(r),
    {
        let cells: usize = self.cells();
        let base: usize = self.layer_base(layer, cells);
        let cell: usize = self.rng.below(cells);
        let from: u8 = self.meta_field[base + cell];
        let lower: u8 = if layer == 0 {
            self.s_field[cell]
        } else {
            let below: usize = self.layer_base(layer - 1, cells);
            self.meta_field[below + cell]
        };
        let mismatch: u8 = mismatch_bin(from, lower);
        let dir: u8 = self.op_k_dir(layer, cell);
        if !self.clock_gate_allows(cell) {
            return self.rest();
        }
        let up: bool = self.rng.next_unit() < HALF;
        match step_value(from as i32, up, 0, self.params.l_s as i32) {
            None => self.rest(),
            Some(to) => self.propose(
                Proposal::FieldMeta { layer, cell, from, to: to as u8, mismatch, dir },
            ),
        }
    }

    /// Budget transfer at an interface.
    pub(crate) fn p5_write_step_opk(&mut self, interface: usize) -> (r: Request)
        requires
            old(self)@.live(),
            old(self)@.coupled(),
            interface < old(self)@.layers(),
        ensures
            (final(self)@, r) == old(self)@.budget_step(interface as int),
            final(self)@.wf(),
            final(self)@.anchored(old(self)@),
            final(self)@.awaits(r),
    {
        let rc: usize = self.r_count();
        let cells: usize = self.cells();
        let cell: usize = self.rng.below(cells);
        let r_from: usize = self.rng.below(rc);
        let other: usize = self.rng.below(rc - 1);
        let r_to: usize = if other >= r_from {
            other + 1
        } else {
            other
        };
        let base: usize = self.budget_base(interface, cell);
        if self.op_k[base + r_from] == 0 {
            return self.rest();
        }
        self.propose(Proposal::Budget { interface, cell, r_from, r_to })
    }

    /// A uniform target among the base layer and the meta layers.
    pub(crate) fn pick_write_target(&mut self) -> (t: usize)
        requires
            old(self)@.live(),
        ensures
            (final(self)@, t as int) == old(self)@.write_target(),
            final(self)@.live(),
            final(self)@.anchored(old(self)@),
            t <= old(self)@.layers(),
    {
        self.rng.below(self.params.meta_layers as usize + 1)
    }

    /// A target among field layers and interfaces.
    pub(crate) fn pick_p5_target_op(&mut self) -> (t: usize)
        requires
            old(self)@.live(),
            old(self)@.layers() > 0,
        ensures
            (final(self)@, t as int) == old(self)@.field_target(),
            final(self)@.live(),
            final(self)@.anchored(old(self)@),
            t <= 2 * old(self)@.layers(),
    {
        let layers: usize = self.params.meta_layers as usize;
        match self.params.target_weight {
            TargetWeight::Even => self.rng.below(1 + 2 * layers),
            TargetWeight::Split(cuts) => {
                let u: u32 = self.rng.next_unit();
                if u < cuts[layers - 1] {
                    self.rng.below(layers + 1)
                } else {
                    layers + 1 + self.rng.below(layers)
                }
            },
        }
    }

    fn bond_step(&mut self) -> (r: Request)
        requires
            old(self)@.live(),
        ensures
            (final(self)@, r) == old(self)@.bond_step(),
            final(self)@.wf(),
            final(self)@.anchored(old(self)@),
            final(self)@.awaits(r),
    {
        if self.params.meta_layers == 0 {
            self.p1_write_step()
        } else {
            let t: usize = self.pick_write_target();
            if t == 0 {
                self.p1_write_step()
            } else {
                self.p1_write_step_meta(t - 1)
            }
        }
    }

    fn counter_step(&mut self) -> (r: Request)
        requires
            old(self)@.live(),
        ensures
            (final(self)@, r) == old(self)@.counter_step(),
            final(self)@.wf(),
            final(self)@.anchored(old(self)@),
            final(self)@.awaits(r),
    {
        if self.params.meta_layers == 0 {
            self.p4_write_step()
        } else {
            let t: usize = self.pick_write_target();
            if t == 0 {
                self.p4_write_step()
            } else {
                self.p4_write_step_meta(t - 1)
            }
        }
    }

    fn apparatus_step(&mut self) -> (r: Request)
        requires
            old(self)@.live(),
        ensures
            (final(self)@, r) == old(self)@.apparatus_step(),
            final(self)@.wf(),
            final(self)@.anchored(old(self)@),
            final(self)@.awaits(r),
    {
        if self.params.meta_layers == 0 {
            self.p2_write_step()
        } else {
            let t: usize = self.pick_write_target();
            if t == 0 {
                self.p2_write_step()
            } else {
                self.p2_write_step_meta(t - 1)
            }
        }
    }

    fn field_step(&mut self) -> (r: Request)
        requires
            old(self)@.live(),
        ensures
            (final(self)@, r) == old(self)@.field_step(),
            final(self)@.wf(),
            final(self)@.anchored(old(self)@),
            final(self)@.awaits(r),
    {
        let layers: usize = self.params.meta_layers as usize;
        if layers == 0 {
            self.p5_write_step()
        } else if self.params.op_coupling_on {
            let t: usize = self.pick_p5_target_op();
            if t == 0 {
                self.p5_write_step()
            } else if t <= layers {
                self.p5_write_step_meta(t - 1)
            } else {
                self.p5_write_step_opk(t - (layers + 1))
            }
        } else {
            let t: usize = self.pick_write_target();
            if t == 0 {
                self.p5_write_step()
            } else {
                self.p5_write_step_meta(t - 1)
            }
        }
    }

    fn run_slot(&mut self, slot: Slot) -> (r: Request)
        requires
            old(self)@.live(),
        ensures
            (final(self)@, r) == old(self)@.run_slot(slot),
            final(self)@.wf(),
            final(self)@.anchored(old(self)@),
            final(self)@.awaits(r),
    {
        match slot {
            Slot::Particle => self.x_move_step(),
            Slot::Bond => self.bond_step(),
            Slot::Apparatus => self.apparatus_step(),
            Slot::Counter => self.counter_step(),
            Slot::Field => self.field_step(),
        }
    }

    /// Random selection of a kernel.
    fn select_step(&mut self) -> (r: Request)
        requires
            old(self)@.live(),
        ensures
            (final(self)@, r) == old(self)@.selected(),
            final(self)@.wf(),
            final(self)@.anchored(old(self)@),
            final(self)@.awaits(r),
    {
        let u: u32 = self.rng.next_unit();
        let rates = self.params.rates;
        if u < rates.bond_cut {
            self.bond_step()
        } else if u < rates.counter_cut {
            self.counter_step()
        } else if u < rates.apparatus_cut {
            self.apparatus_step()
        } else if u < rates.field_cut {
            self.field_step()
        } else {
            self.x_move_step()
        }
    }

    /// The kernel at a place of the protocol cycle.
    pub fn slot_at(&self, idx: u8) -> (slot: Slot)
        requires
            idx < self@.params.rates.cycle_len(),
        ensures
            slot == schedule(self@.params.rates)[idx as int],
            schedule(self@.params.rates).len() == self@.params.rates.cycle_len(),
    {
        let r = self.params.rates;
        let ghost s1 = seq![Slot::Particle];
        let ghost s2 = s1 + (if r.bond_on { seq![Slot::Bond] } else { Seq::<Slot>::empty() });
        let ghost s3 = s2 + (if r.apparatus_on {
            seq![Slot::Apparatus]
        } else {
            Seq::<Slot>::empty()
        });
        let ghost s4 = s3 + (if r.counter_on { seq![Slot::Counter] } else { Seq::<Slot>::empty() });
        let ghost s5 = s4 + (if r.field_on { seq![Slot::Field] } else { Seq::<Slot>::empty() });
        assert(s5 == schedule(r));
        let mut k: u8 = idx;
        if k == 0 {
            return Slot::Particle;
        }
        k = k - 1;
        if r.bond_on {
            if k == 0 {
                return Slot::Bond;
            }
            k = k - 1;
        }
        if r.apparatus_on {
            if k == 0 {
                return Slot::Apparatus;
            }
            k = k - 1;
        }
        if r.counter_on {
            if k == 0 {
                return Slot::Counter;
            }
            k = k - 1;
        }
        Slot::Field
    }

    /// Protocol selection: restarts the cycle if its length changed, then
    /// runs the kernel whose turn it is.
    pub(crate) fn protocol_step(&mut self) -> (r: Request)
        requires
            old(self)@.wf(),
            old(self)@.pending is Idle,
            old(self)@.params.p3_on,
        ensures
            (final(self)@, r) == old(self)@.scheduled(),
            final(self)@.wf(),
            final(self)@.anchored(old(self)@),
            final(self)@.awaits(r),
    {
        let len: u8 = self.cycle_due();
        if self.p3_cycle_len != len {
            self.p3_cycle_len = len;
            self.phase = 0;
            self.p3_obs1 = vec![0i64; len as usize];
            self.p3_obs2 = vec![0i64; len as usize];
        }
        assert(self@ == old(self)@.cycle_fitted());
        let slot: Slot = self.slot_at(self.phase);
        self.run_slot(slot)
    }

    /// Begins a step and runs it up to its first request.
    pub fn begin_step(&mut self) -> (r: Request)
        requires
            old(self)@.wf(),
        ensures
            (final(self)@, r) == old(self)@.begin_step(),
            final(self)@.wf(),
            final(self)@.n == old(self)@.n,
            final(self)@.params == old(self)@.params,
            final(self)@.log_extends(old(self)@),
            final(self)@.step_count == (if old(self)@.pending is Idle {
                if old(self)@.step_count == u32::MAX {
                    0
                } else {
                    (old(self)@.step_count + 1) as u32
                }
            } else {
                old(self)@.step_count
            }),
            final(self)@.awaits(r),
    {
        match self.pending {
            Phase::Idle => {},
            Phase::Pairs => {
                return Request::Pairs;
            },
            Phase::Judge(p) => {
                return Request::Judge(p);
            },
        }
        self.step_count = self.step_count.wrapping_add(1);
        if self.params.p3_on {
            self.protocol_step()
        } else {
            self.select_step()
        }
    }
}

} // verus!
