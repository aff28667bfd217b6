//! The step as a transition function on the mathematical state.
//!
//! A step draws from the generator, picks a kernel and a subject, and either
//! ends at once or stops with a request: for the pairs within reach, or for a
//! verdict on a proposal. Each function here says which state and which
//! request follow; the executable engine is proved to compute exactly these.

use vstd::prelude::*;
use crate::grid::{budget_slot, center_bin, in_span, mismatch_sign, quadrant};
use crate::index::pair_index;
use crate::params::TargetWeight;
use crate::rng::{unit_of, xorshift, HALF, UNIT};
use crate::state::{
    sat_add, DiagTotals, Outcome, Phase, Proposal, Record, Request, SimView, StepDiag, Verdict,
    MOVE_OPK, MOVE_P5_BASE, MOVE_P5_META,
};

verus! {

/// The kernel families a step can run.
#[derive(Clone, Copy, Debug, PartialEq, Eq, Structural)]
pub enum Slot {
    Particle,
    Bond,
    Apparatus,
    Counter,
    Field,
}

/// The running state of a reservoir draw over a list of candidates.
pub struct Reservoir {
    pub rng: u32,
    pub count: nat,
    pub chosen: Option<int>,
}

/// Reservoir sampling over the first `k` entries of `near`: each marked
/// entry costs one draw and replaces the choice when its variate, times the
/// number of marked entries so far, stays below `UNIT`: the rule of
/// reservoir sampling with a single slot.
pub open spec fn reservoir(near: Seq<bool>, rng: u32, k: nat) -> Reservoir
    decreases k,
{
    if k == 0 {
        Reservoir { rng, count: 0, chosen: None }
    } else {
        let before = reservoir(near, rng, (k - 1) as nat);
        let idx: int = k - 1;
        if idx < near.len() && near[idx] {
            let r: u32 = xorshift(before.rng);
            let count: nat = before.count + 1;
            Reservoir {
                rng: r,
                count,
                chosen: if unit_of(r) * count < UNIT { Some(idx) } else { before.chosen },
            }
        } else {
            before
        }
    }
}

/// The heaviest of the first `k` weights from `start` on, as (direction,
/// weight); ties go to the earliest, and all zeros to direction 0.
pub open spec fn strongest(budget: Seq<u8>, start: int, k: nat) -> (int, u8)
    decreases k,
{
    if k == 0 {
        (0, 0u8)
    } else {
        let before = strongest(budget, start, (k - 1) as nat);
        let v: u8 = budget[start + k - 1];
        if v > before.1 {
            (k - 1, v)
        } else {
            before
        }
    }
}

/// The value one unit up or down from `from`, unless that leaves `low ..= top`.
pub open spec fn stepped(from: int, up: bool, low: int, top: int) -> Option<int> {
    if up {
        if from >= top {
            None
        } else {
            Some(from + 1)
        }
    } else {
        if from <= low {
            None
        } else {
            Some(from - 1)
        }
    }
}

/// Kind and tags of a log record in one word: the kind in the low byte, the
/// three tags above it.
pub open spec fn pack_tags(kind: u8, a: u8, b: u8, c: u8) -> u32 {
    (kind as u32) | ((a as u32) << 8) | ((b as u32) << 16) | ((c as u32) << 24)
}

/// The protocol cycle: the particle move, then each kernel whose rate is positive.
pub open spec fn schedule(r: crate::params::Rates) -> Seq<Slot> {
    seq![Slot::Particle] + (if r.bond_on { seq![Slot::Bond] } else { Seq::<Slot>::empty() }) + (
    if r.apparatus_on { seq![Slot::Apparatus] } else { Seq::<Slot>::empty() }) + (if r.counter_on {
        seq![Slot::Counter]
    } else {
        Seq::<Slot>::empty()
    }) + (if r.field_on { seq![Slot::Field] } else { Seq::<Slot>::empty() })
}

impl StepDiag {
    /// The contribution of a step in which nothing was taken.
    pub open spec fn none() -> StepDiag {
        StepDiag {
            w_plus: 0,
            w_minus: 0,
            n_plus: 0,
            n_minus: 0,
            a_plus: 0,
            a_minus: 0,
            s_plus: 0,
            s_minus: 0,
        }
    }

    /// The count a taken proposal contributes: one up or down move of the
    /// variable it writes.
    pub open spec fn of(p: Proposal) -> StepDiag {
        let up: u32 = if p.delta() > 0 { 1 } else { 0 };
        let down: u32 = if p.delta() < 0 { 1 } else { 0 };
        match p {
            Proposal::Bond { .. } | Proposal::BondMeta { .. } => StepDiag {
                w_plus: up,
                w_minus: down,
                ..StepDiag::none()
            },
            Proposal::Apparatus { .. } | Proposal::ApparatusMeta { .. } => StepDiag {
                a_plus: up,
                a_minus: down,
                ..StepDiag::none()
            },
            Proposal::Counter { .. } | Proposal::CounterMeta { .. } => StepDiag {
                n_plus: up,
                n_minus: down,
                ..StepDiag::none()
            },
            Proposal::Field { .. } | Proposal::FieldMeta { .. } => StepDiag {
                s_plus: up,
                s_minus: down,
                ..StepDiag::none()
            },
            _ => StepDiag::none(),
        }
    }
}

impl DiagTotals {
    /// All counts at zero.
    pub open spec fn zero() -> DiagTotals {
        DiagTotals {
            steps: 0,
            w_plus: 0,
            w_minus: 0,
            n_plus: 0,
            n_minus: 0,
            a_plus: 0,
            a_minus: 0,
            s_plus: 0,
            s_minus: 0,
            w_plus_h: 0,
            w_minus_h: 0,
            w_plus_l: 0,
            w_minus_l: 0,
            n_plus_h: 0,
            n_minus_h: 0,
            n_plus_l: 0,
            n_minus_l: 0,
            a_plus_h: 0,
            a_minus_h: 0,
            a_plus_l: 0,
            a_minus_l: 0,
            s_plus_h: 0,
            s_minus_h: 0,
            s_plus_l: 0,
            s_minus_l: 0,
        }
    }

    /// The totals after one more step.
    pub open spec fn pushed(self, step: StepDiag) -> DiagTotals {
        DiagTotals {
            steps: sat_add(self.steps, 1),
            w_plus: sat_add(self.w_plus, step.w_plus),
            w_minus: sat_add(self.w_minus, step.w_minus),
            n_plus: sat_add(self.n_plus, step.n_plus),
            n_minus: sat_add(self.n_minus, step.n_minus),
            a_plus: sat_add(self.a_plus, step.a_plus),
            a_minus: sat_add(self.a_minus, step.a_minus),
            s_plus: sat_add(self.s_plus, step.s_plus),
            s_minus: sat_add(self.s_minus, step.s_minus),
            ..self
        }
    }

    /// The totals after a taken move of `p` in the given context.
    pub open spec fn noted(self, p: Proposal, high: bool) -> DiagTotals {
        let up: bool = p.delta() > 0;
        match p {
            Proposal::Bond { .. } | Proposal::BondMeta { .. } => if high {
                if up {
                    DiagTotals { w_plus_h: sat_add(self.w_plus_h, 1), ..self }
                } else {
                    DiagTotals { w_minus_h: sat_add(self.w_minus_h, 1), ..self }
                }
            } else if up {
                DiagTotals { w_plus_l: sat_add(self.w_plus_l, 1), ..self }
            } else {
                DiagTotals { w_minus_l: sat_add(self.w_minus_l, 1), ..self }
            },
            Proposal::Apparatus { .. } | Proposal::ApparatusMeta { .. } => if high {
                if up {
                    DiagTotals { a_plus_h: sat_add(self.a_plus_h, 1), ..self }
                } else {
                    DiagTotals { a_minus_h: sat_add(self.a_minus_h, 1), ..self }
                }
            } else if up {
                DiagTotals { a_plus_l: sat_add(self.a_plus_l, 1), ..self }
            } else {
                DiagTotals { a_minus_l: sat_add(self.a_minus_l, 1), ..self }
            },
            Proposal::Counter { .. } | Proposal::CounterMeta { .. } => if high {
                if up {
                    DiagTotals { n_plus_h: sat_add(self.n_plus_h, 1), ..self }
                } else {
                    DiagTotals { n_minus_h: sat_add(self.n_minus_h, 1), ..self }
                }
            } else if up {
                DiagTotals { n_plus_l: sat_add(self.n_plus_l, 1), ..self }
            } else {
                DiagTotals { n_minus_l: sat_add(self.n_minus_l, 1), ..self }
            },
            Proposal::Field { .. } | Proposal::FieldMeta { .. } => if high {
                if up {
                    DiagTotals { s_plus_h: sat_add(self.s_plus_h, 1), ..self }
                } else {
                    DiagTotals { s_minus_h: sat_add(self.s_minus_h, 1), ..self }
                }
            } else if up {
                DiagTotals { s_plus_l: sat_add(self.s_plus_l, 1), ..self }
            } else {
                DiagTotals { s_minus_l: sat_add(self.s_minus_l, 1), ..self }
            },
            _ => self,
        }
    }
}

impl SimView {
    /// The state with the generator at `r`.
    pub open spec fn with_rng(self, r: u32) -> SimView {
        SimView { rng: r, ..self }
    }

    /// The request that is still open, if a step is under way.
    pub open spec fn outstanding(self) -> Request {
        match self.pending {
            Phase::Idle => Request::Done(Outcome::none()),
            Phase::Pairs => Request::Pairs,
            Phase::Judge(p) => Request::Judge(p),
        }
    }

    /// Stops the step with `p` awaiting its verdict.
    pub open spec fn propose(self, p: Proposal) -> (SimView, Request) {
        (SimView { pending: Phase::Judge(p), ..self }, Request::Judge(p))
    }

    // ------------------------------------------------------------------
    // End of a step
    // ------------------------------------------------------------------
    /// Records both sums in the slot of the current phase and moves the
    /// phase on; the flag says whether that closed the cycle.
    pub open spec fn cycle_advanced(self) -> (SimView, bool) {
        let idx: int = self.phase as int;
        let held: bool = idx < self.obs_w.len();
        let closed: bool = self.phase + 1 >= self.params.rates.cycle_len();
        (
            SimView {
                obs_w: if held { self.obs_w.update(idx, self.sum_w) } else { self.obs_w },
                obs_s: if held { self.obs_s.update(idx, self.sum_s) } else { self.obs_s },
                phase: if closed { 0 } else { (self.phase + 1) as u8 },
                ..self
            },
            closed,
        )
    }

    /// `k` noise writes: each draws a cell of the noisy layer and a value in
    /// `0 ..= l_s`, and stores it.
    pub open spec fn noise_batch(self, k: nat) -> SimView
        decreases k,
    {
        if k == 0 {
            self
        } else {
            let s = self.noise_batch((k - 1) as nat);
            let r1: u32 = xorshift(s.rng);
            let r2: u32 = xorshift(r1);
            let idx: int = self.params.code_noise_layer * self.cells() + r1 as int % self.cells();
            let val: u8 = (r2 as int % (self.params.l_s + 1)) as u8;
            SimView { rng: r2, meta_field: s.meta_field.update(idx, val), ..s }
        }
    }

    /// Code noise: with the configured probability, a batch of random writes
    /// into one meta layer of the field.
    pub open spec fn code_noise(self) -> SimView {
        let p = self.params;
        if p.code_noise_cut == 0 || p.meta_layers == 0 {
            self
        } else {
            let r: u32 = xorshift(self.rng);
            if unit_of(r) >= p.code_noise_cut || p.code_noise_layer >= p.meta_layers {
                self.with_rng(r)
            } else {
                self.with_rng(r).noise_batch(p.code_noise_batch as nat)
            }
        }
    }

    /// Ends the step: in protocol mode the cycle moves on, the step is
    /// counted, and code noise gets its turn.
    pub open spec fn finished(self, step: StepDiag, accepted: bool, delta: i8) -> (
        SimView,
        Request,
    ) {
        let (a, closed) = if self.params.p3_on {
            self.cycle_advanced()
        } else {
            (self, false)
        };
        let b = SimView { diag: a.diag.pushed(step), pending: Phase::Idle, ..a };
        (b.code_noise(), Request::Done(Outcome { accepted, delta, cycle_closed: closed }))
    }

    /// Ends the step with nothing proposed.
    pub open spec fn rest(self) -> (SimView, Request) {
        self.finished(StepDiag::none(), false, 0)
    }

    // ------------------------------------------------------------------
    // Kernels
    // ------------------------------------------------------------------
    /// Particle move: a particle and two variates for its displacement.
    pub open spec fn particle_step(self) -> (SimView, Request) {
        if self.n <= 1 {
            self.rest()
        } else {
            let r1: u32 = xorshift(self.rng);
            let r2: u32 = xorshift(r1);
            let r3: u32 = xorshift(r2);
            self.with_rng(r3).propose(
                Proposal::Particle {
                    i: (r1 as int % self.n as int) as usize,
                    ux: unit_of(r2),
                    uy: unit_of(r3),
                },
            )
        }
    }

    /// Bond write on the base layer: needs the pairs within reach first.
    pub open spec fn bond_base(self) -> (SimView, Request) {
        if self.w.len() == 0 {
            self.rest()
        } else {
            (SimView { pending: Phase::Pairs, ..self }, Request::Pairs)
        }
    }

    /// Bond write on a meta layer: a uniform edge, a direction, and the
    /// bound check.
    pub open spec fn bond_meta(self, layer: int) -> (SimView, Request) {
        let r1: u32 = xorshift(self.rng);
        let r2: u32 = xorshift(r1);
        let edge: int = r1 as int % (2 * self.cells());
        let from: u8 = self.meta_bonds[layer * (2 * self.cells()) + edge];
        match stepped(from as int, unit_of(r2) < HALF, 0, self.params.l_w as int) {
            None => self.with_rng(r2).rest(),
            Some(to) => self.with_rng(r2).propose(
                Proposal::BondMeta { layer: layer as usize, edge: edge as usize, from, to: to as u8 },
            ),
        }
    }

    /// With the clock on, a counter step first draws whether it ticks the
    /// clock instead. The result is the state after that draw and whether
    /// the clock was taken.
    pub open spec fn clock_turn(self) -> (SimView, bool) {
        if self.params.clock_on && self.params.clock_cut > 0 {
            let r: u32 = xorshift(self.rng);
            (self.with_rng(r), unit_of(r) < self.params.clock_cut)
        } else {
            (self, false)
        }
    }

    /// Clock tick: a direction.
    pub open spec fn clock_step(self) -> (SimView, Request) {
        let r: u32 = xorshift(self.rng);
        self.with_rng(r).propose(Proposal::Clock { up: unit_of(r) < HALF })
    }

    /// Counter write on the base layer.
    pub open spec fn counter_base(self) -> (SimView, Request) {
        let (s, tick) = self.clock_turn();
        if tick {
            s.clock_step()
        } else if s.n == 0 {
            s.rest()
        } else {
            let r1: u32 = xorshift(s.rng);
            let r2: u32 = xorshift(r1);
            let k: int = r1 as int % s.n as int;
            let from: i16 = s.counters[k];
            match stepped(
                from as int,
                unit_of(r2) < HALF,
                -s.params.l_n,
                s.params.l_n as int,
            ) {
                None => s.with_rng(r2).rest(),
                Some(to) => s.with_rng(r2).propose(
                    Proposal::Counter { k: k as usize, from, to: to as i16 },
                ),
            }
        }
    }

    /// Counter write on a meta layer.
    pub open spec fn counter_meta(self, layer: int) -> (SimView, Request) {
        let (s, tick) = self.clock_turn();
        if tick {
            s.clock_step()
        } else {
            let r1: u32 = xorshift(s.rng);
            let r2: u32 = xorshift(r1);
            let cell: int = r1 as int % s.cells();
            let from: i16 = s.meta_counters[layer * s.cells() + cell];
            match stepped(
                from as int,
                unit_of(r2) < HALF,
                -s.params.l_n,
                s.params.l_n as int,
            ) {
                None => s.with_rng(r2).rest(),
                Some(to) => s.with_rng(r2).propose(
                    Proposal::CounterMeta {
                        layer: layer as usize,
                        cell: cell as usize,
                        from,
                        to: to as i16,
                    },
                ),
            }
        }
    }

    /// Apparatus write on the base layer.
    pub open spec fn apparatus_base(self) -> (SimView, Request) {
        if self.n == 0 {
            self.rest()
        } else {
            let r1: u32 = xorshift(self.rng);
            let r2: u32 = xorshift(r1);
            let k: int = r1 as int % self.n as int;
            let from: u16 = self.apparatus[k];
            match stepped(from as int, unit_of(r2) < HALF, 0, self.params.l_a as int) {
                None => self.with_rng(r2).rest(),
                Some(to) => self.with_rng(r2).propose(
                    Proposal::Apparatus { k: k as usize, from, to: to as u16 },
                ),
            }
        }
    }

    /// Apparatus write on a meta layer.
    pub open spec fn apparatus_meta(self, layer: int) -> (SimView, Request) {
        let r1: u32 = xorshift(self.rng);
        let r2: u32 = xorshift(r1);
        let cell: int = r1 as int % self.cells();
        let from: u16 = self.meta_apparatus[layer * self.cells() + cell];
        match stepped(from as int, unit_of(r2) < HALF, 0, self.params.l_a as int) {
            None => self.with_rng(r2).rest(),
            Some(to) => self.with_rng(r2).propose(
                Proposal::ApparatusMeta {
                    layer: layer as usize,
                    cell: cell as usize,
                    from,
                    to: to as u16,
                },
            ),
        }
    }

    /// The direction that holds most of the budget at a cell, or 0 where
    /// there is no prediction kernel.
    pub open spec fn lead_direction(self, interface: int, cell: int) -> u8 {
        if self.budget.len() == 0 || interface >= self.layers() {
            0
        } else {
            strongest(
                self.budget,
                budget_slot(interface, cell, 0, self.cells(), self.r_count()),
                self.r_count() as nat,
            ).0 as u8
        }
    }

    /// Whether the clock lets a cell be written. Ungated, every cell is
    /// open. In quadrant mode the open quadrant is the clock state modulo 4.
    /// In stripe mode the columns fall into as many bins as the clock has
    /// states, and a span of bins from the clock state on is open.
    pub open spec fn gate_open(self, cell: int) -> bool {
        let p = self.params;
        let g: int = p.grid_size as int;
        let active: int = if p.clock_on { self.clock.state as int } else { 0 };
        if !p.repair_clock_gated {
            true
        } else if p.repair_gate_mode == 1 {
            in_span(
                center_bin(cell % g, g, p.clock_k as int),
                active,
                p.repair_gate_span as int,
                p.clock_k as int,
            )
        } else {
            quadrant(cell, g) == active % 4
        }
    }

    /// Field write on the base layer.
    pub open spec fn field_base(self) -> (SimView, Request) {
        let r1: u32 = xorshift(self.rng);
        let r2: u32 = xorshift(r1);
        let cell: int = r1 as int % self.cells();
        let from: u8 = self.field[cell];
        let mismatch: u8 = if self.params.meta_layers > 0 {
            mismatch_sign(from, self.meta_field[cell])
        } else {
            1
        };
        match stepped(from as int, unit_of(r2) < HALF, 0, self.params.l_s as int) {
            None => self.with_rng(r2).rest(),
            Some(to) => self.with_rng(r2).propose(
                Proposal::Field {
                    cell: cell as usize,
                    from,
                    to: to as u8,
                    mismatch,
                    dir: self.lead_direction(0, cell),
                },
            ),
        }
    }

    /// Field write on a meta layer; a closed gate ends the step before a
    /// direction is drawn.
    pub open spec fn field_meta(self, layer: int) -> (SimView, Request) {
        let r1: u32 = xorshift(self.rng);
        let r2: u32 = xorshift(r1);
        let cell: int = r1 as int % self.cells();
        let from: u8 = self.meta_field[layer * self.cells() + cell];
        let lower: u8 = if layer == 0 {
            self.field[cell]
        } else {
            self.meta_field[(layer - 1) * self.cells() + cell]
        };
        if !self.gate_open(cell) {
            self.with_rng(r1).rest()
        } else {
            match stepped(from as int, unit_of(r2) < HALF, 0, self.params.l_s as int) {
                None => self.with_rng(r2).rest(),
                Some(to) => self.with_rng(r2).propose(
                    Proposal::FieldMeta {
                        layer: layer as usize,
                        cell: cell as usize,
                        from,
                        to: to as u8,
                        mismatch: mismatch_sign(from, lower),
                        dir: self.lead_direction(layer, cell),
                    },
                ),
            }
        }
    }

    /// Budget transfer: a cell and two distinct directions; an empty source
    /// ends the step.
    pub open spec fn budget_step(self, interface: int) -> (SimView, Request) {
        let rc: int = self.r_count();
        let r1: u32 = xorshift(self.rng);
        let r2: u32 = xorshift(r1);
        let r3: u32 = xorshift(r2);
        let cell: int = r1 as int % self.cells();
        let r_from: int = r2 as int % rc;
        let other: int = r3 as int % (rc - 1);
        let r_to: int = if other >= r_from { other + 1 } else { other };
        if self.budget[budget_slot(interface, cell, r_from, self.cells(), rc)] == 0 {
            self.with_rng(r3).rest()
        } else {
            self.with_rng(r3).propose(
                Proposal::Budget {
                    interface: interface as usize,
                    cell: cell as usize,
                    r_from: r_from as usize,
                    r_to: r_to as usize,
                },
            )
        }
    }

    // ------------------------------------------------------------------
    // Targets
    // ------------------------------------------------------------------
    /// A uniform target among the base layer (0) and the meta layers
    /// (1 ..= layers), with the state after the draw.
    pub open spec fn write_target(self) -> (SimView, int) {
        let r: u32 = xorshift(self.rng);
        (self.with_rng(r), r as int % (self.layers() + 1))
    }

    /// A target among the field layers (0 ..= layers) and the interfaces
    /// (layers + 1 ..= 2 * layers), evenly or split by the configured cut.
    pub open spec fn field_target(self) -> (SimView, int) {
        let layers: int = self.layers();
        let r1: u32 = xorshift(self.rng);
        let r2: u32 = xorshift(r1);
        match self.params.target_weight {
            TargetWeight::Even => (self.with_rng(r1), r1 as int % (1 + 2 * layers)),
            TargetWeight::Split(cuts) => if unit_of(r1) < cuts[layers - 1] {
                (self.with_rng(r2), r2 as int % (layers + 1))
            } else {
                (self.with_rng(r2), layers + 1 + r2 as int % layers)
            },
        }
    }

    /// Bond write: on the base layer without a tower, else on a uniform target.
    pub open spec fn bond_step(self) -> (SimView, Request) {
        if self.params.meta_layers == 0 {
            self.bond_base()
        } else {
            let (s, t) = self.write_target();
            if t == 0 {
                s.bond_base()
            } else {
                s.bond_meta(t - 1)
            }
        }
    }

    /// Counter write: on the base layer without a tower, else on a uniform target.
    pub open spec fn counter_step(self) -> (SimView, Request) {
        if self.params.meta_layers == 0 {
            self.counter_base()
        } else {
            let (s, t) = self.write_target();
            if t == 0 {
                s.counter_base()
            } else {
                s.counter_meta(t - 1)
            }
        }
    }

    /// Apparatus write: on the base layer without a tower, else on a uniform target.
    pub open spec fn apparatus_step(self) -> (SimView, Request) {
        if self.params.meta_layers == 0 {
            self.apparatus_base()
        } else {
            let (s, t) = self.write_target();
            if t == 0 {
                s.apparatus_base()
            } else {
                s.apparatus_meta(t - 1)
            }
        }
    }

    /// Field write: on the base layer without a tower; with predictive
    /// coupling on a field layer or an interface; else on a uniform target.
    pub open spec fn field_step(self) -> (SimView, Request) {
        if self.params.meta_layers == 0 {
            self.field_base()
        } else if self.params.op_coupling_on {
            let (s, t) = self.field_target();
            if t == 0 {
                s.field_base()
            } else if t <= self.layers() {
                s.field_meta(t - 1)
            } else {
                s.budget_step(t - (self.layers() + 1))
            }
        } else {
            let (s, t) = self.write_target();
            if t == 0 {
                s.field_base()
            } else {
                s.field_meta(t - 1)
            }
        }
    }

    /// The kernel family of a slot.
    pub open spec fn run_slot(self, slot: Slot) -> (SimView, Request) {
        match slot {
            Slot::Particle => self.particle_step(),
            Slot::Bond => self.bond_step(),
            Slot::Apparatus => self.apparatus_step(),
            Slot::Counter => self.counter_step(),
            Slot::Field => self.field_step(),
        }
    }

    // ------------------------------------------------------------------
    // Selection
    // ------------------------------------------------------------------
    /// Random selection: one variate against the cumulative cuts.
    pub open spec fn selected(self) -> (SimView, Request) {
        let r: u32 = xorshift(self.rng);
        let u: u32 = unit_of(r);
        let rates = self.params.rates;
        let s = self.with_rng(r);
        if u < rates.bond_cut {
            s.bond_step()
        } else if u < rates.counter_cut {
            s.counter_step()
        } else if u < rates.apparatus_cut {
            s.apparatus_step()
        } else if u < rates.field_cut {
            s.field_step()
        } else {
            s.particle_step()
        }
    }

    /// The cycle restarted when its length no longer fits the rates: phase
    /// 0 and fresh observables.
    pub open spec fn cycle_fitted(self) -> SimView {
        let len: int = self.params.rates.cycle_len();
        if self.cycle_len != len {
            SimView {
                cycle_len: len as u8,
                phase: 0,
                obs_w: Seq::new(len as nat, |i: int| 0i64),
                obs_s: Seq::new(len as nat, |i: int| 0i64),
                ..self
            }
        } else {
            self
        }
    }

    /// Protocol selection: the kernel whose turn it is.
    pub open spec fn scheduled(self) -> (SimView, Request) {
        let s = self.cycle_fitted();
        s.run_slot(schedule(s.params.rates)[s.phase as int])
    }

    /// Begins a step. While a request is open, nothing happens and the open
    /// request is repeated.
    pub open spec fn begin_step(self) -> (SimView, Request) {
        if !(self.pending is Idle) {
            (self, self.outstanding())
        } else {
            let s = SimView {
                step_count: if self.step_count == u32::MAX {
                    0
                } else {
                    (self.step_count + 1) as u32
                },
                ..self
            };
            if s.params.p3_on {
                s.scheduled()
            } else {
                s.selected()
            }
        }
    }

    // ------------------------------------------------------------------
    // Pairs
    // ------------------------------------------------------------------
    /// Continues a bond step with the pairs within reach: entry `k` of
    /// `near` speaks for the pair stored at `k`, and a missing entry counts
    /// as out of reach. One pair is drawn by reservoir sampling, then a
    /// direction.
    pub open spec fn supply_pairs(self, near: Seq<bool>) -> (SimView, Request) {
        if !(self.pending is Pairs) {
            (self, self.outstanding())
        } else {
            let idle = SimView { pending: Phase::Idle, ..self };
            let pick = reservoir(near, self.rng, self.w.len());
            match pick.chosen {
                None => idle.with_rng(pick.rng).rest(),
                Some(index) => {
                    let r: u32 = xorshift(pick.rng);
                    let from: u8 = self.w[index];
                    let (i, j) = choose|i: int, j: int|
                        0 <= i < j < self.n && pair_index(self.n as int, i, j) == index;
                    match stepped(from as int, unit_of(r) < HALF, 0, self.params.l_w as int) {
                        None => idle.with_rng(r).rest(),
                        Some(to) => idle.with_rng(r).propose(
                            Proposal::Bond {
                                i: i as usize,
                                j: j as usize,
                                index: index as usize,
                                from,
                                to: to as u8,
                            },
                        ),
                    }
                },
            }
        }
    }

    // ------------------------------------------------------------------
    // Verdict
    // ------------------------------------------------------------------
    /// The log after an accepted move is offered to it: kept when logging is
    /// on, the kind is in the mask, and neither the overflow flag nor the
    /// capacity stands in the way; reaching the capacity raises the flag.
    pub open spec fn logged(self, subject: u32, kind: u8, a: u8, b: u8, c: u8, ep_bits: u64)
        -> SimView {
        let p = self.params;
        if !p.accept_log_on || self.log_overflowed || (p.accept_log_mask & (1u32 << (kind as u32)))
            == 0 {
            self
        } else if self.log.len() >= p.accept_log_cap {
            SimView { log_overflowed: true, ..self }
        } else {
            SimView {
                log: self.log.push(
                    Record {
                        step: self.step_count,
                        subject,
                        tags: pack_tags(kind, a, b, c),
                        ep_bits,
                    },
                ),
                ..self
            }
        }
    }

    /// The state with the move of `p` carried out.
    pub open spec fn applied(self, p: Proposal, ep_bits: u64) -> SimView {
        match p {
            Proposal::Particle { .. } => self,
            Proposal::Bond { index, from, to, .. } => SimView {
                w: self.w.update(index as int, to),
                sum_w: (self.sum_w + to - from) as i64,
                ..self
            },
            Proposal::BondMeta { layer, edge, to, .. } => SimView {
                meta_bonds: self.meta_bonds.update(layer * (2 * self.cells()) + edge, to),
                ..self
            },
            Proposal::Apparatus { k, to, .. } => SimView {
                apparatus: self.apparatus.update(k as int, to),
                ..self
            },
            Proposal::ApparatusMeta { layer, cell, to, .. } => SimView {
                meta_apparatus: self.meta_apparatus.update(layer * self.cells() + cell, to),
                ..self
            },
            Proposal::Counter { k, to, .. } => SimView {
                counters: self.counters.update(k as int, to),
                ..self
            },
            Proposal::CounterMeta { layer, cell, to, .. } => SimView {
                meta_counters: self.meta_counters.update(layer * self.cells() + cell, to),
                ..self
            },
            Proposal::Field { cell, from, to, mismatch, dir } => SimView {
                field: self.field.update(cell as int, to),
                sum_s: (self.sum_s + to - from) as i64,
                ..self
            }.logged(cell as u32, MOVE_P5_BASE, 255, mismatch, dir, ep_bits),
            Proposal::FieldMeta { layer, cell, from, to, mismatch, dir } => SimView {
                meta_field: self.meta_field.update(layer * self.cells() + cell, to),
                ..self
            }.logged(cell as u32, MOVE_P5_META, layer as u8, mismatch, dir, ep_bits),
            Proposal::Budget { interface, cell, r_from, r_to } => {
                let a: int = budget_slot(
                    interface as int,
                    cell as int,
                    r_from as int,
                    self.cells(),
                    self.r_count(),
                );
                let b: int = budget_slot(
                    interface as int,
                    cell as int,
                    r_to as int,
                    self.cells(),
                    self.r_count(),
                );
                SimView {
                    budget: self.budget.update(a, (self.budget[a] - 1) as u8).update(
                        b,
                        (self.budget[b] + 1) as u8,
                    ),
                    ..self
                }.logged(cell as u32, MOVE_OPK, 0, r_from as u8, r_to as u8, ep_bits)
            },
            Proposal::Clock { up } => SimView {
                clock: self.clock.ticked(up, self.params.clock_k),
                ..self
            },
        }
    }

    /// The state after an accepted move: the move applied and, under a
    /// drive, counted in its context.
    pub open spec fn committed(self, p: Proposal, v: Verdict) -> SimView {
        let s = self.applied(p, v.ep_bits);
        if s.params.p6_on {
            SimView { diag: s.diag.noted(p, v.high), ..s }
        } else {
            s
        }
    }

    /// Settles the open proposal. A free move is taken outright; any other
    /// costs one draw and is taken when the variate is below the cut.
    pub open spec fn resolve(self, v: Verdict) -> (SimView, Request) {
        match self.pending {
            Phase::Judge(p) => {
                let idle = SimView { pending: Phase::Idle, ..self };
                let r: u32 = xorshift(self.rng);
                let s = if v.free { idle } else { idle.with_rng(r) };
                if v.free || unit_of(r) < v.cut {
                    s.committed(p, v).finished(StepDiag::of(p), true, p.delta())
                } else {
                    s.finished(StepDiag::none(), false, 0)
                }
            },
            _ => (self, Request::Done(Outcome::none())),
        }
    }
}

} // verus!
