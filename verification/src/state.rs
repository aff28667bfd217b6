//! The simulation state, its mathematical view, and the invariant that every
//! operation keeps.

use vstd::prelude::*;
use crate::grid::{budget_slot, stencil_len};
use crate::index::{pair_count, pair_index};
use crate::params::{Params, MAX_LOG_CAP};
use crate::rng::{Xorshift32, UNIT};
use crate::sums::total;

verus! {

/// Number of move kinds that bookkeeping tells apart.
pub const MOVE_KIND_COUNT: usize = 11;

/// Particle move.
pub const MOVE_X: u8 = 0;

/// Bond write on the base layer.
pub const MOVE_P1_BASE: u8 = 1;

/// Bond write on a meta layer.
pub const MOVE_P1_META: u8 = 2;

/// Apparatus write on the base layer.
pub const MOVE_P2_BASE: u8 = 3;

/// Apparatus write on a meta layer.
pub const MOVE_P2_META: u8 = 4;

/// Counter write on the base layer.
pub const MOVE_P4_BASE: u8 = 5;

/// Counter write on a meta layer.
pub const MOVE_P4_META: u8 = 6;

/// Field write on the base layer.
pub const MOVE_P5_BASE: u8 = 7;

/// Field write on a meta layer.
pub const MOVE_P5_META: u8 = 8;

/// Budget transfer between two directions.
pub const MOVE_OPK: u8 = 9;

/// Clock tick.
pub const MOVE_CLOCK: u8 = 10;

/// The cyclic clock: a state on a ring, the net number of ticks, and the
/// forward and backward ticks counted apart.
#[derive(Clone, Copy, Debug)]
pub struct Clock {
    pub state: u8,
    pub net: i64,
    pub fwd: u64,
    pub bwd: u64,
}

impl Clock {
    /// The state is on the ring of `k`, and the net count is the difference
    /// of the two tick counts.
    pub open spec fn wf(self, k: u8) -> bool {
        &&& self.state < k
        &&& self.fwd <= i64::MAX
        &&& self.bwd <= i64::MAX
        &&& self.net == self.fwd - self.bwd
    }

    /// The clock one tick on, forward or backward around a ring of `k`. A
    /// direction whose tick count has reached its ceiling no longer moves.
    pub open spec fn ticked(self, up: bool, k: u8) -> Clock {
        if up {
            if self.fwd >= i64::MAX {
                self
            } else {
                Clock {
                    state: if self.state + 1 >= k { 0 } else { (self.state + 1) as u8 },
                    net: (self.net + 1) as i64,
                    fwd: (self.fwd + 1) as u64,
                    bwd: self.bwd,
                }
            }
        } else {
            if self.bwd >= i64::MAX {
                self
            } else {
                Clock {
                    state: if self.state == 0 { (k - 1) as u8 } else { (self.state - 1) as u8 },
                    net: (self.net - 1) as i64,
                    fwd: self.fwd,
                    bwd: (self.bwd + 1) as u64,
                }
            }
        }
    }
}

/// What one step contributes to the counts: at most one accepted up or down
/// move of one variable.
#[derive(Clone, Copy, Debug)]
pub struct StepDiag {
    pub w_plus: u32,
    pub w_minus: u32,
    pub n_plus: u32,
    pub n_minus: u32,
    pub a_plus: u32,
    pub a_minus: u32,
    pub s_plus: u32,
    pub s_minus: u32,
}

/// Running counts of accepted moves, per variable and direction, and again
/// split by the context (high or low chemical potential) they happened in.
#[derive(Clone, Copy, Debug)]
pub struct DiagTotals {
    pub steps: u32,
    pub w_plus: u32,
    pub w_minus: u32,
    pub n_plus: u32,
    pub n_minus: u32,
    pub a_plus: u32,
    pub a_minus: u32,
    pub s_plus: u32,
    pub s_minus: u32,
    pub w_plus_h: u32,
    pub w_minus_h: u32,
    pub w_plus_l: u32,
    pub w_minus_l: u32,
    pub n_plus_h: u32,
    pub n_minus_h: u32,
    pub n_plus_l: u32,
    pub n_minus_l: u32,
    pub a_plus_h: u32,
    pub a_minus_h: u32,
    pub a_plus_l: u32,
    pub a_minus_l: u32,
    pub s_plus_h: u32,
    pub s_minus_h: u32,
    pub s_plus_l: u32,
    pub s_minus_l: u32,
}

/// Addition that stops at the ceiling of a 32-bit count.
pub open spec fn sat_add(a: u32, b: u32) -> u32 {
    if a + b > u32::MAX {
        u32::MAX
    } else {
        (a + b) as u32
    }
}

/// One accepted move as the log keeps it: the step it happened in, the cell
/// or slot it touched, the packed kind and tags, and the bit pattern of the
/// entropy it produced.
#[derive(Clone, Copy, Debug)]
pub struct Record {
    pub step: u32,
    pub subject: u32,
    pub tags: u32,
    pub ep_bits: u64,
}

/// A move that awaits its verdict. Every write proposes `to` one unit away
/// from `from`, the value currently stored.
#[derive(Clone, Copy, Debug)]
#[allow(inconsistent_fields)]
pub enum Proposal {
    /// Displace particle `i`; the two variates fix the displacement.
    Particle { i: usize, ux: u32, uy: u32 },
    /// Write the weight of the pair `(i, j)` stored at `index`.
    Bond { i: usize, j: usize, index: usize, from: u8, to: u8 },
    BondMeta { layer: usize, edge: usize, from: u8, to: u8 },
    Apparatus { k: usize, from: u16, to: u16 },
    ApparatusMeta { layer: usize, cell: usize, from: u16, to: u16 },
    Counter { k: usize, from: i16, to: i16 },
    CounterMeta { layer: usize, cell: usize, from: i16, to: i16 },
    /// Write the base field; `mismatch` and `dir` are the tags the log keeps.
    Field { cell: usize, from: u8, to: u8, mismatch: u8, dir: u8 },
    FieldMeta { layer: usize, cell: usize, from: u8, to: u8, mismatch: u8, dir: u8 },
    /// Move one unit of budget from direction `r_from` to `r_to`.
    Budget { interface: usize, cell: usize, r_from: usize, r_to: usize },
    Clock { up: bool },
}

impl Proposal {
    /// The move kind that bookkeeping files this proposal under.
    pub open spec fn kind(self) -> u8 {
        match self {
            Proposal::Particle { .. } => MOVE_X,
            Proposal::Bond { .. } => MOVE_P1_BASE,
            Proposal::BondMeta { .. } => MOVE_P1_META,
            Proposal::Apparatus { .. } => MOVE_P2_BASE,
            Proposal::ApparatusMeta { .. } => MOVE_P2_META,
            Proposal::Counter { .. } => MOVE_P4_BASE,
            Proposal::CounterMeta { .. } => MOVE_P4_META,
            Proposal::Field { .. } => MOVE_P5_BASE,
            Proposal::FieldMeta { .. } => MOVE_P5_META,
            Proposal::Budget { .. } => MOVE_OPK,
            Proposal::Clock { .. } => MOVE_CLOCK,
        }
    }

    /// The signed unit a write would add: +1, -1, or 0 for moves that are
    /// no write of a scalar.
    pub open spec fn delta(self) -> i8 {
        match self {
            Proposal::Bond { from, to, .. } => if to > from { 1i8 } else { -1i8 },
            Proposal::BondMeta { from, to, .. } => if to > from { 1i8 } else { -1i8 },
            Proposal::Apparatus { from, to, .. } => if to > from { 1i8 } else { -1i8 },
            Proposal::ApparatusMeta { from, to, .. } => if to > from { 1i8 } else { -1i8 },
            Proposal::Counter { from, to, .. } => if to > from { 1i8 } else { -1i8 },
            Proposal::CounterMeta { from, to, .. } => if to > from { 1i8 } else { -1i8 },
            Proposal::Field { from, to, .. } => if to > from { 1i8 } else { -1i8 },
            Proposal::FieldMeta { from, to, .. } => if to > from { 1i8 } else { -1i8 },
            _ => 0i8,
        }
    }

    /// Computes `kind`.
    pub fn move_kind(&self) -> (k: u8)
        ensures
            k == self.kind(),
            k < MOVE_KIND_COUNT,
    {
        match self {
            Proposal::Particle { .. } => MOVE_X,
            Proposal::Bond { .. } => MOVE_P1_BASE,
            Proposal::BondMeta { .. } => MOVE_P1_META,
            Proposal::Apparatus { .. } => MOVE_P2_BASE,
            Proposal::ApparatusMeta { .. } => MOVE_P2_META,
            Proposal::Counter { .. } => MOVE_P4_BASE,
            Proposal::CounterMeta { .. } => MOVE_P4_META,
            Proposal::Field { .. } => MOVE_P5_BASE,
            Proposal::FieldMeta { .. } => MOVE_P5_META,
            Proposal::Budget { .. } => MOVE_OPK,
            Proposal::Clock { .. } => MOVE_CLOCK,
        }
    }
}

/// Where a step stands between two calls.
#[derive(Clone, Copy, Debug)]
pub enum Phase {
    /// No step is under way.
    Idle,
    /// The bond kernel waits to learn which pairs are within reach.
    Pairs,
    /// A proposal waits for its verdict.
    Judge(Proposal),
}

/// The host's judgement of a proposal.
///
/// `free` says that the move costs nothing and is taken outright. Otherwise
/// it is taken when a fresh variate falls below `cut`. `high` names the
/// context the move happens in, and `ep_bits` is what the log records should
/// the move be taken.
#[derive(Clone, Copy, Debug)]
pub struct Verdict {
    pub free: bool,
    pub cut: u32,
    pub high: bool,
    pub ep_bits: u64,
}

/// How a step ended.
#[derive(Clone, Copy, Debug)]
pub struct Outcome {
    /// Whether a proposal was judged and taken.
    pub accepted: bool,
    /// The unit added to the written scalar, if one was written.
    pub delta: i8,
    /// Whether this step completed a protocol cycle.
    pub cycle_closed: bool,
}

impl Outcome {
    /// The outcome of doing nothing.
    pub open spec fn none() -> Outcome {
        Outcome { accepted: false, delta: 0, cycle_closed: false }
    }
}

/// What the engine needs next.
#[derive(Clone, Copy, Debug)]
pub enum Request {
    /// Nothing: the step is over.
    Done(Outcome),
    /// The list of pairs within the proposal radius.
    Pairs,
    /// A verdict on this proposal.
    Judge(Proposal),
}

/// A simulation: the discrete state of the chain, its generator, its
/// configuration, and the step under way. Particle positions and energies
/// live with the host.
pub struct Sim {
    pub(crate) n: usize,
    pub(crate) params: Params,
    pub(crate) rng: Xorshift32,
    pub(crate) step_count: u32,
    pub(crate) w: Vec<u8>,
    pub(crate) n_counter: Vec<i16>,
    pub(crate) a_counter: Vec<u16>,
    pub(crate) s_field: Vec<u8>,
    pub(crate) meta_field: Vec<u8>,
    pub(crate) meta_n_field: Vec<i16>,
    pub(crate) meta_a_field: Vec<u16>,
    pub(crate) meta_w_edges: Vec<u8>,
    pub(crate) op_k: Vec<u8>,
    pub(crate) sum_w: i64,
    pub(crate) sum_s: i64,
    pub(crate) diag: DiagTotals,
    pub(crate) phase: u8,
    pub(crate) p3_cycle_len: u8,
    pub(crate) p3_obs1: Vec<i64>,
    pub(crate) p3_obs2: Vec<i64>,
    pub(crate) accept_log: Vec<Record>,
    pub(crate) accept_log_overflowed: bool,
    pub(crate) clock: Clock,
    pub(crate) pending: Phase,
}

/// The state as mathematics sees it.
#[verifier::ext_equal]
pub struct SimView {
    pub n: nat,
    pub params: Params,
    pub rng: u32,
    pub step_count: u32,
    pub w: Seq<u8>,
    pub counters: Seq<i16>,
    pub apparatus: Seq<u16>,
    pub field: Seq<u8>,
    pub meta_field: Seq<u8>,
    pub meta_counters: Seq<i16>,
    pub meta_apparatus: Seq<u16>,
    pub meta_bonds: Seq<u8>,
    pub budget: Seq<u8>,
    pub sum_w: i64,
    pub sum_s: i64,
    pub diag: DiagTotals,
    pub phase: u8,
    pub cycle_len: u8,
    pub obs_w: Seq<i64>,
    pub obs_s: Seq<i64>,
    pub log: Seq<Record>,
    pub log_overflowed: bool,
    pub clock: Clock,
    pub pending: Phase,
}

impl View for Sim {
    type V = SimView;

    open(crate) spec fn view(&self) -> SimView {
        SimView {
            n: self.n as nat,
            params: self.params,
            rng: self.rng@,
            step_count: self.step_count,
            w: self.w@,
            counters: self.n_counter@,
            apparatus: self.a_counter@,
            field: self.s_field@,
            meta_field: self.meta_field@,
            meta_counters: self.meta_n_field@,
            meta_apparatus: self.meta_a_field@,
            meta_bonds: self.meta_w_edges@,
            budget: self.op_k@,
            sum_w: self.sum_w,
            sum_s: self.sum_s,
            diag: self.diag,
            phase: self.phase,
            cycle_len: self.p3_cycle_len,
            obs_w: self.p3_obs1@,
            obs_s: self.p3_obs2@,
            log: self.accept_log@,
            log_overflowed: self.accept_log_overflowed,
            clock: self.clock,
            pending: self.pending,
        }
    }
}

/// Sum of the weights that cell `c` holds, one per stencil direction.
pub open spec fn cell_budget(budget: Seq<u8>, c: int, r_count: int) -> int {
    total(budget.subrange(c * r_count, c * r_count + r_count))
}

/// `to` is one unit from `from` and within `0 ..= top`.
pub open spec fn unit_step(from: int, to: int, low: int, top: int) -> bool {
    &&& (to == from + 1 || to == from - 1)
    &&& low <= to <= top
    &&& low <= from <= top
}

impl SimView {
    /// Cells of one grid layer.
    pub open spec fn cells(self) -> int {
        self.params.cells()
    }

    /// Layers of the meta tower.
    pub open spec fn layers(self) -> int {
        self.params.meta_layers as int
    }

    /// Directions of the stencil in use.
    pub open spec fn r_count(self) -> int {
        stencil_len(self.params.op_stencil)
    }

    /// Whether the prediction kernel exists: coupling on over at least one layer.
    pub open spec fn coupled(self) -> bool {
        self.params.op_coupling_on && self.params.meta_layers > 0
    }

    /// Every array has the length the configuration calls for.
    pub open spec fn shape_ok(self) -> bool {
        &&& pair_count(self.n as int) <= u32::MAX
        &&& self.w.len() == pair_count(self.n as int)
        &&& self.counters.len() == self.n
        &&& self.apparatus.len() == self.n
        &&& self.field.len() == self.cells()
        &&& self.meta_field.len() == self.layers() * self.cells()
        &&& self.meta_counters.len() == self.layers() * self.cells()
        &&& self.meta_apparatus.len() == self.layers() * self.cells()
        &&& self.meta_bonds.len() == self.layers() * (2 * self.cells())
        &&& self.budget.len() == (if self.coupled() {
            self.layers() * self.cells() * self.r_count()
        } else {
            0
        })
    }

    /// Bond weights lie in `0 ..= l_w`.
    pub open spec fn bounds_w(self) -> bool {
        &&& forall|i: int| 0 <= i < self.w.len() ==> #[trigger] self.w[i] <= self.params.l_w
        &&& forall|i: int|
            0 <= i < self.meta_bonds.len() ==> #[trigger] self.meta_bonds[i] <= self.params.l_w
    }

    /// Counters lie in `-l_n ..= l_n`.
    pub open spec fn bounds_n(self) -> bool {
        &&& forall|i: int|
            0 <= i < self.counters.len() ==> -self.params.l_n <= #[trigger] self.counters[i]
                <= self.params.l_n
        &&& forall|i: int|
            0 <= i < self.meta_counters.len() ==> -self.params.l_n
                <= #[trigger] self.meta_counters[i] <= self.params.l_n
    }

    /// Apparatus values lie in `0 ..= l_a`.
    pub open spec fn bounds_a(self) -> bool {
        &&& forall|i: int|
            0 <= i < self.apparatus.len() ==> #[trigger] self.apparatus[i] <= self.params.l_a
        &&& forall|i: int|
            0 <= i < self.meta_apparatus.len() ==> #[trigger] self.meta_apparatus[i]
                <= self.params.l_a
    }

    /// Field values lie in `0 ..= l_s`.
    pub open spec fn bounds_s(self) -> bool {
        &&& forall|i: int| 0 <= i < self.field.len() ==> #[trigger] self.field[i] <= self.params.l_s
        &&& forall|i: int|
            0 <= i < self.meta_field.len() ==> #[trigger] self.meta_field[i] <= self.params.l_s
    }

    /// Every scalar lies within its configured bound.
    pub open spec fn bounds_ok(self) -> bool {
        &&& self.bounds_w()
        &&& self.bounds_n()
        &&& self.bounds_a()
        &&& self.bounds_s()
    }

    /// The running sums equal the sums of the arrays they track.
    pub open spec fn sums_ok(self) -> bool {
        &&& self.sum_w == total(self.w)
        &&& self.sum_s == total(self.field)
    }

    /// At every interface and cell the directional weights add up to the budget.
    pub open spec fn budget_ok(self) -> bool {
        forall|c: int|
            0 <= c < self.layers() * self.cells() && self.coupled() ==> #[trigger] cell_budget(
                self.budget,
                c,
                self.r_count(),
            ) == self.params.op_budget_k
    }

    /// The protocol cycle keeps one observable pair per slot and a phase
    /// inside the cycle.
    pub open spec fn cycle_ok(self) -> bool {
        &&& self.cycle_len <= 5
        &&& self.obs_w.len() == self.cycle_len
        &&& self.obs_s.len() == self.cycle_len
        &&& (self.cycle_len == 0 ==> self.phase == 0)
        &&& (self.cycle_len > 0 ==> self.phase < self.cycle_len)
    }

    /// Whether `p` is a legal move on this state.
    pub open spec fn admits(self, p: Proposal) -> bool {
        match p {
            Proposal::Particle { i, ux, uy } => i < self.n && ux < UNIT && uy < UNIT,
            Proposal::Bond { i, j, index, from, to } => {
                &&& i < j < self.n
                &&& index == pair_index(self.n as int, i as int, j as int)
                &&& self.w[index as int] == from
                &&& unit_step(from as int, to as int, 0, self.params.l_w as int)
            },
            Proposal::BondMeta { layer, edge, from, to } => {
                &&& layer < self.layers()
                &&& edge < 2 * self.cells()
                &&& self.meta_bonds[layer * (2 * self.cells()) + edge] == from
                &&& unit_step(from as int, to as int, 0, self.params.l_w as int)
            },
            Proposal::Apparatus { k, from, to } => {
                &&& k < self.n
                &&& self.apparatus[k as int] == from
                &&& unit_step(from as int, to as int, 0, self.params.l_a as int)
            },
            Proposal::ApparatusMeta { layer, cell, from, to } => {
                &&& layer < self.layers()
                &&& cell < self.cells()
                &&& self.meta_apparatus[layer * self.cells() + cell] == from
                &&& unit_step(from as int, to as int, 0, self.params.l_a as int)
            },
            Proposal::Counter { k, from, to } => {
                &&& k < self.n
                &&& self.counters[k as int] == from
                &&& unit_step(from as int, to as int, -self.params.l_n, self.params.l_n as int)
            },
            Proposal::CounterMeta { layer, cell, from, to } => {
                &&& layer < self.layers()
                &&& cell < self.cells()
                &&& self.meta_counters[layer * self.cells() + cell] == from
                &&& unit_step(from as int, to as int, -self.params.l_n, self.params.l_n as int)
            },
            Proposal::Field { cell, from, to, mismatch, dir } => {
                &&& cell < self.cells()
                &&& self.field[cell as int] == from
                &&& unit_step(from as int, to as int, 0, self.params.l_s as int)
            },
            Proposal::FieldMeta { layer, cell, from, to, mismatch, dir } => {
                &&& layer < self.layers()
                &&& cell < self.cells()
                &&& self.meta_field[layer * self.cells() + cell] == from
                &&& unit_step(from as int, to as int, 0, self.params.l_s as int)
                &&& self.gate_open(cell as int)
            },
            Proposal::Budget { interface, cell, r_from, r_to } => {
                &&& self.coupled()
                &&& interface < self.layers()
                &&& cell < self.cells()
                &&& r_from < self.r_count()
                &&& r_to < self.r_count()
                &&& r_from != r_to
                &&& self.budget[budget_slot(
                    interface as int,
                    cell as int,
                    r_from as int,
                    self.cells(),
                    self.r_count(),
                )] > 0
            },
            Proposal::Clock { up } => true,
        }
    }

    /// Every scalar outside the tower's field, the prediction kernel, the
    /// clock and the log are those of `other`.
    pub open spec fn untouched(self, other: SimView) -> bool {
        &&& self.w == other.w
        &&& self.counters == other.counters
        &&& self.apparatus == other.apparatus
        &&& self.field == other.field
        &&& self.meta_counters == other.meta_counters
        &&& self.meta_apparatus == other.meta_apparatus
        &&& self.meta_bonds == other.meta_bonds
        &&& self.budget == other.budget
        &&& self.sum_w == other.sum_w
        &&& self.sum_s == other.sum_s
        &&& self.clock == other.clock
        &&& self.log == other.log
        &&& self.log_overflowed == other.log_overflowed
    }

    /// The log is no shorter than that of `other`; if `other` had
    /// overflowed, the log is the same and the flag still stands.
    pub open spec fn log_extends(self, other: SimView) -> bool {
        &&& other.log.len() <= self.log.len()
        &&& (other.log_overflowed ==> self.log_overflowed && self.log == other.log)
    }

    /// Particle count, configuration and step count are those of `other`,
    /// and the log extends that of `other`.
    pub open spec fn anchored(self, other: SimView) -> bool {
        &&& self.n == other.n
        &&& self.params == other.params
        &&& self.step_count == other.step_count
        &&& self.log_extends(other)
    }

    /// The open request, if any, is `r`.
    pub open spec fn awaits(self, r: Request) -> bool {
        match r {
            Request::Done(_) => self.pending is Idle,
            Request::Pairs => self.pending is Pairs,
            Request::Judge(p) => self.pending == Phase::Judge(p),
        }
    }

    /// A step under way fits the state it was begun on.
    pub open spec fn pending_ok(self) -> bool {
        match self.pending {
            Phase::Idle => true,
            Phase::Pairs => self.w.len() > 0 && self.cycle_fits(),
            Phase::Judge(p) => self.admits(p) && self.cycle_fits(),
        }
    }

    /// In protocol mode the cycle in progress has the length the rates call for.
    pub open spec fn cycle_fits(self) -> bool {
        self.params.p3_on ==> self.cycle_len == self.params.rates.cycle_len()
    }

    /// The invariant: configuration in range, arrays of the right shape,
    /// scalars within bounds, sums exact, budgets kept, clock on its ring.
    pub open spec fn wf(self) -> bool {
        &&& self.params.wf()
        &&& self.shape_ok()
        &&& self.bounds_ok()
        &&& self.sums_ok()
        &&& self.budget_ok()
        &&& self.clock.wf(self.params.clock_k)
        &&& self.cycle_ok()
        &&& self.log.len() <= MAX_LOG_CAP
        &&& self.pending_ok()
    }
}

} // verus!
