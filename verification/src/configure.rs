//! Applying a configuration update: bounds shrink arrays, a new grid or
//! layer count rebuilds them, and a randomise trigger resamples everything.

use vstd::prelude::*;
use crate::index::pair_count;
use crate::params::{lemma_cells_bound, ParamUpdate, Params, MAX_LOG_CAP};
use crate::rng::stream;
use crate::sampling::{
    clamp_i16, clamp_u16, clamp_u8, clamped_i16, clamped_u16, clamped_u8, fresh_budget,
    resample_each, resample_i16, resample_u16, resample_u8, resampled_each, resampled_i16,
    resampled_u16, resampled_u8, spread_budget, sum_of,
};
use crate::state::{Clock, Phase, Sim, SimView};
use crate::sums::{lemma_total_zeros, total};

verus! {

/// Tables of cuts for resampling, one per variable. Entry `k` of a table is
/// the number of variates that select an index of at most `k`. Bonds on the
/// base layer have a table per pair, in pair order; the counter table runs
/// over `-l_n ..= l_n` shifted to start at 0.
pub struct SamplingTables {
    pub bond: Vec<Vec<u32>>,
    pub bond_meta: Vec<u32>,
    pub counter: Vec<u32>,
    pub apparatus: Vec<u32>,
    pub field: Vec<u32>,
}

/// The tables as sequences.
pub struct TablesView {
    pub bond: Seq<Seq<u32>>,
    pub bond_meta: Seq<u32>,
    pub counter: Seq<u32>,
    pub apparatus: Seq<u32>,
    pub field: Seq<u32>,
}

impl View for SamplingTables {
    type V = TablesView;

    open spec fn view(&self) -> TablesView {
        TablesView {
            bond: Seq::new(self.bond@.len(), |k: int| self.bond@[k]@),
            bond_meta: self.bond_meta@,
            counter: self.counter@,
            apparatus: self.apparatus@,
            field: self.field@,
        }
    }
}

impl SamplingTables {
    /// No tables: every resampled value is the top of its range.
    pub fn empty() -> (t: SamplingTables)
        ensures
            t@.bond.len() == 0,
            t@.bond_meta.len() == 0,
            t@.counter.len() == 0,
            t@.apparatus.len() == 0,
            t@.field.len() == 0,
    {
        SamplingTables {
            bond: Vec::new(),
            bond_meta: Vec::new(),
            counter: Vec::new(),
            apparatus: Vec::new(),
            field: Vec::new(),
        }
    }
}

/// `len` zeros.
pub open spec fn zeros_u8(len: int) -> Seq<u8> {
    Seq::new(len as nat, |i: int| 0u8)
}

impl SimView {
    /// Grid and layer count are those of `prev`.
    pub open spec fn tower_kept(self, prev: Params) -> bool {
        self.params.grid_size == prev.grid_size && self.params.meta_layers == prev.meta_layers
    }

    /// The prediction kernel exists and nothing that shapes it differs from `prev`.
    pub open spec fn kernel_kept(self, prev: Params) -> bool {
        &&& self.tower_kept(prev)
        &&& self.coupled()
        &&& prev.op_coupling_on
        &&& self.params.op_stencil == prev.op_stencil
        &&& self.params.op_budget_k == prev.op_budget_k
    }

    /// What holds in the middle of an update: all of the invariant that does
    /// not depend on the meta tower, and the tower's part where the tower is
    /// still the one of `prev`.
    pub open spec fn loose(self, prev: Params) -> bool {
        &&& self.params.wf()
        &&& pair_count(self.n as int) <= u32::MAX
        &&& self.w.len() == pair_count(self.n as int)
        &&& self.counters.len() == self.n
        &&& self.apparatus.len() == self.n
        &&& self.field.len() == self.cells()
        &&& self.bounds_ok()
        &&& self.sums_ok()
        &&& self.clock.fwd <= i64::MAX
        &&& self.clock.bwd <= i64::MAX
        &&& self.clock.net == self.clock.fwd - self.clock.bwd
        &&& self.cycle_ok()
        &&& self.log.len() <= MAX_LOG_CAP
        &&& self.pending is Idle
        &&& (self.tower_kept(prev) ==> {
            &&& self.meta_field.len() == self.layers() * self.cells()
            &&& self.meta_counters.len() == self.layers() * self.cells()
            &&& self.meta_apparatus.len() == self.layers() * self.cells()
            &&& self.meta_bonds.len() == self.layers() * (2 * self.cells())
        })
        &&& (self.kernel_kept(prev) ==> {
            &&& self.budget.len() == self.layers() * self.cells() * self.r_count()
            &&& self.budget_ok()
        })
    }

    /// The new configuration in place; a change of the protocol switch
    /// restarts the cycle, and an open request is dropped.
    pub open spec fn retimed(self, u: ParamUpdate) -> SimView {
        let p = self.params.merged(u);
        let restart: bool = p.p3_on != self.params.p3_on;
        SimView {
            params: p,
            phase: if restart { 0 } else { self.phase },
            cycle_len: if restart { 0 } else { self.cycle_len },
            obs_w: if restart { Seq::empty() } else { self.obs_w },
            obs_s: if restart { Seq::empty() } else { self.obs_s },
            pending: Phase::Idle,
            ..self
        }
    }

    /// A given bond bound enforced on both bond arrays, and the sum taken anew.
    pub open spec fn bounded_w(self, u: ParamUpdate) -> SimView {
        if u.l_w is Some {
            let w = clamped_u8(self.w, self.params.l_w);
            SimView {
                w,
                meta_bonds: clamped_u8(self.meta_bonds, self.params.l_w),
                sum_w: total(w) as i64,
                ..self
            }
        } else {
            self
        }
    }

    /// A given counter bound enforced on both counter arrays.
    pub open spec fn bounded_n(self, u: ParamUpdate) -> SimView {
        if u.l_n is Some {
            SimView {
                counters: clamped_i16(self.counters, self.params.l_n),
                meta_counters: clamped_i16(self.meta_counters, self.params.l_n),
                ..self
            }
        } else {
            self
        }
    }

    /// A given apparatus bound enforced on both apparatus arrays.
    pub open spec fn bounded_a(self, u: ParamUpdate) -> SimView {
        if u.l_a is Some {
            SimView {
                apparatus: clamped_u16(self.apparatus, self.params.l_a),
                meta_apparatus: clamped_u16(self.meta_apparatus, self.params.l_a),
                ..self
            }
        } else {
            self
        }
    }

    /// A given field bound enforced on both field arrays, and then, where the
    /// grid size differs from `grid`, the base field started afresh at zero;
    /// either way the sum is taken anew.
    pub open spec fn bounded_s(self, u: ParamUpdate, grid: u16) -> SimView {
        let meta_field = if u.l_s is Some {
            clamped_u8(self.meta_field, self.params.l_s)
        } else {
            self.meta_field
        };
        if self.params.grid_size != grid {
            SimView { field: zeros_u8(self.cells()), meta_field, sum_s: 0, ..self }
        } else if u.l_s is Some {
            let field = clamped_u8(self.field, self.params.l_s);
            SimView { field, meta_field, sum_s: total(field) as i64, ..self }
        } else {
            self
        }
    }

    /// First part of an update: configuration, bounds, grid.
    pub open spec fn reconfigured(self, u: ParamUpdate) -> SimView {
        self.retimed(u).bounded_w(u).bounded_n(u).bounded_a(u).bounded_s(u, self.params.grid_size)
    }

    /// Every scalar resampled from its table, array by array and entry by
    /// entry, one draw each: bonds, counters, apparatus, base field, then, if
    /// there is a tower, its field, counters, apparatus and bonds. The
    /// prediction kernel starts afresh and the sums are taken anew.
    pub open spec fn randomized(self, t: TablesView) -> SimView {
        let p = self.params;
        let tower: bool = p.meta_layers > 0;
        let g1: u32 = stream(self.rng, self.w.len());
        let g2: u32 = stream(g1, self.counters.len());
        let g3: u32 = stream(g2, self.apparatus.len());
        let g4: u32 = stream(g3, self.field.len());
        let g5: u32 = stream(g4, self.meta_field.len());
        let g6: u32 = stream(g5, self.meta_counters.len());
        let g7: u32 = stream(g6, self.meta_apparatus.len());
        let g8: u32 = stream(g7, self.meta_bonds.len());
        let w = resampled_each(self.w.len(), self.rng, t.bond, p.l_w);
        let field = resampled_u8(self.field.len(), g3, t.field, p.l_s);
        SimView {
            rng: if tower { g8 } else { g4 },
            w,
            counters: resampled_i16(self.counters.len(), g1, t.counter, p.l_n),
            apparatus: resampled_u16(self.apparatus.len(), g2, t.apparatus, p.l_a),
            field,
            meta_field: if tower {
                resampled_u8(self.meta_field.len(), g4, t.field, p.l_s)
            } else {
                self.meta_field
            },
            meta_counters: if tower {
                resampled_i16(self.meta_counters.len(), g5, t.counter, p.l_n)
            } else {
                self.meta_counters
            },
            meta_apparatus: if tower {
                resampled_u16(self.meta_apparatus.len(), g6, t.apparatus, p.l_a)
            } else {
                self.meta_apparatus
            },
            meta_bonds: if tower {
                resampled_u8(self.meta_bonds.len(), g7, t.bond_meta, p.l_w)
            } else {
                self.meta_bonds
            },
            budget: if self.coupled() {
                fresh_budget(
                    (self.layers() * self.cells() * self.r_count()) as nat,
                    self.r_count(),
                    p.op_budget_k,
                )
            } else {
                Seq::empty()
            },
            sum_w: total(w) as i64,
            sum_s: total(field) as i64,
            ..self
        }
    }

    /// Last part of an update: a clock state off the ring returns to 0, a
    /// changed grid size or layer count rebuilds the tower at zero, and the
    /// prediction kernel is dropped, rebuilt or kept as the coupling
    /// options say.
    pub open spec fn settled(self, prev: Params) -> SimView {
        let p = self.params;
        let slots: int = self.layers() * self.cells();
        let rebuilt: bool = !self.tower_kept(prev);
        SimView {
            clock: if self.clock.state >= p.clock_k {
                Clock { state: 0, ..self.clock }
            } else {
                self.clock
            },
            meta_field: if rebuilt { zeros_u8(slots) } else { self.meta_field },
            meta_counters: if rebuilt {
                Seq::new(slots as nat, |i: int| 0i16)
            } else {
                self.meta_counters
            },
            meta_apparatus: if rebuilt {
                Seq::new(slots as nat, |i: int| 0u16)
            } else {
                self.meta_apparatus
            },
            meta_bonds: if rebuilt { zeros_u8(2 * slots) } else { self.meta_bonds },
            budget: if !self.coupled() {
                Seq::empty()
            } else if !self.kernel_kept(prev) {
                fresh_budget((slots * self.r_count()) as nat, self.r_count(), p.op_budget_k)
            } else {
                self.budget
            },
            ..self
        }
    }

    /// The state after an update.
    pub open spec fn configured(self, u: ParamUpdate, t: TablesView) -> SimView {
        let a = self.reconfigured(u);
        let b = if u.init_random == Some(true) { a.randomized(t) } else { a };
        b.settled(self.params)
    }
}

impl Sim {
    /// Takes the sum of the bond weights anew.
    pub(crate) fn recompute_sum_w(&mut self)
        requires
            old(self)@.w.len() <= u32::MAX,
        ensures
            final(self)@ == (SimView { sum_w: total(old(self)@.w) as i64, ..old(self)@ }),
            final(self)@.sum_w == total(old(self)@.w),
    {
        self.sum_w = sum_of(&self.w);
    }

    /// Takes the sum of the base field anew.
    pub(crate) fn recompute_sum_s(&mut self)
        requires
            old(self)@.field.len() <= u32::MAX,
        ensures
            final(self)@ == (SimView { sum_s: total(old(self)@.field) as i64, ..old(self)@ }),
            final(self)@.sum_s == total(old(self)@.field),
    {
        self.sum_s = sum_of(&self.s_field);
    }

    fn retime(&mut self, u: &ParamUpdate)
        requires
            old(self)@.wf(),
        ensures
            final(self)@ == old(self)@.retimed(*u),
            final(self)@.params.wf(),
            final(self)@.cycle_ok(),
    {
        let prev: Params = self.params;
        let p: Params = prev.merge(u);
        self.params = p;
        self.pending = Phase::Idle;
        if p.p3_on != prev.p3_on {
            self.phase = 0;
            self.p3_cycle_len = 0;
            self.p3_obs1 = Vec::new();
            self.p3_obs2 = Vec::new();
        }
    }

    fn bound_w(&mut self, u: &ParamUpdate)
        requires
            old(self)@.w.len() <= u32::MAX,
            u.l_w is None ==> old(self)@.bounds_w() && old(self)@.sum_w == total(old(self)@.w),
        ensures
            final(self)@ == old(self)@.bounded_w(*u),
            final(self)@.bounds_w(),
            final(self)@.sum_w == total(final(self)@.w),
    {
        if u.l_w.is_some() {
            clamp_u8(&mut self.w, self.params.l_w);
            clamp_u8(&mut self.meta_w_edges, self.params.l_w);
            self.recompute_sum_w();
        }
    }

    fn bound_n(&mut self, u: &ParamUpdate)
        requires
            old(self)@.params.l_n >= 1,
            u.l_n is None ==> old(self)@.bounds_n(),
        ensures
            final(self)@ == old(self)@.bounded_n(*u),
            final(self)@.bounds_n(),
    {
        if u.l_n.is_some() {
            clamp_i16(&mut self.n_counter, self.params.l_n);
            clamp_i16(&mut self.meta_n_field, self.params.l_n);
        }
    }

    fn bound_a(&mut self, u: &ParamUpdate)
        requires
            u.l_a is None ==> old(self)@.bounds_a(),
        ensures
            final(self)@ == old(self)@.bounded_a(*u),
            final(self)@.bounds_a(),
    {
        if u.l_a.is_some() {
            clamp_u16(&mut self.a_counter, self.params.l_a);
            clamp_u16(&mut self.meta_a_field, self.params.l_a);
        }
    }

    fn bound_s(&mut self, u: &ParamUpdate, grid: u16)
        requires
            old(self)@.params.wf(),
            old(self)@.params.grid_size == grid ==> old(self)@.field.len() == old(self)@.cells(),
            u.l_s is None ==> old(self)@.bounds_s() && old(self)@.sum_s == total(old(self)@.field),
        ensures
            final(self)@ == old(self)@.bounded_s(*u, grid),
            final(self)@.bounds_s(),
            final(self)@.sum_s == total(final(self)@.field),
            final(self)@.field.len() == final(self)@.cells(),
    {
        proof {
            lemma_cells_bound(self.params);
        }
        if u.l_s.is_some() {
            clamp_u8(&mut self.meta_field, self.params.l_s);
        }
        if self.params.grid_size != grid {
            let cells: usize = self.cells();
            self.s_field = vec![0u8; cells];
            self.sum_s = 0;
            proof {
                lemma_total_zeros(self.s_field@);
                assert(self.s_field@ =~= zeros_u8(self@.cells()));
            }
        } else if u.l_s.is_some() {
            clamp_u8(&mut self.s_field, self.params.l_s);
            self.recompute_sum_s();
        }
    }

    fn reconfigure(&mut self, u: &ParamUpdate)
        requires
            old(self)@.wf(),
        ensures
            final(self)@ == old(self)@.reconfigured(*u),
            final(self)@.loose(old(self)@.params),
    {
        let grid: u16 = self.params.grid_size;
        self.retime(u);
        self.bound_w(u);
        self.bound_n(u);
        self.bound_a(u);
        self.bound_s(u, grid);
    }

    /// Resamples every scalar from the given tables.
    pub(crate) fn randomize_state(&mut self, t: &SamplingTables, Ghost(prev): Ghost<Params>)
        requires
            old(self)@.loose(prev),
        ensures
            final(self)@ == old(self)@.randomized(t@),
            final(self)@.loose(prev),
    {
        let p: Params = self.params;
        proof {
            lemma_cells_bound(p);
        }
        resample_each(&mut self.w, &mut self.rng, &t.bond, p.l_w);
        resample_i16(&mut self.n_counter, &mut self.rng, &t.counter, p.l_n);
        resample_u16(&mut self.a_counter, &mut self.rng, &t.apparatus, p.l_a);
        resample_u8(&mut self.s_field, &mut self.rng, &t.field, p.l_s);
        if p.meta_layers > 0 {
            resample_u8(&mut self.meta_field, &mut self.rng, &t.field, p.l_s);
            resample_i16(&mut self.meta_n_field, &mut self.rng, &t.counter, p.l_n);
            resample_u16(&mut self.meta_a_field, &mut self.rng, &t.apparatus, p.l_a);
            resample_u8(&mut self.meta_w_edges, &mut self.rng, &t.bond_meta, p.l_w);
        }
        self.init_op_k();
        self.recompute_sum_w();
        self.recompute_sum_s();
    }

    /// Starts the prediction kernel afresh, or drops it where coupling is
    /// off or there is no tower.
    pub(crate) fn init_op_k(&mut self)
        requires
            old(self)@.params.wf(),
        ensures
            final(self)@ == (SimView {
                budget: if old(self)@.coupled() {
                    fresh_budget(
                        (old(self)@.layers() * old(self)@.cells() * old(self)@.r_count()) as nat,
                        old(self)@.r_count(),
                        old(self)@.params.op_budget_k,
                    )
                } else {
                    Seq::empty()
                },
                ..old(self)@
            }),
            final(self)@.coupled() ==> final(self)@.budget.len() == final(self)@.layers()
                * final(self)@.cells() * final(self)@.r_count(),
            final(self)@.budget_ok(),
    {
        if !self.params.op_coupling_on || self.params.meta_layers == 0 {
            self.op_k = Vec::new();
            return ;
        }
        let layers: usize = self.params.meta_layers as usize;
        let cells: usize = self.cells();
        let rc: usize = self.r_count();
        assert(layers * cells <= 16 * 0x1_0000 && layers * cells * rc <= 16 * 0x1_0000 * 8
            && layers * cells >= 0) by (nonlinear_arith)
            requires
                0 <= layers <= 16,
                0 <= cells <= 0x1_0000,
                0 <= rc <= 8,
        ;
        self.op_k = spread_budget(layers * cells, rc, self.params.op_budget_k);
    }

    /// Rebuilds the meta tower at zero for the current grid and layer count.
    pub(crate) fn resize_meta_arrays(&mut self)
        requires
            old(self)@.params.wf(),
        ensures
            final(self)@ == (SimView {
                meta_field: zeros_u8(old(self)@.layers() * old(self)@.cells()),
                meta_counters: Seq::new(
                    (old(self)@.layers() * old(self)@.cells()) as nat,
                    |i: int| 0i16,
                ),
                meta_apparatus: Seq::new(
                    (old(self)@.layers() * old(self)@.cells()) as nat,
                    |i: int| 0u16,
                ),
                meta_bonds: zeros_u8(2 * (old(self)@.layers() * old(self)@.cells())),
                ..old(self)@
            }),
    {
        let layers: usize = self.params.meta_layers as usize;
        let cells: usize = self.cells();
        assert(0 <= layers * cells <= 16 * 0x1_0000) by (nonlinear_arith)
            requires
                0 <= layers <= 16,
                0 <= cells <= 0x1_0000,
        ;
        let slots: usize = layers * cells;
        self.meta_field = vec![0u8; slots];
        self.meta_n_field = vec![0i16; slots];
        self.meta_a_field = vec![0u16; slots];
        self.meta_w_edges = vec![0u8; 2 * slots];
        proof {
            assert(self.meta_field@ =~= zeros_u8(slots as int));
            assert(self.meta_w_edges@ =~= zeros_u8(2 * slots as int));
            assert(self.meta_n_field@ =~= Seq::new(slots as nat, |i: int| 0i16));
            assert(self.meta_a_field@ =~= Seq::new(slots as nat, |i: int| 0u16));
        }
    }

    fn settle(&mut self, prev: Params)
        requires
            old(self)@.loose(prev),
        ensures
            final(self)@ == old(self)@.settled(prev),
            final(self)@.wf(),
    {
        let p: Params = self.params;
        if self.clock.state >= p.clock_k {
            self.clock.state = 0;
        }
        let rebuilt: bool = p.grid_size != prev.grid_size || p.meta_layers != prev.meta_layers;
        if rebuilt {
            self.resize_meta_arrays();
        }
        if !p.op_coupling_on || p.meta_layers == 0 {
            self.op_k = Vec::new();
        } else if rebuilt || !prev.op_coupling_on || prev.op_stencil != p.op_stencil
            || prev.op_budget_k != p.op_budget_k {
            self.init_op_k();
        }
        proof {
            assert(self@.layers() * (2 * self@.cells()) == 2 * (self@.layers() * self@.cells()))
                by (nonlinear_arith);
        }
    }

    /// Applies a configuration update. The tables are read only when the
    /// update asks for a randomised state.
    pub fn set_params(&mut self, u: &ParamUpdate, tables: &SamplingTables)
        requires
            old(self)@.wf(),
        ensures
            final(self)@ == old(self)@.configured(*u, tables@),
            final(self)@.wf(),
    {
        let prev: Params = self.params;
        self.reconfigure(u);
        let randomize: bool = match u.init_random {
            Some(on) => on,
            None => false,
        };
        if randomize {
            self.randomize_state(tables, Ghost(prev));
        }
        self.settle(prev);
    }
}

} // verus!
