//! The discrete configuration: every recognised integer or boolean option,
//! its valid range, and how a sparse update is folded into it.
//!
//! Probabilities are held as cuts: a variate `u` out of `UNIT` passes a
//! probability `p` exactly when `u < cut`, with `cut` the least integer not
//! below `p * UNIT`.

use vstd::prelude::*;

verus! {

/// Hard ceiling of the meta tower.
pub const MAX_META_LAYERS: u16 = 16;

/// Largest grid edge.
pub const MAX_GRID: u16 = 256;

/// Smallest capacity of the acceptance log.
pub const MIN_LOG_CAP: u32 = 1000;

/// Largest capacity of the acceptance log.
pub const MAX_LOG_CAP: u32 = 2_000_000;

/// Kernel selection. The four cuts are cumulative: a variate below
/// `bond_cut` selects the bond kernel, else one below `counter_cut` the
/// counter kernel, and so on; a variate past `field_cut` moves a particle.
/// The flags say which rates are positive, which decides membership in the
/// protocol cycle.
#[derive(Clone, Copy, Debug)]
pub struct Rates {
    pub bond_cut: u32,
    pub counter_cut: u32,
    pub apparatus_cut: u32,
    pub field_cut: u32,
    pub bond_on: bool,
    pub counter_on: bool,
    pub apparatus_on: bool,
    pub field_on: bool,
}

/// How a field step picks between field writes and budget transfers when
/// predictive coupling is on.
#[derive(Clone, Copy, Debug)]
pub enum TargetWeight {
    /// All `1 + 2 * layers` targets are equally likely.
    Even,
    /// Field targets as a group are taken when the variate is below the cut
    /// listed for the current layer count (entry `layers - 1`).
    Split([u32; 16]),
}

/// The configuration: every option that is an integer, a switch or a cut.
#[derive(Clone, Copy, Debug)]
pub struct Params {
    pub rates: Rates,
    pub p3_on: bool,
    pub p6_on: bool,
    pub l_w: u8,
    pub l_n: i16,
    pub l_a: u16,
    pub l_s: u8,
    pub grid_size: u16,
    pub meta_layers: u16,
    pub op_coupling_on: bool,
    pub op_stencil: u8,
    pub op_budget_k: u8,
    pub target_weight: TargetWeight,
    pub s_coupling_mode: u8,
    pub op_drive_on_k: bool,
    pub accept_log_on: bool,
    pub accept_log_mask: u32,
    pub accept_log_cap: u32,
    pub ep_debug: bool,
    pub init_random: bool,
    pub code_noise_cut: u32,
    pub code_noise_batch: u16,
    pub code_noise_layer: u16,
    pub clock_on: bool,
    pub clock_k: u8,
    pub clock_cut: u32,
    pub clock_uses_p6: bool,
    pub repair_clock_gated: bool,
    pub repair_gate_mode: u8,
    pub repair_gate_span: u8,
}

/// A sparse update: an absent option leaves the configuration unchanged.
#[derive(Clone, Copy, Debug)]
pub struct ParamUpdate {
    pub rates: Option<Rates>,
    pub p3_on: Option<bool>,
    pub p6_on: Option<bool>,
    pub l_w: Option<u8>,
    pub l_n: Option<i16>,
    pub l_a: Option<u16>,
    pub l_s: Option<u8>,
    pub grid_size: Option<u16>,
    pub meta_layers: Option<u16>,
    pub op_coupling_on: Option<bool>,
    pub op_stencil: Option<u8>,
    pub op_budget_k: Option<u8>,
    pub target_weight: Option<TargetWeight>,
    pub s_coupling_mode: Option<u8>,
    pub op_drive_on_k: Option<bool>,
    pub accept_log_on: Option<bool>,
    pub accept_log_mask: Option<u32>,
    pub accept_log_cap: Option<u32>,
    pub ep_debug: Option<bool>,
    pub init_random: Option<bool>,
    pub code_noise_cut: Option<u32>,
    pub code_noise_batch: Option<u16>,
    pub code_noise_layer: Option<u16>,
    pub clock_on: Option<bool>,
    pub clock_k: Option<u8>,
    pub clock_cut: Option<u32>,
    pub clock_uses_p6: Option<bool>,
    pub repair_clock_gated: Option<bool>,
    pub repair_gate_mode: Option<u8>,
    pub repair_gate_span: Option<u8>,
}

/// The given value, or the current one when none is given.
pub open spec fn pick<T>(given: Option<T>, current: T) -> T {
    match given {
        Some(v) => v,
        None => current,
    }
}

/// `v`, or `floor` where `v` lies below it.
pub open spec fn at_least(v: int, floor: int) -> int {
    if v < floor {
        floor
    } else {
        v
    }
}

/// `v`, or `ceiling` where `v` lies above it.
pub open spec fn at_most(v: int, ceiling: int) -> int {
    if v > ceiling {
        ceiling
    } else {
        v
    }
}

impl Rates {
    /// The rates a simulation starts with: 0.2 for bonds and 0.05 for each of
    /// counters, apparatus and field, in single precision.
    pub open spec fn initial() -> Rates {
        Rates {
            bond_cut: 3_355_444,
            counter_cut: 4_194_304,
            apparatus_cut: 5_033_165,
            field_cut: 5_872_026,
            bond_on: true,
            counter_on: true,
            apparatus_on: true,
            field_on: true,
        }
    }

    /// Length of the protocol cycle: the particle move and every kernel
    /// whose rate is positive.
    pub open spec fn cycle_len(self) -> int {
        1 + (if self.bond_on { 1int } else { 0 }) + (if self.apparatus_on { 1int } else { 0 }) + (
        if self.counter_on { 1int } else { 0 }) + (if self.field_on { 1int } else { 0 })
    }
}

impl Params {
    /// The ranges every configuration stays in.
    pub open spec fn wf(self) -> bool {
        &&& self.l_w >= 1
        &&& self.l_n >= 1
        &&& self.l_a >= 1
        &&& self.l_s >= 1
        &&& 2 <= self.grid_size <= MAX_GRID
        &&& self.meta_layers <= MAX_META_LAYERS
        &&& self.op_stencil <= 1
        &&& self.op_budget_k >= 1
        &&& self.s_coupling_mode <= 1
        &&& (self.s_coupling_mode > 0 ==> self.op_coupling_on)
        &&& MIN_LOG_CAP <= self.accept_log_cap <= MAX_LOG_CAP
        &&& self.code_noise_batch >= 1
        &&& self.clock_k >= 3
        &&& self.repair_gate_mode <= 1
        &&& self.repair_gate_span >= 1
    }

    /// Whether no step leads to the counter kernel: in protocol mode its
    /// rate is not positive, in random mode no variate falls between the
    /// bond cut and the counter cut.
    pub open spec fn counter_idle(self) -> bool {
        if self.p3_on {
            !self.rates.counter_on
        } else {
            self.rates.counter_cut <= self.rates.bond_cut
        }
    }

    /// Cells of one grid layer.
    pub open spec fn cells(self) -> int {
        self.grid_size as int * self.grid_size as int
    }

    /// The configuration a simulation starts with.
    pub open spec fn initial() -> Params {
        Params {
            rates: Rates::initial(),
            p3_on: false,
            p6_on: false,
            l_w: 5,
            l_n: 6,
            l_a: 6,
            l_s: 6,
            grid_size: 16,
            meta_layers: 0,
            op_coupling_on: false,
            op_stencil: 0,
            op_budget_k: 16,
            target_weight: TargetWeight::Even,
            s_coupling_mode: 0,
            op_drive_on_k: true,
            accept_log_on: false,
            accept_log_mask: 0,
            accept_log_cap: 100_000,
            ep_debug: false,
            init_random: false,
            code_noise_cut: 0,
            code_noise_batch: 1,
            code_noise_layer: 0,
            clock_on: false,
            clock_k: 8,
            clock_cut: 3_355_444,
            clock_uses_p6: true,
            repair_clock_gated: false,
            repair_gate_mode: 0,
            repair_gate_span: 1,
        }
    }

    /// The configuration after an update: each given option replaces the
    /// current value, clamped into its range. A coupling mode other than 0
    /// survives only while predictive coupling is on.
    pub open spec fn merged(self, u: ParamUpdate) -> Params {
        let mode: u8 = at_most(pick(u.s_coupling_mode, self.s_coupling_mode) as int, 1) as u8;
        let op_on: bool = pick(u.op_coupling_on, self.op_coupling_on);
        Params {
            rates: pick(u.rates, self.rates),
            p3_on: pick(u.p3_on, self.p3_on),
            p6_on: pick(u.p6_on, self.p6_on),
            l_w: at_least(pick(u.l_w, self.l_w) as int, 1) as u8,
            l_n: at_least(pick(u.l_n, self.l_n) as int, 1) as i16,
            l_a: at_least(pick(u.l_a, self.l_a) as int, 1) as u16,
            l_s: at_least(pick(u.l_s, self.l_s) as int, 1) as u8,
            grid_size: at_most(at_least(pick(u.grid_size, self.grid_size) as int, 2), 256) as u16,
            meta_layers: at_most(pick(u.meta_layers, self.meta_layers) as int, 16) as u16,
            op_coupling_on: op_on,
            op_stencil: at_most(pick(u.op_stencil, self.op_stencil) as int, 1) as u8,
            op_budget_k: at_least(pick(u.op_budget_k, self.op_budget_k) as int, 1) as u8,
            target_weight: pick(u.target_weight, self.target_weight),
            s_coupling_mode: if mode > 0 && !op_on { 0 } else { mode },
            op_drive_on_k: pick(u.op_drive_on_k, self.op_drive_on_k),
            accept_log_on: pick(u.accept_log_on, self.accept_log_on),
            accept_log_mask: pick(u.accept_log_mask, self.accept_log_mask),
            accept_log_cap: at_most(
                at_least(pick(u.accept_log_cap, self.accept_log_cap) as int, 1000),
                2_000_000,
            ) as u32,
            ep_debug: pick(u.ep_debug, self.ep_debug),
            init_random: pick(u.init_random, self.init_random),
            code_noise_cut: pick(u.code_noise_cut, self.code_noise_cut),
            code_noise_batch: at_least(pick(u.code_noise_batch, self.code_noise_batch) as int, 1) as u16,
            code_noise_layer: pick(u.code_noise_layer, self.code_noise_layer),
            clock_on: pick(u.clock_on, self.clock_on),
            clock_k: at_least(pick(u.clock_k, self.clock_k) as int, 3) as u8,
            clock_cut: pick(u.clock_cut, self.clock_cut),
            clock_uses_p6: pick(u.clock_uses_p6, self.clock_uses_p6),
            repair_clock_gated: pick(u.repair_clock_gated, self.repair_clock_gated),
            repair_gate_mode: at_most(pick(u.repair_gate_mode, self.repair_gate_mode) as int, 1) as u8,
            repair_gate_span: at_least(pick(u.repair_gate_span, self.repair_gate_span) as int, 1) as u8,
        }
    }

    /// Builds the starting configuration.
    pub fn new() -> (p: Params)
        ensures
            p == Params::initial(),
            p.wf(),
    {
        Params {
            rates: Rates {
                bond_cut: 3_355_444,
                counter_cut: 4_194_304,
                apparatus_cut: 5_033_165,
                field_cut: 5_872_026,
                bond_on: true,
                counter_on: true,
                apparatus_on: true,
                field_on: true,
            },
            p3_on: false,
            p6_on: false,
            l_w: 5,
            l_n: 6,
            l_a: 6,
            l_s: 6,
            grid_size: 16,
            meta_layers: 0,
            op_coupling_on: false,
            op_stencil: 0,
            op_budget_k: 16,
            target_weight: TargetWeight::Even,
            s_coupling_mode: 0,
            op_drive_on_k: true,
            accept_log_on: false,
            accept_log_mask: 0,
            accept_log_cap: 100_000,
            ep_debug: false,
            init_random: false,
            code_noise_cut: 0,
            code_noise_batch: 1,
            code_noise_layer: 0,
            clock_on: false,
            clock_k: 8,
            clock_cut: 3_355_444,
            clock_uses_p6: true,
            repair_clock_gated: false,
            repair_gate_mode: 0,
            repair_gate_span: 1,
        }
    }

    /// Folds an update into the configuration.
    pub fn merge(&self, u: &ParamUpdate) -> (p: Params)
        ensures
            p == self.merged(*u),
            self.wf() ==> p.wf(),
    {
        let mode: u8 = limit(pick_or(u.s_coupling_mode, self.s_coupling_mode) as u32, 0, 1) as u8;
        let op_on: bool = pick_or(u.op_coupling_on, self.op_coupling_on);
        let l_n: i16 = pick_or(u.l_n, self.l_n);
        Params {
            rates: pick_or(u.rates, self.rates),
            p3_on: pick_or(u.p3_on, self.p3_on),
            p6_on: pick_or(u.p6_on, self.p6_on),
            l_w: limit(pick_or(u.l_w, self.l_w) as u32, 1, 255) as u8,
            l_n: if l_n < 1 { 1 } else { l_n },
            l_a: limit(pick_or(u.l_a, self.l_a) as u32, 1, 65_535) as u16,
            l_s: limit(pick_or(u.l_s, self.l_s) as u32, 1, 255) as u8,
            grid_size: limit(pick_or(u.grid_size, self.grid_size) as u32, 2, 256) as u16,
            meta_layers: limit(pick_or(u.meta_layers, self.meta_layers) as u32, 0, 16) as u16,
            op_coupling_on: op_on,
            op_stencil: limit(pick_or(u.op_stencil, self.op_stencil) as u32, 0, 1) as u8,
            op_budget_k: limit(pick_or(u.op_budget_k, self.op_budget_k) as u32, 1, 255) as u8,
            target_weight: pick_or(u.target_weight, self.target_weight),
            s_coupling_mode: if mode > 0 && !op_on { 0 } else { mode },
            op_drive_on_k: pick_or(u.op_drive_on_k, self.op_drive_on_k),
            accept_log_on: pick_or(u.accept_log_on, self.accept_log_on),
            accept_log_mask: pick_or(u.accept_log_mask, self.accept_log_mask),
            accept_log_cap: limit(pick_or(u.accept_log_cap, self.accept_log_cap), 1000, 2_000_000),
            ep_debug: pick_or(u.ep_debug, self.ep_debug),
            init_random: pick_or(u.init_random, self.init_random),
            code_noise_cut: pick_or(u.code_noise_cut, self.code_noise_cut),
            code_noise_batch: limit(pick_or(u.code_noise_batch, self.code_noise_batch) as u32, 1, 65_535) as u16,
            code_noise_layer: pick_or(u.code_noise_layer, self.code_noise_layer),
            clock_on: pick_or(u.clock_on, self.clock_on),
            clock_k: limit(pick_or(u.clock_k, self.clock_k) as u32, 3, 255) as u8,
            clock_cut: pick_or(u.clock_cut, self.clock_cut),
            clock_uses_p6: pick_or(u.clock_uses_p6, self.clock_uses_p6),
            repair_clock_gated: pick_or(u.repair_clock_gated, self.repair_clock_gated),
            repair_gate_mode: limit(pick_or(u.repair_gate_mode, self.repair_gate_mode) as u32, 0, 1) as u8,
            repair_gate_span: limit(pick_or(u.repair_gate_span, self.repair_gate_span) as u32, 1, 255) as u8,
        }
    }
}

/// A grid has between 4 and 65536 cells.
pub proof fn lemma_cells_bound(p: Params)
    requires
        p.wf(),
    ensures
        4 <= p.cells() <= 0x1_0000,
{
    assert(4 <= p.grid_size as int * p.grid_size as int <= 0x1_0000) by (nonlinear_arith)
        requires
            2 <= p.grid_size <= 256,
    ;
}

/// Computes `pick`.
pub fn pick_or<T: Copy>(given: Option<T>, current: T) -> (r: T)
    ensures
        r == pick(given, current),
{
    match given {
        Some(v) => v,
        None => current,
    }
}

/// Clamps `v` into `floor ..= ceiling`.
pub fn limit(v: u32, floor: u32, ceiling: u32) -> (r: u32)
    requires
        floor <= ceiling,
    ensures
        r == at_most(at_least(v as int, floor as int), ceiling as int),
        floor <= r <= ceiling,
{
    if v < floor {
        floor
    } else if v > ceiling {
        ceiling
    } else {
        v
    }
}

impl ParamUpdate {
    /// The update that changes nothing.
    pub open spec fn nothing() -> ParamUpdate {
        ParamUpdate {
            rates: None,
            p3_on: None,
            p6_on: None,
            l_w: None,
            l_n: None,
            l_a: None,
            l_s: None,
            grid_size: None,
            meta_layers: None,
            op_coupling_on: None,
            op_stencil: None,
            op_budget_k: None,
            target_weight: None,
            s_coupling_mode: None,
            op_drive_on_k: None,
            accept_log_on: None,
            accept_log_mask: None,
            accept_log_cap: None,
            ep_debug: None,
            init_random: None,
            code_noise_cut: None,
            code_noise_batch: None,
            code_noise_layer: None,
            clock_on: None,
            clock_k: None,
            clock_cut: None,
            clock_uses_p6: None,
            repair_clock_gated: None,
            repair_gate_mode: None,
            repair_gate_span: None,
        }
    }

    /// Builds the empty update, to be filled option by option.
    pub fn new() -> (u: ParamUpdate)
        ensures
            u == ParamUpdate::nothing(),
    {
        ParamUpdate {
            rates: None,
            p3_on: None,
            p6_on: None,
            l_w: None,
            l_n: None,
            l_a: None,
            l_s: None,
            grid_size: None,
            meta_layers: None,
            op_coupling_on: None,
            op_stencil: None,
            op_budget_k: None,
            target_weight: None,
            s_coupling_mode: None,
            op_drive_on_k: None,
            accept_log_on: None,
            accept_log_mask: None,
            accept_log_cap: None,
            ep_debug: None,
            init_random: None,
            code_noise_cut: None,
            code_noise_batch: None,
            code_noise_layer: None,
            clock_on: None,
            clock_k: None,
            clock_cut: None,
            clock_uses_p6: None,
            repair_clock_gated: None,
            repair_gate_mode: None,
            repair_gate_span: None,
        }
    }
}

} // verus!
