//! The invariant is inductive: every transition of the engine leads from a
//! valid state to a valid state, whatever the host answers.

use vstd::prelude::*;
use crate::configure::TablesView;
use crate::engine::{reservoir, schedule, stepped, Slot};
use crate::grid::budget_slot;
use crate::index::{
    lemma_pair_count_bound, lemma_pair_index_range, lemma_pair_index_surjective, pair_index,
};
use crate::judge::lemma_budget_transfer;
use crate::laws::{lemma_reservoir_sound, Event};
use crate::params::{lemma_cells_bound, ParamUpdate, Params, Rates};
use crate::perturb::{swept, Mode, Region, Sweeper, Target};
use crate::rng::{lemma_unit_bound, unit_of, xorshift, HALF};
use crate::sampling::{lemma_fresh_budget, lemma_sample_range, sample};
use crate::state::{sat_add, Phase, Proposal, Request, SimView, StepDiag, Verdict};
use crate::sums::{lemma_total_bound, lemma_total_update, lemma_total_zeros, total};

verus! {

/// An offset into a layer of `stride` entries stays inside the tower.
pub proof fn lemma_layer_slot(layer: int, slot: int, layers: int, stride: int)
    requires
        0 <= layer < layers,
        0 <= slot < stride,
    ensures
        0 <= layer * stride + slot < layers * stride,
{
    assert(0 <= layer * stride + slot < layers * stride) by (nonlinear_arith)
        requires
            0 <= layer < layers,
            0 <= slot < stride,
    ;
}

/// Noise writes keep the state valid and touch only the generator and the
/// tower's field.
pub proof fn lemma_noise_batch(v: SimView, k: nat)
    requires
        v.live(),
        v.params.code_noise_layer < v.params.meta_layers,
    ensures
        v.noise_batch(k).live(),
        v.noise_batch(k) == (SimView {
            rng: v.noise_batch(k).rng,
            meta_field: v.noise_batch(k).meta_field,
            ..v
        }),
    decreases k,
{
    if k > 0 {
        lemma_noise_batch(v, (k - 1) as nat);
        lemma_cells_bound(v.params);
        let s = v.noise_batch((k - 1) as nat);
        let r1: u32 = xorshift(s.rng);
        lemma_layer_slot(
            v.params.code_noise_layer as int,
            r1 as int % v.cells(),
            v.layers(),
            v.cells(),
        );
    }
}

/// Code noise keeps the state valid.
pub proof fn lemma_code_noise(v: SimView)
    requires
        v.live(),
    ensures
        v.code_noise().live(),
        v.code_noise().anchored(v),
        v.code_noise().untouched(v),
        v.code_noise().diag == v.diag,
        v.code_noise().pending == v.pending,
{
    let p = v.params;
    if !(p.code_noise_cut == 0 || p.meta_layers == 0) {
        let r: u32 = xorshift(v.rng);
        if !(unit_of(r) >= p.code_noise_cut || p.code_noise_layer >= p.meta_layers) {
            lemma_noise_batch(v.with_rng(r), p.code_noise_batch as nat);
        }
    }
}

/// Ending a step keeps the state valid and leaves no request open.
pub proof fn lemma_finished(v: SimView, step: StepDiag, accepted: bool, delta: i8)
    requires
        v.live(),
    ensures
        v.finished(step, accepted, delta).0.live(),
        v.finished(step, accepted, delta).0.anchored(v),
        v.finished(step, accepted, delta).0.untouched(v),
        v.finished(step, accepted, delta).0.diag == v.diag.pushed(step),
        v.finished(step, accepted, delta).1 is Done,
{
    let (a, closed) = if v.params.p3_on {
        v.cycle_advanced()
    } else {
        (v, false)
    };
    let b = SimView { diag: a.diag.pushed(step), pending: Phase::Idle, ..a };
    assert(b.live());
    lemma_code_noise(b);
}

/// Stopping with a legal proposal keeps the state valid.
pub proof fn lemma_propose(v: SimView, p: Proposal)
    requires
        v.live(),
        v.admits(p),
    ensures
        v.propose(p).0.wf(),
        v.propose(p).0.anchored(v),
        v.propose(p).0.awaits(v.propose(p).1),
        v.propose(p).0.untouched(v),
        v.propose(p).0.diag == v.diag,
{
}

/// Whether a request is anything but the judging of a clock tick.
pub open spec fn clockless(r: Request) -> bool {
    !(r matches Request::Judge(Proposal::Clock { .. }))
}

/// What every kernel owes: a valid state; the same particle count,
/// configuration and step count; a request that matches what is open; no
/// scalar, clock or log touched; the step counted if and only if it is over;
/// and a clock tick proposed only where the clock is on.
pub open spec fn sound(before: SimView, after: (SimView, Request)) -> bool {
    &&& after.0.wf()
    &&& after.0.anchored(before)
    &&& after.0.awaits(after.1)
    &&& after.0.untouched(before)
    &&& after.0.diag == (if after.1 is Done {
        before.diag.pushed(StepDiag::none())
    } else {
        before.diag
    })
    &&& (!clockless(after.1) ==> before.params.clock_on && before.params.clock_cut > 0)
}

/// Ending a step with nothing proposed keeps the state valid.
pub proof fn lemma_rest(v: SimView)
    requires
        v.live(),
    ensures
        sound(v, v.rest()),
        clockless(v.rest().1),
        v.rest().0.live(),
{
    lemma_finished(v, StepDiag::none(), false, 0);
}

/// The particle kernel is sound.
pub proof fn lemma_particle_step(v: SimView)
    requires
        v.live(),
    ensures
        sound(v, v.particle_step()),
        clockless(v.particle_step().1),
{
    lemma_pair_count_bound(v.n as int);
    if v.n <= 1 {
        lemma_rest(v);
    } else {
        let r1: u32 = xorshift(v.rng);
        let r2: u32 = xorshift(r1);
        let r3: u32 = xorshift(r2);
        lemma_unit_bound(r2);
        lemma_unit_bound(r3);
        lemma_propose(
            v.with_rng(r3),
            Proposal::Particle {
                i: (r1 as int % v.n as int) as usize,
                ux: unit_of(r2),
                uy: unit_of(r3),
            },
        );
    }
}

/// The bond kernel on the base layer is sound.
pub proof fn lemma_bond_base(v: SimView)
    requires
        v.live(),
    ensures
        sound(v, v.bond_base()),
        clockless(v.bond_base().1),
{
    if v.w.len() == 0 {
        lemma_rest(v);
    }
}

/// The bond kernel on a meta layer is sound.
pub proof fn lemma_bond_meta(v: SimView, layer: int)
    requires
        v.live(),
        0 <= layer < v.layers(),
    ensures
        sound(v, v.bond_meta(layer)),
        clockless(v.bond_meta(layer).1),
{
    lemma_cells_bound(v.params);
    let r1: u32 = xorshift(v.rng);
    let r2: u32 = xorshift(r1);
    let edge: int = r1 as int % (2 * v.cells());
    lemma_layer_slot(layer, edge, v.layers(), 2 * v.cells());
    let from: u8 = v.meta_bonds[layer * (2 * v.cells()) + edge];
    match stepped(from as int, unit_of(r2) < HALF, 0, v.params.l_w as int) {
        None => lemma_rest(v.with_rng(r2)),
        Some(to) => lemma_propose(
            v.with_rng(r2),
            Proposal::BondMeta { layer: layer as usize, edge: edge as usize, from, to: to as u8 },
        ),
    }
}

/// The clock kernel is sound.
pub proof fn lemma_clock_step(v: SimView)
    requires
        v.live(),
        v.params.clock_on,
        v.params.clock_cut > 0,
    ensures
        sound(v, v.clock_step()),
{
    let r: u32 = xorshift(v.rng);
    lemma_propose(v.with_rng(r), Proposal::Clock { up: unit_of(r) < HALF });
}

/// The counter kernel on the base layer is sound.
pub proof fn lemma_counter_base(v: SimView)
    requires
        v.live(),
    ensures
        sound(v, v.counter_base()),
{
    lemma_pair_count_bound(v.n as int);
    let (s, tick) = v.clock_turn();
    if tick {
        lemma_clock_step(s);
    } else if s.n == 0 {
        lemma_rest(s);
    } else {
        let r1: u32 = xorshift(s.rng);
        let r2: u32 = xorshift(r1);
        let k: int = r1 as int % s.n as int;
        let from: i16 = s.counters[k];
        match stepped(from as int, unit_of(r2) < HALF, -s.params.l_n, s.params.l_n as int) {
            None => lemma_rest(s.with_rng(r2)),
            Some(to) => lemma_propose(
                s.with_rng(r2),
                Proposal::Counter { k: k as usize, from, to: to as i16 },
            ),
        }
    }
}

/// The counter kernel on a meta layer is sound.
pub proof fn lemma_counter_meta(v: SimView, layer: int)
    requires
        v.live(),
        0 <= layer < v.layers(),
    ensures
        sound(v, v.counter_meta(layer)),
{
    lemma_cells_bound(v.params);
    let (s, tick) = v.clock_turn();
    if tick {
        lemma_clock_step(s);
    } else {
        let r1: u32 = xorshift(s.rng);
        let r2: u32 = xorshift(r1);
        let cell: int = r1 as int % s.cells();
        lemma_layer_slot(layer, cell, s.layers(), s.cells());
        let from: i16 = s.meta_counters[layer * s.cells() + cell];
        match stepped(from as int, unit_of(r2) < HALF, -s.params.l_n, s.params.l_n as int) {
            None => lemma_rest(s.with_rng(r2)),
            Some(to) => lemma_propose(
                s.with_rng(r2),
                Proposal::CounterMeta {
                    layer: layer as usize,
                    cell: cell as usize,
                    from,
                    to: to as i16,
                },
            ),
        }
    }
}

/// The apparatus kernel on the base layer is sound.
pub proof fn lemma_apparatus_base(v: SimView)
    requires
        v.live(),
    ensures
        sound(v, v.apparatus_base()),
        clockless(v.apparatus_base().1),
{
    lemma_pair_count_bound(v.n as int);
    if v.n == 0 {
        lemma_rest(v);
    } else {
        let r1: u32 = xorshift(v.rng);
        let r2: u32 = xorshift(r1);
        let k: int = r1 as int % v.n as int;
        let from: u16 = v.apparatus[k];
        match stepped(from as int, unit_of(r2) < HALF, 0, v.params.l_a as int) {
            None => lemma_rest(v.with_rng(r2)),
            Some(to) => lemma_propose(
                v.with_rng(r2),
                Proposal::Apparatus { k: k as usize, from, to: to as u16 },
            ),
        }
    }
}

/// The apparatus kernel on a meta layer is sound.
pub proof fn lemma_apparatus_meta(v: SimView, layer: int)
    requires
        v.live(),
        0 <= layer < v.layers(),
    ensures
        sound(v, v.apparatus_meta(layer)),
        clockless(v.apparatus_meta(layer).1),
{
    lemma_cells_bound(v.params);
    let r1: u32 = xorshift(v.rng);
    let r2: u32 = xorshift(r1);
    let cell: int = r1 as int % v.cells();
    lemma_layer_slot(layer, cell, v.layers(), v.cells());
    let from: u16 = v.meta_apparatus[layer * v.cells() + cell];
    match stepped(from as int, unit_of(r2) < HALF, 0, v.params.l_a as int) {
        None => lemma_rest(v.with_rng(r2)),
        Some(to) => lemma_propose(
            v.with_rng(r2),
            Proposal::ApparatusMeta {
                layer: layer as usize,
                cell: cell as usize,
                from,
                to: to as u16,
            },
        ),
    }
}

/// The field kernel on the base layer is sound.
pub proof fn lemma_field_base(v: SimView)
    requires
        v.live(),
    ensures
        sound(v, v.field_base()),
        clockless(v.field_base().1),
{
    lemma_cells_bound(v.params);
    let r1: u32 = xorshift(v.rng);
    let r2: u32 = xorshift(r1);
    let cell: int = r1 as int % v.cells();
    let from: u8 = v.field[cell];
    let mismatch: u8 = if v.params.meta_layers > 0 {
        crate::grid::mismatch_sign(from, v.meta_field[cell])
    } else {
        1
    };
    match stepped(from as int, unit_of(r2) < HALF, 0, v.params.l_s as int) {
        None => lemma_rest(v.with_rng(r2)),
        Some(to) => lemma_propose(
            v.with_rng(r2),
            Proposal::Field {
                cell: cell as usize,
                from,
                to: to as u8,
                mismatch,
                dir: v.lead_direction(0, cell),
            },
        ),
    }
}

/// The field kernel on a meta layer is sound.
pub proof fn lemma_field_meta(v: SimView, layer: int)
    requires
        v.live(),
        0 <= layer < v.layers(),
    ensures
        sound(v, v.field_meta(layer)),
        clockless(v.field_meta(layer).1),
{
    lemma_cells_bound(v.params);
    let r1: u32 = xorshift(v.rng);
    let r2: u32 = xorshift(r1);
    let cell: int = r1 as int % v.cells();
    lemma_layer_slot(layer, cell, v.layers(), v.cells());
    let from: u8 = v.meta_field[layer * v.cells() + cell];
    let lower: u8 = if layer == 0 {
        v.field[cell]
    } else {
        v.meta_field[(layer - 1) * v.cells() + cell]
    };
    if !v.gate_open(cell) {
        lemma_rest(v.with_rng(r1));
    } else {
        match stepped(from as int, unit_of(r2) < HALF, 0, v.params.l_s as int) {
            None => lemma_rest(v.with_rng(r2)),
            Some(to) => lemma_propose(
                v.with_rng(r2),
                Proposal::FieldMeta {
                    layer: layer as usize,
                    cell: cell as usize,
                    from,
                    to: to as u8,
                    mismatch: crate::grid::mismatch_sign(from, lower),
                    dir: v.lead_direction(layer, cell),
                },
            ),
        }
    }
}

/// The budget kernel is sound.
pub proof fn lemma_budget_step(v: SimView, interface: int)
    requires
        v.live(),
        v.coupled(),
        0 <= interface < v.layers(),
    ensures
        sound(v, v.budget_step(interface)),
        clockless(v.budget_step(interface).1),
{
    lemma_cells_bound(v.params);
    let rc: int = v.r_count();
    let r1: u32 = xorshift(v.rng);
    let r2: u32 = xorshift(r1);
    let r3: u32 = xorshift(r2);
    let cell: int = r1 as int % v.cells();
    let r_from: int = r2 as int % rc;
    let other: int = r3 as int % (rc - 1);
    let r_to: int = if other >= r_from { other + 1 } else { other };
    if v.budget[budget_slot(interface, cell, r_from, v.cells(), rc)] == 0 {
        lemma_rest(v.with_rng(r3));
    } else {
        lemma_propose(
            v.with_rng(r3),
            Proposal::Budget {
                interface: interface as usize,
                cell: cell as usize,
                r_from: r_from as usize,
                r_to: r_to as usize,
            },
        );
    }
}

/// A bond step is sound.
pub proof fn lemma_bond_step(v: SimView)
    requires
        v.live(),
    ensures
        sound(v, v.bond_step()),
        clockless(v.bond_step().1),
{
    if v.params.meta_layers == 0 {
        lemma_bond_base(v);
    } else {
        let (s, t) = v.write_target();
        if t == 0 {
            lemma_bond_base(s);
        } else {
            lemma_bond_meta(s, t - 1);
        }
    }
}

/// A counter step is sound.
pub proof fn lemma_counter_step(v: SimView)
    requires
        v.live(),
    ensures
        sound(v, v.counter_step()),
{
    if v.params.meta_layers == 0 {
        lemma_counter_base(v);
    } else {
        let (s, t) = v.write_target();
        if t == 0 {
            lemma_counter_base(s);
        } else {
            lemma_counter_meta(s, t - 1);
        }
    }
}

/// An apparatus step is sound.
pub proof fn lemma_apparatus_step(v: SimView)
    requires
        v.live(),
    ensures
        sound(v, v.apparatus_step()),
        clockless(v.apparatus_step().1),
{
    if v.params.meta_layers == 0 {
        lemma_apparatus_base(v);
    } else {
        let (s, t) = v.write_target();
        if t == 0 {
            lemma_apparatus_base(s);
        } else {
            lemma_apparatus_meta(s, t - 1);
        }
    }
}

/// A field step is sound.
pub proof fn lemma_field_step(v: SimView)
    requires
        v.live(),
    ensures
        sound(v, v.field_step()),
        clockless(v.field_step().1),
{
    if v.params.meta_layers == 0 {
        lemma_field_base(v);
    } else if v.params.op_coupling_on {
        let (s, t) = v.field_target();
        if t == 0 {
            lemma_field_base(s);
        } else if t <= v.layers() {
            lemma_field_meta(s, t - 1);
        } else {
            lemma_budget_step(s, t - (v.layers() + 1));
        }
    } else {
        let (s, t) = v.write_target();
        if t == 0 {
            lemma_field_base(s);
        } else {
            lemma_field_meta(s, t - 1);
        }
    }
}

/// The kernel of any slot is sound.
pub proof fn lemma_run_slot(v: SimView, slot: Slot)
    requires
        v.live(),
    ensures
        sound(v, v.run_slot(slot)),
        !(slot is Counter) ==> clockless(v.run_slot(slot).1),
{
    match slot {
        Slot::Particle => lemma_particle_step(v),
        Slot::Bond => lemma_bond_step(v),
        Slot::Apparatus => lemma_apparatus_step(v),
        Slot::Counter => lemma_counter_step(v),
        Slot::Field => lemma_field_step(v),
    }
}

/// Beginning a step keeps the state valid.
pub proof fn lemma_begin_step(v: SimView)
    requires
        v.wf(),
    ensures
        v.begin_step().0.wf(),
        v.begin_step().0.awaits(v.begin_step().1),
        v.begin_step().0.n == v.n,
        v.begin_step().0.params == v.params,
        v.begin_step().0.log_extends(v),
{
    if v.pending is Idle {
        let s = SimView {
            step_count: if v.step_count == u32::MAX { 0 } else { (v.step_count + 1) as u32 },
            ..v
        };
        if s.params.p3_on {
            let f = s.cycle_fitted();
            assert(f.live());
            lemma_run_slot(f, schedule(f.params.rates)[f.phase as int]);
        } else {
            let r: u32 = xorshift(s.rng);
            let u: u32 = unit_of(r);
            let rates = s.params.rates;
            let t = s.with_rng(r);
            assert(t.live());
            if u < rates.bond_cut {
                lemma_bond_step(t);
            } else if u < rates.counter_cut {
                lemma_counter_step(t);
            } else if u < rates.apparatus_cut {
                lemma_apparatus_step(t);
            } else if u < rates.field_cut {
                lemma_field_step(t);
            } else {
                lemma_particle_step(t);
            }
        }
    }
}

/// Supplying the pairs keeps the state valid.
pub proof fn lemma_supply_pairs(v: SimView, near: Seq<bool>)
    requires
        v.wf(),
    ensures
        v.supply_pairs(near).0.wf(),
        v.supply_pairs(near).0.anchored(v),
        v.supply_pairs(near).0.awaits(v.supply_pairs(near).1),
        v.pending is Pairs ==> sound(v, v.supply_pairs(near)) && clockless(
            v.supply_pairs(near).1,
        ),
        !(v.pending is Pairs) ==> v.supply_pairs(near).0 == v,
{
    if v.pending is Pairs {
        let idle = SimView { pending: Phase::Idle, ..v };
        let pick = reservoir(near, v.rng, v.w.len());
        lemma_reservoir_sound(near, v.rng, v.w.len());
        lemma_pair_count_bound(v.n as int);
        match pick.chosen {
            None => lemma_rest(idle.with_rng(pick.rng)),
            Some(index) => {
                let r: u32 = xorshift(pick.rng);
                let from: u8 = v.w[index];
                let witness = lemma_pair_index_surjective(v.n as int, index);
                let (i, j) = choose|i: int, j: int|
                    0 <= i < j < v.n && pair_index(v.n as int, i, j) == index;
                assert(0 <= witness.0 < witness.1 < v.n && pair_index(
                    v.n as int,
                    witness.0,
                    witness.1,
                ) == index);
                match stepped(from as int, unit_of(r) < HALF, 0, v.params.l_w as int) {
                    None => lemma_rest(idle.with_rng(r)),
                    Some(to) => lemma_propose(
                        idle.with_rng(r),
                        Proposal::Bond {
                            i: i as usize,
                            j: j as usize,
                            index: index as usize,
                            from,
                            to: to as u8,
                        },
                    ),
                }
            },
        }
    }
}

/// Offering a move to the log keeps the state valid.
pub proof fn lemma_logged(v: SimView, subject: u32, kind: u8, a: u8, b: u8, c: u8, ep_bits: u64)
    requires
        v.live(),
    ensures
        v.logged(subject, kind, a, b, c, ep_bits).live(),
        v.logged(subject, kind, a, b, c, ep_bits).anchored(v),
{
}

/// Carrying out a legal move keeps the state valid.
pub proof fn lemma_applied(v: SimView, p: Proposal, ep_bits: u64)
    requires
        v.live(),
        v.admits(p),
    ensures
        v.applied(p, ep_bits).live(),
        v.applied(p, ep_bits).anchored(v),
        v.applied(p, ep_bits).diag == v.diag,
        v.applied(p, ep_bits).clock.fwd >= v.clock.fwd,
        v.applied(p, ep_bits).clock.bwd >= v.clock.bwd,
        !(p is Clock) ==> v.applied(p, ep_bits).clock == v.clock,
        v.applied(p, ep_bits).sum_w == v.sum_w + (if p is Bond { p.delta() as int } else { 0 }),
{
    lemma_cells_bound(v.params);
    lemma_pair_count_bound(v.n as int);
    match p {
        Proposal::Particle { .. } => {},
        Proposal::Bond { i, j, index, from, to } => {
            lemma_pair_index_range(v.n as int, i as int, j as int);
            lemma_total_bound(v.w, 255);
            lemma_total_update(v.w, index as int, to);
            assert(255 * v.w.len() <= 255 * 0xffff_ffff) by (nonlinear_arith)
                requires
                    v.w.len() <= 0xffff_ffff,
            ;
        },
        Proposal::BondMeta { layer, edge, .. } => {
            lemma_layer_slot(layer as int, edge as int, v.layers(), 2 * v.cells());
        },
        Proposal::Apparatus { .. } => {},
        Proposal::ApparatusMeta { layer, cell, .. } => {
            lemma_layer_slot(layer as int, cell as int, v.layers(), v.cells());
        },
        Proposal::Counter { .. } => {},
        Proposal::CounterMeta { layer, cell, .. } => {
            lemma_layer_slot(layer as int, cell as int, v.layers(), v.cells());
        },
        Proposal::Field { cell, from, to, mismatch, dir } => {
            lemma_total_bound(v.field, 255);
            lemma_total_update(v.field, cell as int, to);
            assert(255 * v.field.len() <= 255 * 0x1_0000) by (nonlinear_arith)
                requires
                    v.field.len() <= 0x1_0000,
            ;
            let s = SimView {
                field: v.field.update(cell as int, to),
                sum_s: (v.sum_s + to - from) as i64,
                ..v
            };
            assert(s.live());
            lemma_logged(s, cell as u32, crate::state::MOVE_P5_BASE, 255, mismatch, dir, ep_bits);
        },
        Proposal::FieldMeta { layer, cell, from, to, mismatch, dir } => {
            lemma_layer_slot(layer as int, cell as int, v.layers(), v.cells());
            let s = SimView {
                meta_field: v.meta_field.update(layer * v.cells() + cell, to),
                ..v
            };
            assert(s.live());
            lemma_logged(
                s,
                cell as u32,
                crate::state::MOVE_P5_META,
                layer as u8,
                mismatch,
                dir,
                ep_bits,
            );
        },
        Proposal::Budget { interface, cell, r_from, r_to } => {
            let rc: int = v.r_count();
            let c0: int = interface * v.cells() + cell;
            let count: int = v.layers() * v.cells();
            lemma_layer_slot(interface as int, cell as int, v.layers(), v.cells());
            lemma_budget_transfer(
                v.budget,
                c0,
                rc,
                r_from as int,
                r_to as int,
                count,
                v.params.op_budget_k as int,
            );
            let a: int = budget_slot(interface as int, cell as int, r_from as int, v.cells(), rc);
            let b: int = budget_slot(interface as int, cell as int, r_to as int, v.cells(), rc);
            let s = SimView {
                budget: v.budget.update(a, (v.budget[a] - 1) as u8).update(
                    b,
                    (v.budget[b] + 1) as u8,
                ),
                ..v
            };
            assert(s.live());
            lemma_logged(
                s,
                cell as u32,
                crate::state::MOVE_OPK,
                0,
                r_from as u8,
                r_to as u8,
                ep_bits,
            );
        },
        Proposal::Clock { .. } => {},
    }
}

/// A rejected proposal writes nothing: every mutation waits for the
/// acceptance decision. What may still change at the end of the step is the
/// tower's field, under code noise.
pub proof fn lemma_rejected(v: SimView, verdict: Verdict)
    requires
        v.wf(),
        v.pending is Judge,
        !verdict.free,
        unit_of(xorshift(v.rng)) >= verdict.cut,
    ensures
        v.resolve(verdict).0.untouched(v),
        v.resolve(verdict).1 matches Request::Done(o) && !o.accepted && o.delta == 0,
{
    let idle = SimView { pending: Phase::Idle, ..v };
    lemma_finished(idle.with_rng(xorshift(v.rng)), StepDiag::none(), false, 0);
}

/// An accepted move, carried out and counted, keeps the state valid.
pub proof fn lemma_committed(v: SimView, p: Proposal, verdict: Verdict)
    requires
        v.live(),
        v.admits(p),
    ensures
        v.committed(p, verdict).live(),
        v.committed(p, verdict).anchored(v),
        v.committed(p, verdict).diag.steps == v.diag.steps,
        v.committed(p, verdict).diag.w_plus == v.diag.w_plus,
        v.committed(p, verdict).diag.w_minus == v.diag.w_minus,
        v.committed(p, verdict).clock.fwd >= v.clock.fwd,
        v.committed(p, verdict).clock.bwd >= v.clock.bwd,
        !(p is Clock) ==> v.committed(p, verdict).clock == v.clock,
        v.committed(p, verdict).sum_w == v.sum_w + (if p is Bond { p.delta() as int } else { 0 }),
{
    lemma_applied(v, p, verdict.ep_bits);
}

/// Settling a proposal keeps the state valid and ends the step.
pub proof fn lemma_resolve(v: SimView, verdict: Verdict)
    requires
        v.wf(),
    ensures
        v.resolve(verdict).0.wf(),
        v.resolve(verdict).0.anchored(v),
        v.pending is Judge ==> v.resolve(verdict).0.pending is Idle,
        !(v.pending is Judge) ==> v.resolve(verdict).0 == v,
{
    match v.pending {
        Phase::Judge(p) => {
            let idle = SimView { pending: Phase::Idle, ..v };
            let r: u32 = xorshift(v.rng);
            let s = if verdict.free { idle } else { idle.with_rng(r) };
            assert(s.live() && s.admits(p));
            if verdict.free || unit_of(r) < verdict.cut {
                lemma_committed(s, p, verdict);
                let c = s.committed(p, verdict);
                lemma_finished(c, StepDiag::of(p), true, p.delta());
                let f = c.finished(StepDiag::of(p), true, p.delta());
                assert(v.resolve(verdict) == f);
                assert(c.anchored(v));
                assert(f.0.anchored(v));
            } else {
                lemma_finished(s, StepDiag::none(), false, 0);
                let f = s.finished(StepDiag::none(), false, 0);
                assert(v.resolve(verdict) == f);
                assert(f.0.anchored(v));
            }
        },
        _ => {},
    }
}

/// Without a positive counter rate the protocol cycle holds no counter slot.
pub proof fn lemma_schedule(r: Rates, i: int)
    requires
        0 <= i < r.cycle_len(),
    ensures
        schedule(r).len() == r.cycle_len(),
        !r.counter_on ==> !(schedule(r)[i] is Counter),
{
    let s1 = seq![Slot::Particle];
    let s2 = s1 + (if r.bond_on { seq![Slot::Bond] } else { Seq::<Slot>::empty() });
    let s3 = s2 + (if r.apparatus_on { seq![Slot::Apparatus] } else { Seq::<Slot>::empty() });
    let s4 = s3 + (if r.counter_on { seq![Slot::Counter] } else { Seq::<Slot>::empty() });
    let s5 = s4 + (if r.field_on { seq![Slot::Field] } else { Seq::<Slot>::empty() });
    assert(s5 == schedule(r));
    assert(forall|k: int| 0 <= k < s3.len() ==> !(#[trigger] s3[k] is Counter));
    if !r.counter_on {
        assert(s4 =~= s3);
        assert(forall|k: int| 0 <= k < s5.len() ==> !(#[trigger] s5[k] is Counter));
    }
}

/// What one call of a step does to the state, whatever is answered: the
/// state stays valid under the same configuration, the log at most grows,
/// the step count moves with a beginning only, the tick counts never fall,
/// a clock at rest stays as it is, a step is counted when it ends, the bond
/// counts move with the bond sum, and nothing but a verdict touches a
/// scalar, the clock or the log.
pub open spec fn advanced(before: SimView, e: Event, after: SimView) -> bool {
    &&& after.wf()
    &&& after.n == before.n
    &&& after.params == before.params
    &&& after.log_extends(before)
    &&& after.step_count == (if e is Begin {
        if before.step_count == u32::MAX {
            0u32
        } else {
            (before.step_count + 1) as u32
        }
    } else {
        before.step_count
    })
    &&& (e is Pairs ==> !(after.pending is Pairs))
    &&& (e is Judge ==> after.pending is Idle)
    &&& after.clock.fwd >= before.clock.fwd
    &&& after.clock.bwd >= before.clock.bwd
    &&& (before.clock_at_rest() ==> after.clock == before.clock && after.clock_at_rest())
    &&& after.diag.steps == (if after.pending is Idle {
        sat_add(before.diag.steps, 1)
    } else {
        before.diag.steps
    })
    &&& before.diag.w_plus <= after.diag.w_plus
    &&& before.diag.w_minus <= after.diag.w_minus
    &&& (e is Judge ==> after.diag.w_plus <= before.diag.w_plus + 1 && after.diag.w_minus
        <= before.diag.w_minus + 1)
    &&& (!(e is Judge) ==> after.diag.w_plus == before.diag.w_plus && after.diag.w_minus
        == before.diag.w_minus && after.untouched(before))
    &&& (before.layers() == 0 && after.diag.w_plus < u32::MAX && after.diag.w_minus < u32::MAX
        ==> after.bond_balance() == before.bond_balance())
}

/// The beginning of a step, made while none is under way.
pub proof fn lemma_begin_event(v: SimView)
    requires
        v.wf(),
        v.pending is Idle,
    ensures
        advanced(v, Event::Begin, v.begin_step().0),
        v.begin_step().0.awaits(v.begin_step().1),
{
    let s = SimView {
        step_count: if v.step_count == u32::MAX { 0 } else { (v.step_count + 1) as u32 },
        ..v
    };
    if s.params.p3_on {
        let f = s.cycle_fitted();
        assert(f.live());
        lemma_schedule(f.params.rates, f.phase as int);
        let slot = schedule(f.params.rates)[f.phase as int];
        lemma_run_slot(f, slot);
        assert(sound(f, f.run_slot(slot)));
    } else {
        let r: u32 = xorshift(s.rng);
        let u: u32 = unit_of(r);
        let rates = s.params.rates;
        let t = s.with_rng(r);
        assert(t.live());
        if u < rates.bond_cut {
            lemma_bond_step(t);
        } else if u < rates.counter_cut {
            lemma_counter_step(t);
        } else if u < rates.apparatus_cut {
            lemma_apparatus_step(t);
        } else if u < rates.field_cut {
            lemma_field_step(t);
        } else {
            lemma_particle_step(t);
        }
    }
}

/// The pairs, supplied while they are asked for.
pub proof fn lemma_pairs_event(v: SimView, near: Seq<bool>)
    requires
        v.wf(),
        v.pending is Pairs,
    ensures
        advanced(v, Event::Pairs(near), v.supply_pairs(near).0),
{
    lemma_supply_pairs(v, near);
}

/// A verdict, given while a proposal is open.
pub proof fn lemma_judge_event(v: SimView, verdict: Verdict)
    requires
        v.wf(),
        v.pending is Judge,
    ensures
        advanced(v, Event::Judge(verdict), v.resolve(verdict).0),
{
    lemma_resolve(v, verdict);
    let p = v.pending->Judge_0;
    let idle = SimView { pending: Phase::Idle, ..v };
    let r: u32 = xorshift(v.rng);
    let s = if verdict.free { idle } else { idle.with_rng(r) };
    if verdict.free || unit_of(r) < verdict.cut {
        lemma_committed(s, p, verdict);
        let c = s.committed(p, verdict);
        lemma_finished(c, StepDiag::of(p), true, p.delta());
    } else {
        lemma_finished(s, StepDiag::none(), false, 0);
    }
}

/// Every call of a step, made when the state waits for it, advances the
/// state as `advanced` says.
pub proof fn lemma_step_event(v: SimView, e: Event)
    requires
        v.wf(),
        v.expects(e),
    ensures
        advanced(v, e, v.after(e)),
{
    reveal(SimView::after);
    match e {
        Event::Begin => lemma_begin_event(v),
        Event::Pairs(near) => lemma_pairs_event(v, near),
        Event::Judge(verdict) => lemma_judge_event(v, verdict),
        _ => {},
    }
}

/// An update leaves the configuration within its ranges.
pub proof fn lemma_merged(p: Params, u: ParamUpdate)
    requires
        p.wf(),
    ensures
        p.merged(u).wf(),
        u.l_w is None ==> p.merged(u).l_w == p.l_w,
        u.l_n is None ==> p.merged(u).l_n == p.l_n,
        u.l_a is None ==> p.merged(u).l_a == p.l_a,
        u.l_s is None ==> p.merged(u).l_s == p.l_s,
{
}

/// The first part of an update leads to a state that is valid up to the tower.
pub proof fn lemma_reconfigured(v: SimView, u: ParamUpdate)
    requires
        v.wf(),
    ensures
        v.reconfigured(u).loose(v.params),
        v.reconfigured(u).n == v.n,
{
    lemma_merged(v.params, u);
    lemma_cells_bound(v.params);
    lemma_cells_bound(v.params.merged(u));
    let a = v.retimed(u);
    let b = a.bounded_w(u);
    lemma_total_bound(b.w, 255);
    assert(255 * b.w.len() <= 255 * 0xffff_ffff) by (nonlinear_arith)
        requires
            b.w.len() <= 0xffff_ffff,
    ;
    assert(b.bounds_w() && b.sum_w == total(b.w));
    let c = b.bounded_n(u);
    assert(c.bounds_n());
    let d = c.bounded_a(u);
    assert(d.bounds_a());
    let e = d.bounded_s(u, v.params.grid_size);
    lemma_total_bound(e.field, 255);
    assert(255 * e.field.len() <= 255 * 0x1_0000) by (nonlinear_arith)
        requires
            e.field.len() <= 0x1_0000,
    ;
    if e.params.grid_size != v.params.grid_size {
        lemma_total_zeros(e.field);
    }
    assert(e.bounds_s() && e.sum_s == total(e.field));
    assert(e.bounds_w() && e.bounds_n() && e.bounds_a());
}

/// Resampling keeps a state valid up to the tower.
pub proof fn lemma_randomized(v: SimView, t: TablesView, prev: Params)
    requires
        v.loose(prev),
    ensures
        v.randomized(t).loose(prev),
        v.randomized(t).n == v.n,
        v.randomized(t).params == v.params,
{
    let r = v.randomized(t);
    let p = v.params;
    lemma_cells_bound(p);
    assert forall|c: Seq<u32>, u: u32, top: int| 0 <= top implies 0 <= #[trigger] sample(c, u, top)
        <= top by {
        lemma_sample_range(c, u, top, 0);
    }
    lemma_total_bound(r.w, 255);
    assert(255 * r.w.len() <= 255 * 0xffff_ffff) by (nonlinear_arith)
        requires
            r.w.len() <= 0xffff_ffff,
    ;
    lemma_total_bound(r.field, 255);
    assert(255 * r.field.len() <= 255 * 0x1_0000) by (nonlinear_arith)
        requires
            r.field.len() <= 0x1_0000,
    ;
    assert(r.bounds_w());
    assert(r.bounds_n());
    assert(r.bounds_a());
    assert(r.bounds_s());
    if v.coupled() {
        assert(0 <= v.layers() * v.cells()) by (nonlinear_arith)
            requires
                0 <= v.layers(),
                0 <= v.cells(),
        ;
        lemma_fresh_budget(v.layers() * v.cells(), v.r_count(), p.op_budget_k);
    }
}

/// The last part of an update restores the whole invariant.
pub proof fn lemma_settled(v: SimView, prev: Params)
    requires
        v.loose(prev),
    ensures
        v.settled(prev).wf(),
        v.settled(prev).n == v.n,
        v.settled(prev).params == v.params,
{
    let s = v.settled(prev);
    lemma_cells_bound(v.params);
    assert(0 <= v.layers() * v.cells()) by (nonlinear_arith)
        requires
            0 <= v.layers(),
            0 <= v.cells(),
    ;
    assert(v.layers() * (2 * v.cells()) == 2 * (v.layers() * v.cells())) by (nonlinear_arith);
    if v.coupled() && !v.kernel_kept(prev) {
        lemma_fresh_budget(v.layers() * v.cells(), v.r_count(), v.params.op_budget_k);
    }
    assert(s.shape_ok());
    assert(s.bounds_ok());
    assert(s.budget_ok());
}

/// A configuration update keeps the state valid.
pub proof fn lemma_configured(v: SimView, u: ParamUpdate, t: TablesView)
    requires
        v.wf(),
    ensures
        v.configured(u, t).wf(),
        v.configured(u, t).n == v.n,
        v.configured(u, t).params == v.params.merged(u),
        v.configured(u, t).log == v.log,
        v.configured(u, t).log_overflowed == v.log_overflowed,
{
    lemma_reconfigured(v, u);
    let a = v.reconfigured(u);
    if u.init_random == Some(true) {
        lemma_randomized(a, t, v.params);
        lemma_settled(a.randomized(t), v.params);
    } else {
        lemma_settled(a, v.params);
    }
}

/// A sweep keeps the length of the array and the bound on its entries.
pub proof fn lemma_swept(s: Seq<u8>, seed: u32, k: nat, base: int, by: Sweeper)
    requires
        0 <= base,
        base + k <= s.len(),
        forall|i: int| 0 <= i < s.len() ==> #[trigger] s[i] <= by.top,
    ensures
        swept(s, seed, k, base, by).cells.len() == s.len(),
        forall|i: int|
            0 <= i < s.len() ==> #[trigger] swept(s, seed, k, base, by).cells[i] <= by.top,
        forall|i: int|
            0 <= i < s.len() && !(base <= i < base + k) ==> #[trigger] swept(
                s,
                seed,
                k,
                base,
                by,
            ).cells[i] == s[i],
    decreases k,
{
    if k > 0 {
        lemma_swept(s, seed, (k - 1) as nat, base, by);
    }
}

/// A perturbation keeps the state valid.
pub proof fn lemma_perturbed(
    v: SimView,
    target: Target,
    mode: Mode,
    region: Region,
    cut: u32,
    seed: Option<u32>,
)
    requires
        v.wf(),
    ensures
        v.perturbed(target, mode, region, cut, seed).wf(),
        v.perturbed(target, mode, region, cut, seed).n == v.n,
        v.perturbed(target, mode, region, cut, seed).params == v.params,
        v.perturbed(target, mode, region, cut, seed).log == v.log,
        v.perturbed(target, mode, region, cut, seed).log_overflowed == v.log_overflowed,
{
    if cut != 0 {
        lemma_cells_bound(v.params);
        let drawn: u32 = xorshift(v.rng);
        let start: u32 = match seed {
            Some(x) => x,
            None => drawn,
        };
        let by = v.sweeper(mode, region, cut);
        match target {
            Target::BaseField => {
                lemma_swept(v.field, start, v.cells() as nat, 0, by);
                let field = swept(v.field, start, v.cells() as nat, 0, by).cells;
                lemma_total_bound(field, 255);
                assert(255 * field.len() <= 255 * 0x1_0000) by (nonlinear_arith)
                    requires
                        field.len() <= 0x1_0000,
                ;
            },
            Target::MetaField(layer) => {
                if layer < v.params.meta_layers {
                    lemma_layer_slot(layer as int, 0, v.layers(), v.cells());
                    assert(layer * v.cells() + v.cells() <= v.layers() * v.cells())
                        by (nonlinear_arith)
                        requires
                            0 <= layer < v.layers(),
                            0 <= v.cells(),
                    ;
                    lemma_swept(v.meta_field, start, v.cells() as nat, layer * v.cells(), by);
                }
            },
        }
    }
}

/// Every call leads from a valid state to a valid state.
pub proof fn lemma_after_valid(v: SimView, e: Event)
    requires
        v.wf(),
    ensures
        v.after(e).wf(),
        v.after(e).n == v.n,
        !(e is ClearLog) ==> v.after(e).log_extends(v),
{
    reveal(SimView::after);
    match e {
        Event::Begin => lemma_begin_step(v),
        Event::Pairs(near) => lemma_supply_pairs(v, near),
        Event::Judge(verdict) => lemma_resolve(v, verdict),
        Event::Configure(u, t) => lemma_configured(v, u, t),
        Event::Perturb(target, mode, region, cut, seed) => lemma_perturbed(
            v,
            target,
            mode,
            region,
            cut,
            seed,
        ),
        Event::ClearLog => {},
    }
}

/// The invariant holds after every sequence of calls: steps begun and
/// answered in any order, with any answers, between any updates and
/// perturbations.
pub proof fn lemma_run(v: SimView, events: Seq<Event>)
    requires
        v.wf(),
    ensures
        v.run(events).wf(),
        v.run(events).n == v.n,
    decreases events.len(),
{
    reveal_with_fuel(SimView::run, 1);
    if events.len() > 0 {
        lemma_run(v, events.drop_last());
        lemma_after_valid(v.run(events.drop_last()), events.last());
    }
}

} // verus!
