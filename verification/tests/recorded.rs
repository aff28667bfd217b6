//! Runs under many configurations, each held to a digest of the whole state.

use sim_core::configure::SamplingTables;
use sim_core::params::{ParamUpdate, Rates, TargetWeight};
use sim_core::perturb::{Mode, Region, Target};
use sim_core::rng::UNIT;
use sim_core::state::{Proposal, Request, Sim, Verdict};

fn write_verdict(from: i32, to: i32, index: usize, code: u64) -> Verdict {
    Verdict { free: to < from, cut: 12_582_912, high: index % 2 == 0, ep_bits: index as u64 * 7 + code }
}

fn judge_move(p: &Proposal) -> Verdict {
    match *p {
        Proposal::Particle { ux, uy, .. } => Verdict { free: ux < uy, cut: ux, high: false, ep_bits: 0 },
        Proposal::Clock { up } => {
            Verdict { free: false, cut: if up { 12_582_912 } else { UNIT / 4 }, high: false, ep_bits: 0 }
        }
        Proposal::Budget { cell, r_from, r_to, .. } => {
            Verdict { free: r_from > r_to, cut: UNIT / 2, high: false, ep_bits: cell as u64 }
        }
        Proposal::Bond { index, from, to, .. } => write_verdict(from as i32, to as i32, index, 1),
        Proposal::BondMeta { edge, from, to, .. } => write_verdict(from as i32, to as i32, edge, 2),
        Proposal::Apparatus { k, from, to } => write_verdict(from as i32, to as i32, k, 3),
        Proposal::ApparatusMeta { cell, from, to, .. } => write_verdict(from as i32, to as i32, cell, 4),
        Proposal::Counter { k, from, to } => write_verdict(from as i32, to as i32, k, 5),
        Proposal::CounterMeta { cell, from, to, .. } => write_verdict(from as i32, to as i32, cell, 6),
        Proposal::Field { cell, from, to, .. } => write_verdict(from as i32, to as i32, cell, 7),
        Proposal::FieldMeta { cell, from, to, .. } => write_verdict(from as i32, to as i32, cell, 8),
    }
}

fn run(sim: &mut Sim, steps: u32) {
    for _ in 0..steps {
        let mut req = sim.begin_step();
        if let Request::Pairs = req {
            let flags: Vec<bool> = (0..sim.weights().len()).map(|i| i % 3 != 1).collect();
            req = sim.supply_pairs(&flags);
        }
        if let Request::Judge(p) = req {
            sim.resolve(judge_move(&p));
        }
    }
}

fn rates(cuts: [u32; 4], on: [bool; 4]) -> Rates {
    Rates {
        bond_cut: cuts[0],
        counter_cut: cuts[1],
        apparatus_cut: cuts[2],
        field_cut: cuts[3],
        bond_on: on[0],
        counter_on: on[1],
        apparatus_on: on[2],
        field_on: on[3],
    }
}

fn fold(values: impl Iterator<Item = u32>) -> u64 {
    let mut h: u32 = 0;
    for (i, v) in values.enumerate() {
        h = h.wrapping_mul(31).wrapping_add(v).wrapping_add(i as u32);
    }
    h as u64
}

/// Everything the engine holds, folded into a row of numbers.
fn digest(sim: &Sim) -> [u64; 35] {
    let d = sim.diag_totals();
    let c = d.counts();
    let log = sim.accept_log();
    let (obs_w, obs_s) = sim.p3_observables();
    [
        sim.rng_state() as u64,
        sim.step_count() as u64,
        sim.sums().0 as u32 as u64,
        sim.sums().1 as u32 as u64,
        fold(sim.weights().iter().map(|v| *v as u32)),
        fold(sim.counters().iter().map(|v| *v as i32 as u32)),
        fold(sim.apparatus().iter().map(|v| *v as u32)),
        fold(sim.field().iter().map(|v| *v as u32)),
        fold(sim.meta_field().iter().map(|v| *v as u32)),
        fold(sim.meta_n_field().iter().map(|v| *v as i32 as u32)),
        fold(sim.meta_a_field().iter().map(|v| *v as u32)),
        fold(sim.meta_w_edges().iter().map(|v| *v as u32)),
        fold(sim.op_k_tokens().iter().map(|v| *v as u32)),
        sim.clock_state() as u64,
        sim.clock_q() as u32 as u64,
        sim.clock_fwd(),
        sim.clock_bwd(),
        sim.accept_log_len() as u64,
        sim.accept_log_overflowed() as u64,
        fold(sim.accept_log_u32().into_iter()),
        fold(log.iter().map(|r| r.ep_bits as u32)),
        sim.phase() as u64,
        sim.p3_cycle_len() as u64,
        fold(obs_w.iter().map(|v| *v as u32)),
        fold(obs_s.iter().map(|v| *v as u32)),
        c.8 as u64,
        c.0 as u64,
        c.1 as u64,
        c.2 as u64,
        c.3 as u64,
        c.4 as u64,
        c.5 as u64,
        c.6 as u64,
        c.7 as u64,
        fold(d.counts_hl().into_iter()),
    ]
}

/// The invariants, recounted from what the accessors show.
fn check(sim: &Sim) {
    let p = sim.params();
    let g = p.grid_size as usize;
    let layers = p.meta_layers as usize;
    assert_eq!(sim.field().len(), g * g);
    assert_eq!(sim.meta_field().len(), layers * g * g);
    assert_eq!(sim.meta_n_field().len(), layers * g * g);
    assert_eq!(sim.meta_a_field().len(), layers * g * g);
    assert_eq!(sim.meta_w_edges().len(), layers * 2 * g * g);
    assert!(sim.weights().iter().chain(sim.meta_w_edges()).all(|w| *w <= p.l_w));
    assert!(sim.counters().iter().chain(sim.meta_n_field()).all(|n| -p.l_n <= *n && *n <= p.l_n));
    assert!(sim.apparatus().iter().chain(sim.meta_a_field()).all(|a| *a <= p.l_a));
    assert!(sim.field().iter().chain(sim.meta_field()).all(|s| *s <= p.l_s));
    assert_eq!(sim.sums().0, sim.weights().iter().map(|w| *w as i64).sum::<i64>());
    assert_eq!(sim.sums().1, sim.field().iter().map(|s| *s as i64).sum::<i64>());
    let rc = sim.op_r_count() as usize;
    if p.op_coupling_on && layers > 0 {
        assert_eq!(sim.op_k_tokens().len(), layers * g * g * rc);
        assert!(sim.op_k_tokens().chunks(rc).all(|c| c.iter().map(|k| *k as u32).sum::<u32>() == p.op_budget_k as u32));
    } else {
        assert!(sim.op_k_tokens().is_empty());
    }
    assert!(sim.clock_state() < p.clock_k as u32);
    assert_eq!(sim.clock_q(), sim.clock_fwd() as i64 - sim.clock_bwd() as i64);
    assert_eq!(sim.w_histogram().iter().map(|c| *c as usize).sum::<usize>(), sim.weights().len());
    assert_eq!(sim.s_histogram().iter().map(|c| *c as usize).sum::<usize>(), g * g);
    assert!(sim.accept_log_len() <= p.accept_log_cap.max(sim.accept_log_len().min(2_000_000)));
}

#[test]
fn recorded_run_00() {
    let mut sim = Sim::new(5, 1);
    {
    let mut u = ParamUpdate::new();
    u.p3_on = Some(false);
    u.p6_on = Some(true);
    u.accept_log_on = Some(true);
    u.l_a = Some(1);
    u.l_s = Some(5);
    u.grid_size = Some(4);
    u.op_budget_k = Some(29);
    u.repair_gate_mode = Some(2);
    u.repair_gate_span = Some(5);
    let t = SamplingTables::empty();
    sim.set_params(&u, &t);
    }
    run(&mut sim, 538);
    check(&sim);
    assert_eq!(digest(&sim), [1628565675, 538, 4, 10, 4263513477, 4294138139, 985123, 650097610, 0, 0, 0, 0, 0, 0, 0, 0, 0, 0, 0, 0, 0, 0, 0, 0, 0, 538, 41, 37, 16, 13, 9, 6, 12, 2, 3277694388]);
    {
    let mut u = ParamUpdate::new();
    u.p6_on = Some(true);
    u.repair_clock_gated = Some(true);
    u.l_s = Some(9);
    u.grid_size = Some(0);
    u.op_budget_k = Some(20);
    u.repair_gate_span = Some(2);
    let t = SamplingTables::empty();
    sim.set_params(&u, &t);
    }
    run(&mut sim, 249);
    check(&sim);
    assert_eq!(digest(&sim), [1687545380, 787, 14, 3, 4178367039, 4293185786, 985154, 30879, 0, 0, 0, 0, 0, 0, 0, 0, 0, 0, 0, 0, 0, 0, 0, 0, 0, 787, 60, 46, 19, 19, 12, 8, 15, 2, 3007990761]);
    {
    let mut u = ParamUpdate::new();
    u.accept_log_on = Some(false);
    u.l_n = Some(3);
    u.grid_size = Some(4);
    u.meta_layers = Some(3);
    u.accept_log_cap = Some(2550);
    u.code_noise_batch = Some(4);
    u.target_weight = Some(TargetWeight::Even);
    let t = SamplingTables::empty();
    sim.set_params(&u, &t);
    }
    run(&mut sim, 812);
    check(&sim);
    sim.apply_perturbation(Target::BaseField, Mode::Randomize, Region::All, 8388608, None);
    assert_eq!(digest(&sim), [1057437232, 1599, 10, 30, 1940156543, 4292291067, 62562, 2160529516, 2831048406, 2064477908, 2493986747, 439890475, 0, 0, 0, 0, 0, 0, 0, 0, 0, 0, 0, 0, 0, 1599, 113, 72, 34, 39, 22, 11, 23, 4, 4122306246]);
    {
    let mut u = ParamUpdate::new();
    u.accept_log_on = Some(true);
    u.repair_clock_gated = Some(false);
    u.l_w = Some(9);
    u.l_s = Some(3);
    u.op_budget_k = Some(19);
    u.code_noise_batch = Some(3);
    u.clock_cut = Some(0);
    u.target_weight = Some(TargetWeight::Split([4497039, 10601920, 11542873, 7963386, 15235351, 14313366, 741202, 2062403, 3607622, 14737458, 6208438, 923440, 1050475, 9369467, 1814371, 14084364]));
    let t = SamplingTables::empty();
    sim.set_params(&u, &t);
    }
    run(&mut sim, 306);
    check(&sim);
    assert_eq!(digest(&sim), [4237897244, 1905, 11, 16, 1547993472, 4292291067, 61601, 510640520, 3242350934, 1156005331, 3510288632, 3952687533, 0, 0, 0, 0, 0, 0, 0, 0, 0, 0, 0, 0, 0, 1905, 142, 82, 37, 43, 24, 13, 28, 6, 1620181393]);
}

#[test]
fn recorded_run_01() {
    let mut sim = Sim::new(8, 2991832633);
    {
    let mut u = ParamUpdate::new();
    u.rates = Some(rates([1413717, 6156909, 8570828, 12763848], [true, false, true, false]));
    u.p3_on = Some(true);
    u.clock_on = Some(true);
    u.repair_clock_gated = Some(true);
    u.l_s = Some(4);
    u.s_coupling_mode = Some(2);
    u.repair_gate_mode = Some(1);
    u.repair_gate_span = Some(3);
    let t = SamplingTables::empty();
    sim.set_params(&u, &t);
    }
    run(&mut sim, 666);
    check(&sim);
    assert_eq!(digest(&sim), [968275044, 666, 21, 0, 1592760869, 947656708, 3636243036, 452919424, 0, 0, 0, 0, 0, 0, 0, 0, 0, 0, 0, 0, 0, 0, 3, 20886, 33, 666, 75, 54, 0, 0, 75, 61, 0, 0, 3838341128]);
    {
    let mut u = ParamUpdate::new();
    u.p3_on = Some(false);
    u.p6_on = Some(false);
    u.op_coupling_on = Some(false);
    u.op_stencil = Some(2);
    u.op_budget_k = Some(1);
    u.code_noise_batch = Some(2);
    u.code_noise_layer = Some(4);
    u.clock_cut = Some(0);
    let t = SamplingTables::empty();
    sim.set_params(&u, &t);
    }
    run(&mut sim, 826);
    check(&sim);
    sim.apply_perturbation(Target::MetaField(2), Mode::Zero, Region::All, 16683397, None);
    assert_eq!(digest(&sim), [1231986356, 1492, 20, 70, 654757860, 4028850671, 3668410181, 852405480, 0, 0, 0, 0, 0, 0, 0, 0, 0, 0, 0, 0, 0, 0, 0, 0, 0, 1492, 103, 83, 87, 110, 120, 107, 86, 16, 3838341128]);
    {
    let mut u = ParamUpdate::new();
    u.accept_log_on = Some(true);
    u.meta_layers = Some(3);
    u.repair_gate_mode = Some(1);
    u.accept_log_mask = Some(421);
    u.code_noise_cut = Some(0);
    let t = SamplingTables::empty();
    sim.set_params(&u, &t);
    }
    run(&mut sim, 809);
    check(&sim);
    sim.apply_perturbation(Target::BaseField, Mode::Randomize, Region::Stripe { bins: Some(11), span: Some(1), bin: None }, 268791, Some(381471263));
    assert_eq!(digest(&sim), [394982173, 2301, 24, 87, 1226669416, 4088752431, 3640703590, 1266424421, 3480783777, 2724092321, 940336642, 2518689217, 0, 0, 0, 0, 0, 48, 0, 3766077258, 3345878636, 0, 0, 0, 0, 2301, 134, 89, 190, 210, 168, 118, 129, 21, 3838341128]);
    {
    let mut u = ParamUpdate::new();
    u.rates = Some(rates([14876338, 7003199, 11470940, 4167042], [true, true, true, true]));
    u.p3_on = Some(false);
    u.op_coupling_on = Some(false);
    u.repair_clock_gated = Some(false);
    u.l_n = Some(6);
    u.l_a = Some(7);
    u.s_coupling_mode = Some(1);
    u.accept_log_mask = Some(1275);
    u.clock_cut = Some(0);
    let t = SamplingTables::empty();
    sim.set_params(&u, &t);
    }
    run(&mut sim, 131);
    check(&sim);
    sim.apply_perturbation(Target::MetaField(0), Mode::Zero, Region::Stripe { bins: Some(0), span: Some(3), bin: Some(8) }, 744891, None);
    assert_eq!(digest(&sim), [2001371065, 2432, 20, 87, 2382349254, 4088752431, 3640703590, 1266424421, 3480783777, 2724092321, 940336642, 2616596150, 0, 0, 0, 0, 0, 48, 0, 3766077258, 3345878636, 0, 0, 0, 0, 2432, 164, 102, 190, 210, 168, 118, 129, 21, 3838341128]);
    {
    let mut u = ParamUpdate::new();
    u.rates = Some(rates([1358377, 1829883, 8305548, 10528345], [false, true, true, true]));
    u.p3_on = Some(true);
    u.p6_on = Some(false);
    u.accept_log_on = Some(false);
    u.repair_clock_gated = Some(true);
    u.l_w = Some(0);
    u.op_budget_k = Some(39);
    u.accept_log_cap = Some(567);
    u.accept_log_mask = Some(763);
    let t = SamplingTables::empty();
    sim.set_params(&u, &t);
    }
    run(&mut sim, 169);
    check(&sim);
    sim.apply_perturbation(Target::MetaField(0), Mode::Zero, Region::Quadrant(None), 16777216, None);
    assert_eq!(digest(&sim), [1611358310, 2601, 11, 88, 854686827, 649062957, 318203876, 608685414, 1101083807, 3481889050, 1460792929, 2616596150, 0, 0, 0, 0, 0, 48, 0, 3766077258, 3345878636, 1, 4, 339650, 2710018, 2601, 164, 102, 204, 233, 184, 123, 132, 22, 3838341128]);
}

#[test]
fn recorded_run_02() {
    let mut sim = Sim::new(0, 2307320856);
    {
    let mut u = ParamUpdate::new();
    u.rates = Some(rates([4112940, 5678556, 6987632, 10124993], [true, false, true, true]));
    u.p3_on = Some(false);
    u.accept_log_on = Some(true);
    u.op_stencil = Some(2);
    u.code_noise_batch = Some(3);
    u.accept_log_mask = Some(1720);
    u.code_noise_cut = Some(838860);
    let t = SamplingTables::empty();
    sim.set_params(&u, &t);
    }
    run(&mut sim, 423);
    check(&sim);
    assert_eq!(digest(&sim), [1072827771, 423, 0, 34, 0, 0, 0, 1572787142, 0, 0, 0, 0, 0, 0, 0, 0, 0, 36, 0, 118595806, 3040680456, 0, 0, 0, 0, 423, 0, 0, 0, 0, 0, 0, 35, 1, 3838341128]);
    {
    let mut u = ParamUpdate::new();
    u.rates = Some(rates([6330630, 8707984, 11137866, 11459037], [false, false, true, true]));
    u.accept_log_on = Some(false);
    u.clock_on = Some(true);
    u.l_a = Some(6);
    u.l_s = Some(8);
    u.op_budget_k = Some(7);
    u.clock_cut = Some(0);
    let t = SamplingTables::empty();
    sim.set_params(&u, &t);
    }
    run(&mut sim, 614);
    check(&sim);
    assert_eq!(digest(&sim), [1356457847, 1037, 0, 36, 0, 0, 0, 1349838694, 0, 0, 0, 0, 0, 0, 0, 0, 0, 36, 0, 118595806, 3040680456, 0, 0, 0, 0, 1037, 0, 0, 0, 0, 0, 0, 37, 1, 3838341128]);
    {
    let mut u = ParamUpdate::new();
    u.rates = Some(rates([2752780, 7710177, 13908447, 15716313], [true, false, true, true]));
    u.p6_on = Some(false);
    u.op_coupling_on = Some(true);
    u.clock_on = Some(false);
    u.l_w = Some(1);
    u.l_n = Some(2);
    u.op_budget_k = Some(4);
    u.accept_log_cap = Some(540);
    u.repair_gate_mode = Some(0);
    u.init_random = Some(true);
    let t = SamplingTables { bond: vec![vec![9510213], vec![1695304], vec![97366, 4088923, 5762947, 5867551, 11142399, 16692654]], bond_meta: vec![610399, 2890884, 6053557, 12035251, 15551933], counter: vec![194912, 601429, 660923, 855674, 3423462, 5227502, 5916183, 7346141, 10884092, 11941117, 12420243, 13837097, 15358161], apparatus: vec![], field: vec![613717, 4298768, 4528538, 5780410, 6633892, 9320845, 9777244, 12834858] };
    sim.set_params(&u, &t);
    }
    run(&mut sim, 374);
    check(&sim);
    sim.apply_perturbation(Target::MetaField(2), Mode::Zero, Region::Quadrant(None), 16777216, Some(1602016214));
    assert_eq!(digest(&sim), [3325529635, 1411, 0, 1188, 0, 0, 0, 2955031686, 0, 0, 0, 0, 0, 0, 0, 0, 0, 36, 0, 118595806, 3040680456, 0, 0, 0, 0, 1411, 0, 0, 0, 0, 0, 0, 51, 23, 3838341128]);
    {
    let mut u = ParamUpdate::new();
    u.rates = Some(rates([7763758, 10845932, 11523746, 16543015], [true, true, true, false]));
    u.op_coupling_on = Some(true);
    u.accept_log_on = Some(true);
    u.clock_on = Some(true);
    u.repair_clock_gated = Some(false);
    u.l_n = Some(9);
    u.l_a = Some(7);
    u.grid_size = Some(1);
    u.meta_layers = Some(4);
    u.op_budget_k = Some(25);
    u.accept_log_cap = Some(1002);
    u.clock_k = Some(7);
    let t = SamplingTables::empty();
    sim.set_params(&u, &t);
    }
    run(&mut sim, 267);
    check(&sim);
    assert_eq!(digest(&sim), [1558793187, 1678, 0, 4, 0, 0, 0, 3910, 2102825163, 2296091305, 3332783465, 831313745, 1195723820, 0, 0, 0, 0, 64, 0, 2033646776, 3106944921, 0, 0, 0, 0, 1678, 24, 11, 14, 15, 4, 1, 80, 34, 3838341128]);
}

#[test]
fn recorded_run_03() {
    let mut sim = Sim::new(0, 1);
    {
    let mut u = ParamUpdate::new();
    u.rates = Some(rates([978126, 11273171, 12449649, 6264425], [false, false, true, true]));
    u.accept_log_on = Some(false);
    u.repair_clock_gated = Some(true);
    u.l_n = Some(0);
    u.grid_size = Some(11);
    u.meta_layers = Some(4);
    u.op_stencil = Some(1);
    u.s_coupling_mode = Some(1);
    u.code_noise_layer = Some(3);
    u.repair_gate_span = Some(0);
    let t = SamplingTables::empty();
    sim.set_params(&u, &t);
    }
    run(&mut sim, 849);
    check(&sim);
    assert_eq!(digest(&sim), [2964027753, 849, 0, 0, 0, 0, 0, 2349162428, 3103237362, 1576206786, 3990029847, 94797769, 0, 0, 0, 0, 0, 0, 0, 0, 0, 0, 0, 0, 0, 849, 19, 0, 121, 193, 19, 0, 0, 0, 3838341128]);
    {
    let mut u = ParamUpdate::new();
    u.op_coupling_on = Some(true);
    u.l_a = Some(7);
    u.code_noise_layer = Some(0);
    u.accept_log_mask = Some(24);
    let t = SamplingTables::empty();
    sim.set_params(&u, &t);
    }
    run(&mut sim, 586);
    check(&sim);
    sim.apply_perturbation(Target::MetaField(1), Mode::Zero, Region::Quadrant(Some(2)), 8388608, None);
    assert_eq!(digest(&sim), [3880985862, 1435, 0, 0, 0, 0, 0, 2349162428, 3103237362, 2815873949, 2997674172, 2193684521, 3922807696, 0, 0, 0, 0, 0, 0, 0, 0, 0, 0, 0, 0, 1435, 29, 0, 211, 286, 33, 3, 0, 0, 3838341128]);
}

#[test]
fn recorded_run_04() {
    let mut sim = Sim::new(0, 85888749);
    {
    let mut u = ParamUpdate::new();
    u.p3_on = Some(true);
    u.op_coupling_on = Some(false);
    u.l_n = Some(0);
    u.l_a = Some(0);
    u.op_budget_k = Some(25);
    u.clock_k = Some(6);
    u.accept_log_mask = Some(1830);
    let t = SamplingTables::empty();
    sim.set_params(&u, &t);
    }
    run(&mut sim, 818);
    check(&sim);
    sim.apply_perturbation(Target::MetaField(3), Mode::Zero, Region::Stripe { bins: Some(12), span: Some(2), bin: Some(118) }, 0, None);
    assert_eq!(digest(&sim), [1614895252, 818, 0, 44, 0, 0, 0, 3799984150, 0, 0, 0, 0, 0, 0, 0, 0, 0, 0, 0, 0, 0, 3, 5, 31810, 42021199, 818, 0, 0, 0, 0, 0, 0, 54, 10, 3838341128]);
    {
    let mut u = ParamUpdate::new();
    u.op_coupling_on = Some(true);
    u.repair_clock_gated = Some(true);
    u.meta_layers = Some(2);
    u.s_coupling_mode = Some(1);
    u.accept_log_cap = Some(1641);
    u.code_noise_layer = Some(3);
    u.clock_k = Some(4);
    u.repair_gate_mode = Some(1);
    u.accept_log_mask = Some(648);
    let t = SamplingTables::empty();
    sim.set_params(&u, &t);
    }
    run(&mut sim, 701);
    check(&sim);
    sim.apply_perturbation(Target::MetaField(3), Mode::Zero, Region::Stripe { bins: Some(3), span: None, bin: Some(201) }, 0, Some(2118379771));
    assert_eq!(digest(&sim), [185939646, 1519, 0, 54, 0, 0, 0, 4125381076, 1521454977, 3960988287, 1769838748, 313508006, 3438378216, 0, 0, 0, 0, 0, 0, 0, 0, 4, 5, 31810, 51564280, 1519, 31, 3, 41, 50, 36, 2, 70, 11, 3838341128]);
    {
    let mut u = ParamUpdate::new();
    u.l_w = Some(8);
    u.meta_layers = Some(1);
    u.s_coupling_mode = Some(0);
    let t = SamplingTables::empty();
    sim.set_params(&u, &t);
    }
    run(&mut sim, 163);
    check(&sim);
    sim.apply_perturbation(Target::MetaField(1), Mode::Randomize, Region::Quadrant(None), 16777216, Some(539126348));
    assert_eq!(digest(&sim), [771832634, 1682, 0, 57, 0, 0, 0, 2873350359, 69691040, 3209982686, 2800465408, 2368793950, 3915524348, 0, 0, 0, 0, 0, 0, 0, 0, 2, 5, 31810, 54427195, 1682, 39, 3, 46, 59, 40, 2, 75, 11, 3838341128]);
    {
    let mut u = ParamUpdate::new();
    u.accept_log_on = Some(false);
    u.grid_size = Some(12);
    u.meta_layers = Some(4);
    u.accept_log_mask = Some(1756);
    u.code_noise_cut = Some(5592405);
    u.target_weight = Some(TargetWeight::Split([1764075, 4582565, 7003464, 10385686, 7441814, 16671457, 136075, 7148418, 642482, 3634049, 5838892, 7777371, 7836806, 10644143, 10540212, 6992869]));
    let t = SamplingTables::empty();
    sim.set_params(&u, &t);
    }
    run(&mut sim, 509);
    check(&sim);
    sim.apply_perturbation(Target::MetaField(3), Mode::Randomize, Region::Stripe { bins: Some(4), span: Some(0), bin: Some(125) }, 0, None);
    assert_eq!(digest(&sim), [4135320869, 2191, 0, 10, 0, 0, 0, 1333210950, 1618513950, 103133148, 2040306250, 2756496727, 174152116, 0, 0, 0, 0, 0, 0, 0, 0, 1, 5, 31810, 9574860, 2191, 64, 3, 85, 90, 69, 3, 90, 13, 3838341128]);
    {
    let mut u = ParamUpdate::new();
    u.rates = Some(rates([1053335, 5328749, 6307248, 8245680], [false, true, true, true]));
    u.p3_on = Some(true);
    u.accept_log_on = Some(false);
    u.l_s = Some(6);
    u.grid_size = Some(5);
    u.op_stencil = Some(0);
    u.op_budget_k = Some(15);
    u.s_coupling_mode = Some(0);
    u.accept_log_cap = Some(408);
    u.code_noise_layer = Some(3);
    u.repair_gate_mode = Some(2);
    u.repair_gate_span = Some(3);
    let t = SamplingTables::empty();
    sim.set_params(&u, &t);
    }
    run(&mut sim, 720);
    check(&sim);
    sim.apply_perturbation(Target::MetaField(0), Mode::Randomize, Region::Stripe { bins: Some(2), span: None, bin: None }, 15936098, None);
    assert_eq!(digest(&sim), [4226395871, 2911, 0, 11, 0, 0, 0, 690078795, 581279953, 857676624, 3506643983, 1294555236, 3555878416, 0, 0, 0, 0, 0, 0, 0, 0, 0, 4, 1026, 339650, 2911, 64, 3, 133, 142, 121, 16, 125, 20, 3838341128]);
}

#[test]
fn recorded_run_05() {
    let mut sim = Sim::new(3, 2510355438);
    {
    let mut u = ParamUpdate::new();
    u.p3_on = Some(true);
    u.p6_on = Some(false);
    u.repair_clock_gated = Some(true);
    u.l_a = Some(7);
    u.op_budget_k = Some(22);
    u.repair_gate_span = Some(4);
    u.accept_log_mask = Some(875);
    let t = SamplingTables::empty();
    sim.set_params(&u, &t);
    }
    run(&mut sim, 104);
    check(&sim);
    assert_eq!(digest(&sim), [3377598315, 104, 5, 6, 1958, 1028, 1027, 3170479004, 0, 0, 0, 0, 0, 0, 0, 0, 0, 0, 0, 0, 0, 4, 5, 3879813, 5757640, 104, 9, 4, 12, 7, 8, 4, 7, 1, 3838341128]);
    {
    let mut u = ParamUpdate::new();
    u.rates = Some(rates([12359427, 10853337, 6475499, 14054760], [true, true, true, true]));
    u.p6_on = Some(true);
    u.op_coupling_on = Some(false);
    u.clock_on = Some(false);
    u.grid_size = Some(4);
    u.code_noise_layer = Some(1);
    u.clock_cut = Some(16777216);
    u.target_weight = Some(TargetWeight::Split([10714036, 2105857, 4290794, 1925680, 14101742, 6355645, 5367214, 952270, 10051204, 9952410, 15278114, 15226373, 13349424, 441713, 1812605, 4403269]));
    let t = SamplingTables::empty();
    sim.set_params(&u, &t);
    }
    run(&mut sim, 102);
    check(&sim);
    sim.apply_perturbation(Target::MetaField(1), Mode::Zero, Region::Stripe { bins: None, span: Some(2), bin: Some(64) }, 4611495, None);
    assert_eq!(digest(&sim), [1070559027, 206, 8, 9, 3881, 4294967209, 5863, 919775241, 0, 0, 0, 0, 0, 0, 0, 0, 0, 0, 0, 0, 0, 1, 5, 7666250, 8589772, 206, 19, 11, 18, 18, 19, 9, 19, 4, 609014363]);
    {
    let mut u = ParamUpdate::new();
    u.op_coupling_on = Some(true);
    u.accept_log_on = Some(true);
    u.clock_on = Some(false);
    u.code_noise_layer = Some(4);
    u.clock_k = Some(3);
    u.repair_gate_mode = Some(0);
    let t = SamplingTables::empty();
    sim.set_params(&u, &t);
    }
    run(&mut sim, 807);
    check(&sim);
    sim.apply_perturbation(Target::BaseField, Mode::Randomize, Region::Stripe { bins: Some(12), span: Some(6), bin: Some(145) }, 15398551, None);
    assert_eq!(digest(&sim), [1585995427, 1013, 1, 45, 994, 4741, 37, 955728739, 0, 0, 0, 0, 0, 0, 0, 0, 0, 0, 0, 0, 0, 3, 5, 986115, 23889435, 1013, 75, 74, 86, 88, 73, 69, 88, 57, 3979903866]);
    {
    let mut u = ParamUpdate::new();
    u.clock_on = Some(true);
    u.l_a = Some(3);
    u.accept_log_cap = Some(1120);
    u.code_noise_layer = Some(4);
    u.code_noise_cut = Some(16777216);
    u.target_weight = Some(TargetWeight::Even);
    u.init_random = Some(true);
    let t = SamplingTables { bond: vec![vec![2695747, 2853099, 3233270, 7112049, 8281942, 10220127], vec![2175977, 2399498, 4892611, 6427540, 7834441], vec![], vec![135781, 2046390, 3051220, 9318528, 14968537], vec![2217629, 3058899, 7337827, 7540185, 8097362, 9752948, 15634148], vec![], vec![1545736, 12716455], vec![2297398, 9495913, 11019504, 11977649, 12039916, 12452816], vec![4230650, 4883681, 6158071, 8456784, 14213371, 15570577, 15663855]], bond_meta: vec![3582319, 5230550, 5950691, 6512426, 7604174, 8400555, 12479520, 13246400, 14837272, 15380391], counter: vec![643170, 16628711], apparatus: vec![3879018, 4544277, 9877461, 10711252, 13799918, 14599567], field: vec![2884964, 4972779, 10897809, 14947386] };
    sim.set_params(&u, &t);
    }
    run(&mut sim, 850);
    check(&sim);
    assert_eq!(digest(&sim), [3220702703, 1863, 7, 34, 1150, 4294962364, 1956, 3940010408, 0, 0, 0, 0, 0, 1, 28, 60, 32, 0, 0, 0, 0, 3, 5, 5788392, 32478149, 1863, 129, 136, 86, 88, 126, 125, 149, 124, 173733067]);
}

#[test]
fn recorded_run_06() {
    let mut sim = Sim::new(5, 3205671116);
    {
    let mut u = ParamUpdate::new();
    u.p3_on = Some(false);
    u.p6_on = Some(false);
    u.clock_on = Some(true);
    u.l_w = Some(6);
    u.l_n = Some(4);
    u.l_a = Some(8);
    u.grid_size = Some(2);
    u.meta_layers = Some(0);
    u.accept_log_cap = Some(103);
    u.clock_k = Some(2);
    u.repair_gate_span = Some(2);
    u.clock_cut = Some(16777216);
    let t = SamplingTables::empty();
    sim.set_params(&u, &t);
    }
    run(&mut sim, 271);
    check(&sim);
    sim.apply_perturbation(Target::MetaField(2), Mode::Randomize, Region::Quadrant(Some(3)), 8388608, None);
    assert_eq!(digest(&sim), [499323123, 271, 6, 5, 1053576259, 31810, 4740711, 3011, 0, 0, 0, 0, 0, 0, 6, 8, 2, 0, 0, 0, 0, 0, 0, 0, 0, 271, 18, 12, 0, 0, 13, 2, 5, 0, 3838341128]);
    {
    let mut u = ParamUpdate::new();
    u.p3_on = Some(true);
    u.p6_on = Some(true);
    u.op_coupling_on = Some(false);
    u.grid_size = Some(4);
    u.op_budget_k = Some(6);
    u.s_coupling_mode = Some(2);
    u.code_noise_batch = Some(1);
    u.code_noise_layer = Some(1);
    u.clock_k = Some(2);
    u.accept_log_mask = Some(1228);
    u.target_weight = Some(TargetWeight::Split([9503341, 988370, 14397749, 9794623, 4451190, 13949513, 7848672, 14972533, 16180044, 15000481, 12723391, 12993649, 2605899, 2390591, 10533059, 5142692]));
    let t = SamplingTables::empty();
    sim.set_params(&u, &t);
    }
    run(&mut sim, 823);
    check(&sim);
    sim.apply_perturbation(Target::MetaField(3), Mode::Randomize, Region::All, 16777216, Some(1444730762));
    assert_eq!(digest(&sim), [4256920717, 1094, 7, 33, 1162887688, 31810, 1018788, 2993409391, 0, 0, 0, 0, 0, 1, 49, 67, 18, 0, 0, 0, 0, 3, 5, 7635498, 31523875, 1094, 84, 77, 0, 0, 74, 66, 76, 38, 7987881]);
    {
    let mut u = ParamUpdate::new();
    u.rates = Some(rates([15963328, 15744048, 3779553, 6509516], [true, true, true, true]));
    u.accept_log_on = Some(false);
    u.repair_clock_gated = Some(true);
    u.l_s = Some(4);
    u.grid_size = Some(5);
    u.op_stencil = Some(2);
    u.s_coupling_mode = Some(2);
    u.code_noise_batch = Some(4);
    let t = SamplingTables::empty();
    sim.set_params(&u, &t);
    }
    run(&mut sim, 701);
    check(&sim);
    assert_eq!(digest(&sim), [546228709, 1795, 9, 16, 4224207810, 31810, 32926, 1898669764, 0, 0, 0, 0, 0, 0, 84, 124, 40, 0, 0, 0, 0, 4, 5, 9544077, 15300690, 1795, 136, 127, 0, 0, 124, 118, 121, 67, 2874255353]);
    {
    let mut u = ParamUpdate::new();
    u.rates = Some(rates([966797, 6080178, 9153876, 10478018], [true, true, true, true]));
    u.op_coupling_on = Some(true);
    u.clock_on = Some(true);
    u.l_n = Some(0);
    u.l_a = Some(3);
    u.l_s = Some(3);
    u.grid_size = Some(1);
    u.meta_layers = Some(4);
    u.op_stencil = Some(1);
    u.op_budget_k = Some(38);
    u.s_coupling_mode = Some(2);
    u.accept_log_cap = Some(1794);
    u.code_noise_batch = Some(3);
    u.repair_gate_mode = Some(2);
    u.target_weight = Some(TargetWeight::Split([14275129, 7782687, 13682104, 5999081, 11068403, 11699430, 15784201, 14327454, 13318907, 12029742, 6431907, 4492728, 16455315, 3441609, 16738395, 1031718]));
    u.init_random = Some(true);
    let t = SamplingTables { bond: vec![vec![773969, 7128049, 9091291, 14877670], vec![455059, 2066764, 3099941, 3235631, 10430246], vec![951619, 1635404, 7080313, 8879399, 12314635, 14517987, 16771935], vec![4010765, 4176603, 9352043], vec![8201032], vec![663427, 7994336, 13574365], vec![7544657], vec![10873705, 12303459, 13709654, 13724405, 15955485], vec![2441695, 3909913, 5402210, 7205872, 8046740, 9378972, 12207183], vec![3355316, 8662523, 13009219], vec![11297322, 12959887, 13513819, 14388856], vec![11614481, 11985616], vec![2349027, 2873610, 4083773, 5714260, 8376100, 10186961, 16045574], vec![2341202, 2493398, 6799481, 9877324, 12587540, 15890505, 16105490], vec![], vec![]], bond_meta: vec![6800334], counter: vec![1429730, 1927519, 3246559, 4739032, 5319885, 6155232, 7050357, 9907837, 11522041, 12897138, 15288352], apparatus: vec![153422, 3019270, 5525947, 5846672, 16573117], field: vec![] };
    sim.set_params(&u, &t);
    }
    run(&mut sim, 292);
    check(&sim);
    sim.apply_perturbation(Target::BaseField, Mode::Randomize, Region::Stripe { bins: Some(9), span: Some(5), bin: Some(107) }, 8388608, Some(2758143345));
    assert_eq!(digest(&sim), [2209251896, 2087, 24, 5, 2157056487, 926533, 1880869, 3911, 992781160, 3838341128, 4019585640, 3340764556, 173100596, 0, 93, 142, 49, 0, 0, 0, 0, 1, 5, 22935130, 10529165, 2087, 162, 133, 0, 0, 145, 133, 123, 68, 1068996286]);
}

#[test]
fn recorded_run_07() {
    let mut sim = Sim::new(3, 1);
    {
    let mut u = ParamUpdate::new();
    u.op_coupling_on = Some(true);
    u.accept_log_on = Some(true);
    u.op_budget_k = Some(20);
    u.s_coupling_mode = Some(0);
    u.clock_k = Some(8);
    u.repair_gate_span = Some(4);
    u.accept_log_mask = Some(1889);
    u.target_weight = Some(TargetWeight::Even);
    let t = SamplingTables::empty();
    sim.set_params(&u, &t);
    }
    run(&mut sim, 305);
    check(&sim);
    assert_eq!(digest(&sim), [3955367308, 305, 1, 9, 34, 994, 996, 3112442693, 0, 0, 0, 0, 0, 0, 0, 0, 0, 0, 0, 0, 0, 0, 0, 0, 0, 305, 28, 27, 7, 6, 5, 2, 9, 0, 3838341128]);
    {
    let mut u = ParamUpdate::new();
    u.p3_on = Some(false);
    u.clock_on = Some(true);
    u.l_a = Some(1);
    u.op_budget_k = Some(16);
    u.code_noise_layer = Some(1);
    u.accept_log_mask = Some(740);
    u.clock_cut = Some(16777216);
    let t = SamplingTables::empty();
    sim.set_params(&u, &t);
    }
    run(&mut sim, 720);
    check(&sim);
    assert_eq!(digest(&sim), [2159492709, 1025, 2, 20, 35, 994, 1025, 2520744704, 0, 0, 0, 0, 0, 5, 13, 17, 4, 17, 0, 739519442, 858068274, 0, 0, 0, 0, 1025, 74, 72, 7, 6, 10, 7, 23, 3, 3838341128]);
    {
    let mut u = ParamUpdate::new();
    u.rates = Some(rates([14506514, 10043308, 5969841, 11837984], [false, true, true, false]));
    u.p3_on = Some(true);
    u.l_n = Some(0);
    u.l_s = Some(0);
    u.accept_log_cap = Some(956);
    u.repair_gate_span = Some(3);
    u.target_weight = Some(TargetWeight::Split([6662913, 8197728, 96618, 14044837, 2985343, 6364631, 2754832, 12383410, 1635314, 15170446, 2762086, 3988823, 13236035, 13361084, 4500639, 7684715]));
    let t = SamplingTables::empty();
    sim.set_params(&u, &t);
    }
    run(&mut sim, 645);
    check(&sim);
    sim.apply_perturbation(Target::BaseField, Mode::Randomize, Region::Stripe { bins: Some(11), span: Some(2), bin: Some(67) }, 8388608, None);
    assert_eq!(digest(&sim), [3029121740, 1670, 2, 25, 35, 994, 65, 1620315901, 0, 0, 0, 0, 0, 6, 70, 96, 26, 17, 0, 739519442, 858068274, 0, 3, 2019, 18900, 1670, 74, 72, 7, 6, 59, 56, 23, 3, 3838341128]);
    {
    let mut u = ParamUpdate::new();
    u.accept_log_cap = Some(2024);
    u.code_noise_batch = Some(3);
    u.repair_gate_span = Some(3);
    u.code_noise_cut = Some(16777216);
    u.target_weight = Some(TargetWeight::Even);
    let t = SamplingTables::empty();
    sim.set_params(&u, &t);
    }
    run(&mut sim, 501);
    check(&sim);
    assert_eq!(digest(&sim), [3540421326, 2171, 2, 25, 35, 994, 64, 1620315901, 0, 0, 0, 0, 0, 1, 113, 155, 42, 17, 0, 739519442, 858068274, 0, 3, 2019, 24858, 2171, 74, 72, 7, 6, 94, 92, 23, 3, 3838341128]);
    {
    let mut u = ParamUpdate::new();
    u.rates = Some(rates([3857743, 4287669, 12175521, 12955238], [true, true, false, true]));
    u.accept_log_on = Some(true);
    u.clock_on = Some(false);
    u.l_n = Some(5);
    u.l_s = Some(7);
    u.meta_layers = Some(3);
    u.accept_log_cap = Some(2447);
    u.code_noise_batch = Some(3);
    u.code_noise_layer = Some(3);
    u.clock_k = Some(1);
    u.code_noise_cut = Some(838860);
    u.clock_cut = Some(838860);
    let t = SamplingTables::empty();
    sim.set_params(&u, &t);
    }
    run(&mut sim, 605);
    check(&sim);
    sim.apply_perturbation(Target::MetaField(0), Mode::Randomize, Region::All, 1543918, None);
    assert_eq!(digest(&sim), [287571328, 2776, 5, 29, 1958, 4294962398, 64, 2478144697, 3412548881, 3428220907, 335348096, 1603939942, 733198444, 1, 113, 155, 42, 69, 0, 307391015, 77471533, 1, 4, 154946, 893762, 2776, 134, 81, 62, 84, 94, 92, 51, 5, 3838341128]);
}

#[test]
fn recorded_run_08() {
    let mut sim = Sim::new(8, 106375948);
    {
    let mut u = ParamUpdate::new();
    u.rates = Some(rates([4364788, 8606389, 11251580, 12892113], [true, true, true, true]));
    u.p6_on = Some(false);
    u.accept_log_on = Some(true);
    u.clock_on = Some(true);
    u.op_stencil = Some(1);
    u.accept_log_cap = Some(1426);
    u.repair_gate_span = Some(5);
    let t = SamplingTables::empty();
    sim.set_params(&u, &t);
    }
    run(&mut sim, 414);
    check(&sim);
    assert_eq!(digest(&sim), [3762454699, 414, 14, 11, 1218644654, 3505852351, 3606632643, 3869918813, 0, 0, 0, 0, 0, 3, 3, 4, 1, 0, 0, 0, 0, 0, 0, 0, 0, 414, 34, 20, 39, 44, 18, 7, 11, 0, 3838341128]);
    {
    let mut u = ParamUpdate::new();
    u.rates = Some(rates([4754266, 6156313, 12287758, 13331819], [true, true, false, true]));
    u.p3_on = Some(false);
    u.p6_on = Some(true);
    u.clock_on = Some(true);
    u.l_w = Some(3);
    u.meta_layers = Some(2);
    u.op_budget_k = Some(10);
    u.accept_log_cap = Some(203);
    u.code_noise_batch = Some(3);
    u.code_noise_layer = Some(2);
    u.repair_gate_span = Some(5);
    u.clock_cut = Some(5592405);
    u.target_weight = Some(TargetWeight::Split([6627883, 3789919, 3164165, 4490176, 13870754, 3885728, 983999, 7023611, 16701285, 5765547, 14921324, 16455503, 1488705, 1565436, 7730459, 10293220]));
    let t = SamplingTables::empty();
    sim.set_params(&u, &t);
    }
    run(&mut sim, 523);
    check(&sim);
    assert_eq!(digest(&sim), [2639840008, 937, 20, 13, 4237054260, 909612165, 2090572771, 4129467965, 824880990, 2102134469, 4183591141, 1646246139, 0, 7, 7, 9, 2, 0, 0, 0, 0, 0, 0, 0, 0, 937, 87, 32, 51, 61, 92, 24, 21, 0, 138850881]);
    {
    let mut u = ParamUpdate::new();
    u.p6_on = Some(true);
    u.op_coupling_on = Some(false);
    u.accept_log_on = Some(false);
    u.l_s = Some(0);
    u.accept_log_cap = Some(2515);
    u.repair_gate_span = Some(1);
    u.accept_log_mask = Some(1547);
    u.target_weight = Some(TargetWeight::Even);
    let t = SamplingTables::empty();
    sim.set_params(&u, &t);
    }
    run(&mut sim, 206);
    check(&sim);
    sim.apply_perturbation(Target::MetaField(2), Mode::Zero, Region::Stripe { bins: Some(11), span: Some(0), bin: None }, 220593, Some(2008638762));
    assert_eq!(digest(&sim), [3773083327, 1143, 20, 13, 3050202036, 909612165, 3862069793, 4129467965, 3412247675, 4024574627, 2113575779, 2107254330, 0, 1, 9, 11, 2, 0, 0, 0, 0, 0, 0, 0, 0, 1143, 110, 40, 52, 62, 121, 41, 24, 0, 2030072483]);
}

#[test]
fn recorded_run_09() {
    let mut sim = Sim::new(3, 771562530);
    {
    let mut u = ParamUpdate::new();
    u.p3_on = Some(true);
    u.p6_on = Some(false);
    u.op_coupling_on = Some(false);
    u.accept_log_on = Some(true);
    u.clock_on = Some(false);
    u.l_s = Some(9);
    u.code_noise_layer = Some(0);
    u.repair_gate_mode = Some(2);
    let t = SamplingTables::empty();
    sim.set_params(&u, &t);
    }
    run(&mut sim, 848);
    check(&sim);
    assert_eq!(digest(&sim), [39358830, 848, 7, 57, 3880, 4294965222, 5028, 2987277719, 0, 0, 0, 0, 0, 0, 0, 0, 0, 0, 0, 0, 0, 3, 5, 7635498, 54427195, 848, 61, 54, 67, 74, 62, 47, 63, 6, 3838341128]);
    {
    let mut u = ParamUpdate::new();
    u.rates = Some(rates([6290435, 9897293, 11159828, 13608629], [false, true, true, true]));
    u.accept_log_on = Some(true);
    u.l_n = Some(0);
    u.l_a = Some(0);
    u.l_s = Some(3);
    u.code_noise_batch = Some(1);
    u.clock_k = Some(0);
    u.accept_log_mask = Some(422);
    u.code_noise_cut = Some(5592405);
    u.init_random = Some(true);
    let t = SamplingTables { bond: vec![vec![2370064, 4548468, 7969417, 9069737, 9713049, 12670193, 13783759], vec![11311804], vec![5987246], vec![1185214, 2408917, 4280142, 4514505, 5098157, 6561134], vec![3256870, 5207250, 12626651], vec![1661392, 6673080, 8235418, 11774276, 14663502], vec![5891433, 6002334, 13861409], vec![1658048, 4877392, 10687501, 13392135, 13795596], vec![10558420], vec![4490799, 5165131, 6379303, 16410497], vec![1990630, 2075885, 3477041, 5197583, 8266601, 9544431], vec![5005050, 9807241, 15152400], vec![3074276, 4712768, 10067297, 12536889], vec![], vec![1284663, 5241934, 5848644, 8509933, 9608197, 11100561, 14562152], vec![1621973], vec![11285184, 12194576, 12610896, 16263245], vec![4839821, 9525072, 10659544, 10758554, 11852505]], bond_meta: vec![1902000, 2114011, 2345555, 3675760, 7229381, 7788756, 9386596, 10160608], counter: vec![649148, 716220, 1489865, 2979622, 4579108, 6177574, 7096693, 11116550, 11196161], apparatus: vec![], field: vec![11570116, 13156993] };
    sim.set_params(&u, &t);
    }
    run(&mut sim, 746);
    check(&sim);
    assert_eq!(digest(&sim), [2833379789, 1594, 5, 205, 188, 4294966336, 34, 947943017, 0, 0, 0, 0, 0, 0, 0, 0, 0, 92, 0, 1486629867, 3641671919, 2, 4, 154946, 6311746, 1594, 61, 54, 114, 127, 102, 89, 123, 38, 3838341128]);
    {
    let mut u = ParamUpdate::new();
    u.rates = Some(rates([2862691, 8804155, 10446946, 10509969], [false, true, false, true]));
    u.op_coupling_on = Some(true);
    u.code_noise_layer = Some(3);
    u.accept_log_mask = Some(162);
    u.code_noise_cut = Some(0);
    let t = SamplingTables::empty();
    sim.set_params(&u, &t);
    }
    run(&mut sim, 321);
    check(&sim);
    sim.apply_perturbation(Target::MetaField(2), Mode::Randomize, Region::All, 0, None);
    assert_eq!(digest(&sim), [2285301345, 1915, 5, 224, 188, 4294966337, 34, 1639516016, 0, 0, 0, 0, 0, 0, 0, 0, 0, 137, 0, 2230304142, 2472741735, 0, 3, 4998, 222465, 1915, 61, 54, 144, 156, 102, 89, 155, 51, 3838341128]);
    {
    let mut u = ParamUpdate::new();
    u.rates = Some(rates([1217535, 2940640, 14092365, 14798737], [true, true, false, true]));
    u.p3_on = Some(true);
    u.op_coupling_on = Some(true);
    u.clock_on = Some(false);
    u.l_s = Some(3);
    u.grid_size = Some(4);
    u.code_noise_batch = Some(1);
    u.clock_k = Some(2);
    u.repair_gate_mode = Some(1);
    let t = SamplingTables::empty();
    sim.set_params(&u, &t);
    }
    run(&mut sim, 891);
    check(&sim);
    assert_eq!(digest(&sim), [1965504835, 2806, 5, 18, 188, 963, 34, 3192375494, 0, 0, 0, 0, 0, 0, 0, 0, 0, 265, 0, 3207985230, 2569618575, 3, 4, 154946, 555138, 2806, 138, 131, 213, 223, 102, 89, 228, 106, 3838341128]);
}

#[test]
fn recorded_run_10() {
    let mut sim = Sim::new(3, 0);
    {
    let mut u = ParamUpdate::new();
    u.accept_log_on = Some(false);
    u.l_a = Some(1);
    u.accept_log_cap = Some(863);
    u.code_noise_layer = Some(3);
    u.repair_gate_span = Some(1);
    u.code_noise_cut = Some(16777216);
    u.init_random = Some(true);
    let t = SamplingTables { bond: vec![vec![5066808, 9314210, 11108666, 13842834], vec![], vec![2303919], vec![147134, 5684693, 5724524, 9847882, 12324182, 14245564], vec![1321096, 7327857, 7546966, 7794992]], bond_meta: vec![1454776, 3897064, 5294814, 12319482], counter: vec![1584312, 9779386, 11534627], apparatus: vec![], field: vec![446966, 5377907, 11267594, 12210345, 14031382, 15089613, 15216799] };
    sim.set_params(&u, &t);
    }
    run(&mut sim, 309);
    check(&sim);
    assert_eq!(digest(&sim), [471049423, 309, 8, 647, 3071, 4294965310, 33, 1584114889, 0, 0, 0, 0, 0, 0, 0, 0, 0, 0, 0, 0, 0, 0, 0, 0, 0, 309, 25, 27, 9, 5, 3, 6, 8, 10, 3838341128]);
    {
    let mut u = ParamUpdate::new();
    u.rates = Some(rates([3009157, 10408853, 12017514, 14475892], [false, true, true, false]));
    u.p6_on = Some(false);
    u.accept_log_on = Some(false);
    u.clock_on = Some(true);
    u.repair_clock_gated = Some(false);
    u.l_n = Some(1);
    u.l_a = Some(2);
    u.l_s = Some(5);
    u.grid_size = Some(4);
    u.init_random = Some(true);
    let t = SamplingTables { bond: vec![vec![1251867, 1662050, 2932149, 3762494, 7290631, 10181252, 14753563], vec![3771500, 6649934, 14922852], vec![2371369, 3508921, 4582765, 6099316, 11111512, 11714258, 16328392], vec![732067, 10243409, 10648788, 14972982], vec![896977, 4068400, 7618579, 7679357, 13378218, 14906645, 16756911], vec![10020722, 14535208], vec![11875664, 14673827, 15451183, 16111732], vec![5114, 1386016, 3303494, 3368531, 5890763, 7591852], vec![3005899, 4873157, 10482109, 13428287, 13608945, 15926346], vec![], vec![2929116, 5108151, 5719093, 8023914, 12093555, 14058841, 14816113], vec![15125894], vec![15994862], vec![1722392, 2696743, 9108930], vec![1439781, 2313515, 3539903, 5603993, 5675984, 5698672], vec![4432332, 5512887, 15121970], vec![], vec![997171, 6267876, 12293119], vec![13613525], vec![412146, 2996810, 7205461, 12339729, 13286783, 15009900]], bond_meta: vec![4206097, 5347675, 6176005, 12992727], counter: vec![2412782, 4919437, 13039561, 13209653, 16158057], apparatus: vec![13190913, 16543251], field: vec![2867314, 3660909, 11705503, 13237510, 16431106] };
    sim.set_params(&u, &t);
    }
    run(&mut sim, 277);
    check(&sim);
    assert_eq!(digest(&sim), [3448956917, 586, 4, 31, 2947, 65, 96, 2029569261, 0, 0, 0, 0, 0, 5, 5, 8, 3, 0, 0, 0, 0, 0, 0, 0, 0, 586, 42, 47, 35, 31, 13, 14, 23, 30, 3838341128]);
}

#[test]
fn recorded_run_11() {
    let mut sim = Sim::new(0, 131956190);
    {
    let mut u = ParamUpdate::new();
    u.rates = Some(rates([8393677, 11242685, 11701217, 14548272], [true, true, true, true]));
    u.op_coupling_on = Some(false);
    u.l_w = Some(7);
    u.l_s = Some(2);
    u.code_noise_batch = Some(2);
    u.repair_gate_span = Some(1);
    u.code_noise_cut = Some(0);
    u.clock_cut = Some(0);
    u.target_weight = Some(TargetWeight::Split([13116871, 10925668, 8122036, 9616872, 11835817, 16108655, 13789748, 14948393, 370134, 8272663, 6609973, 5504028, 13892327, 3897056, 3439996, 8354949]));
    let t = SamplingTables::empty();
    sim.set_params(&u, &t);
    }
    run(&mut sim, 744);
    check(&sim);
    sim.apply_perturbation(Target::MetaField(3), Mode::Randomize, Region::All, 0, Some(2470105339));
    assert_eq!(digest(&sim), [1028733348, 744, 0, 37, 0, 0, 0, 1176934473, 0, 0, 0, 0, 0, 0, 0, 0, 0, 0, 0, 0, 0, 0, 0, 0, 0, 744, 0, 0, 0, 0, 0, 0, 43, 6, 3838341128]);
    {
    let mut u = ParamUpdate::new();
    u.rates = Some(rates([1446570, 7825804, 11366987, 12733792], [true, true, true, true]));
    u.p6_on = Some(false);
    u.accept_log_on = Some(true);
    u.clock_on = Some(true);
    u.repair_clock_gated = Some(true);
    u.l_s = Some(2);
    u.clock_cut = Some(16777216);
    u.target_weight = Some(TargetWeight::Split([2749681, 11717753, 12042419, 6023815, 6602208, 16106565, 531514, 12920589, 11246390, 12420608, 1936422, 14538887, 6352598, 4875142, 3264110, 11575699]));
    let t = SamplingTables::empty();
    sim.set_params(&u, &t);
    }
    run(&mut sim, 796);
    check(&sim);
    assert_eq!(digest(&sim), [110584164, 1540, 0, 58, 0, 0, 0, 2903547368, 0, 0, 0, 0, 0, 3, 83, 119, 36, 0, 0, 0, 0, 0, 0, 0, 0, 1540, 0, 0, 0, 0, 0, 0, 69, 11, 3838341128]);
    {
    let mut u = ParamUpdate::new();
    u.p3_on = Some(true);
    u.accept_log_on = Some(false);
    u.clock_on = Some(false);
    u.repair_clock_gated = Some(false);
    u.l_w = Some(8);
    u.meta_layers = Some(3);
    u.target_weight = Some(TargetWeight::Even);
    let t = SamplingTables::empty();
    sim.set_params(&u, &t);
    }
    run(&mut sim, 783);
    check(&sim);
    sim.apply_perturbation(Target::BaseField, Mode::Zero, Region::Stripe { bins: None, span: Some(4), bin: Some(1) }, 16777216, None);
    assert_eq!(digest(&sim), [647973670, 2323, 0, 41, 0, 0, 0, 1780250659, 465821767, 3603326981, 1202668928, 1303265886, 0, 3, 83, 119, 36, 0, 0, 0, 0, 3, 5, 31810, 69696075, 2323, 40, 0, 48, 51, 46, 2, 121, 17, 3838341128]);
    {
    let mut u = ParamUpdate::new();
    u.rates = Some(rates([15392315, 15570208, 15906693, 16180656], [true, false, true, true]));
    u.p3_on = Some(true);
    u.accept_log_on = Some(false);
    u.clock_on = Some(false);
    u.repair_clock_gated = Some(true);
    u.l_w = Some(0);
    u.grid_size = Some(12);
    u.code_noise_batch = Some(4);
    u.code_noise_layer = Some(3);
    u.repair_gate_mode = Some(0);
    u.accept_log_mask = Some(793);
    u.clock_cut = Some(0);
    let t = SamplingTables::empty();
    sim.set_params(&u, &t);
    }
    run(&mut sim, 384);
    check(&sim);
    sim.apply_perturbation(Target::MetaField(2), Mode::Zero, Region::Stripe { bins: Some(5), span: None, bin: Some(113) }, 1771992, Some(1951951679));
    assert_eq!(digest(&sim), [1356606014, 2707, 0, 8, 0, 0, 0, 43066214, 26023740, 2185416920, 3323150838, 1473147178, 0, 3, 83, 119, 36, 0, 0, 0, 0, 0, 4, 1026, 247298, 2707, 70, 0, 48, 51, 77, 5, 135, 17, 3838341128]);
}

#[test]
fn recorded_run_12() {
    let mut sim = Sim::new(2, 0);
    {
    let mut u = ParamUpdate::new();
    u.p3_on = Some(true);
    u.op_coupling_on = Some(false);
    u.repair_clock_gated = Some(true);
    u.l_w = Some(6);
    u.l_a = Some(9);
    u.grid_size = Some(8);
    u.s_coupling_mode = Some(2);
    u.repair_gate_span = Some(5);
    u.accept_log_mask = Some(1436);
    u.clock_cut = Some(16777216);
    u.target_weight = Some(TargetWeight::Split([11488417, 9605835, 4405200, 1938425, 2164236, 13494991, 6565550, 3363409, 13465804, 7136039, 6679075, 2558388, 14998893, 3145362, 8306263, 13390631]));
    let t = SamplingTables::empty();
    sim.set_params(&u, &t);
    }
    run(&mut sim, 385);
    check(&sim);
    assert_eq!(digest(&sim), [2649838562, 385, 0, 25, 0, 121, 32, 2117872481, 0, 0, 0, 0, 0, 0, 0, 0, 0, 0, 0, 0, 0, 0, 5, 31810, 24843739, 385, 22, 22, 33, 33, 27, 26, 30, 5, 3838341128]);
    {
    let mut u = ParamUpdate::new();
    u.p3_on = Some(true);
    u.p6_on = Some(false);
    u.op_coupling_on = Some(false);
    u.l_n = Some(7);
    u.op_budget_k = Some(27);
    u.s_coupling_mode = Some(0);
    u.accept_log_cap = Some(1177);
    u.clock_k = Some(9);
    u.repair_gate_span = Some(5);
    u.code_noise_cut = Some(838860);
    let t = SamplingTables::empty();
    sim.set_params(&u, &t);
    }
    run(&mut sim, 531);
    check(&sim);
    assert_eq!(digest(&sim), [2252257734, 916, 1, 44, 1, 160, 8, 2770282430, 0, 0, 0, 0, 0, 0, 0, 0, 0, 0, 0, 0, 0, 1, 5, 986115, 42052013, 916, 58, 57, 81, 72, 66, 59, 67, 23, 3838341128]);
    {
    let mut u = ParamUpdate::new();
    u.p3_on = Some(true);
    u.accept_log_on = Some(true);
    u.l_n = Some(9);
    u.grid_size = Some(4);
    u.meta_layers = Some(3);
    u.code_noise_cut = Some(16777216);
    u.clock_cut = Some(838860);
    let t = SamplingTables::empty();
    sim.set_params(&u, &t);
    }
    run(&mut sim, 348);
    check(&sim);
    assert_eq!(digest(&sim), [4278016290, 1264, 1, 7, 1, 61, 8, 3758999815, 1935818358, 2672542614, 3532467896, 2759247379, 0, 0, 0, 0, 0, 15, 0, 623707313, 3502670218, 4, 5, 986115, 6711945, 1264, 88, 66, 106, 112, 93, 68, 80, 25, 3838341128]);
    {
    let mut u = ParamUpdate::new();
    u.p3_on = Some(false);
    u.op_coupling_on = Some(false);
    u.accept_log_on = Some(true);
    u.op_stencil = Some(0);
    u.s_coupling_mode = Some(1);
    u.code_noise_batch = Some(0);
    u.code_noise_layer = Some(0);
    u.repair_gate_mode = Some(2);
    u.accept_log_mask = Some(1331);
    u.clock_cut = Some(0);
    let t = SamplingTables::empty();
    sim.set_params(&u, &t);
    }
    run(&mut sim, 856);
    check(&sim);
    sim.apply_perturbation(Target::MetaField(3), Mode::Randomize, Region::All, 0, None);
    assert_eq!(digest(&sim), [3599458517, 2120, 2, 6, 2, 60, 6, 3006933356, 2593882707, 574326102, 1768983478, 94554318, 0, 0, 0, 0, 0, 28, 0, 3077158001, 1574257823, 0, 0, 0, 0, 2120, 157, 99, 118, 125, 108, 75, 89, 34, 3838341128]);
    {
    let mut u = ParamUpdate::new();
    u.accept_log_on = Some(true);
    u.repair_clock_gated = Some(true);
    u.l_w = Some(9);
    u.l_a = Some(5);
    u.op_budget_k = Some(15);
    u.repair_gate_mode = Some(0);
    u.repair_gate_span = Some(5);
    u.code_noise_cut = Some(838860);
    u.clock_cut = Some(838860);
    let t = SamplingTables::empty();
    sim.set_params(&u, &t);
    }
    run(&mut sim, 632);
    check(&sim);
    sim.apply_perturbation(Target::BaseField, Mode::Randomize, Region::Quadrant(Some(2)), 960281, None);
    assert_eq!(digest(&sim), [2893482558, 2752, 0, 10, 0, 92, 4, 2756279788, 3666547854, 4279280154, 623097812, 3809602315, 0, 0, 0, 0, 0, 32, 0, 1949087271, 846516670, 0, 0, 0, 0, 2752, 209, 128, 133, 142, 119, 84, 96, 37, 3838341128]);
}

#[test]
fn recorded_run_13() {
    let mut sim = Sim::new(5, 1);
    {
    let mut u = ParamUpdate::new();
    u.rates = Some(rates([9706401, 13970102, 12639312, 6199207], [true, false, true, false]));
    u.p3_on = Some(false);
    u.clock_on = Some(false);
    u.repair_clock_gated = Some(true);
    u.l_a = Some(4);
    u.l_s = Some(8);
    u.op_stencil = Some(1);
    u.accept_log_cap = Some(2197);
    u.code_noise_layer = Some(1);
    u.repair_gate_mode = Some(2);
    u.repair_gate_span = Some(0);
    u.clock_cut = Some(838860);
    let t = SamplingTables::empty();
    sim.set_params(&u, &t);
    }
    run(&mut sim, 828);
    check(&sim);
    sim.apply_perturbation(Target::BaseField, Mode::Randomize, Region::Quadrant(None), 16777216, Some(2235117935));
    assert_eq!(digest(&sim), [4068856836, 828, 15, 286, 3556510396, 4291359641, 31810, 3207850110, 0, 0, 0, 0, 0, 0, 0, 0, 0, 0, 0, 0, 0, 0, 0, 0, 0, 828, 169, 154, 79, 94, 0, 0, 0, 0, 3838341128]);
    {
    let mut u = ParamUpdate::new();
    u.p6_on = Some(true);
    u.accept_log_on = Some(false);
    u.repair_clock_gated = Some(false);
    u.l_n = Some(5);
    u.grid_size = Some(9);
    u.meta_layers = Some(0);
    u.op_stencil = Some(1);
    u.op_budget_k = Some(4);
    u.s_coupling_mode = Some(2);
    u.code_noise_batch = Some(3);
    u.code_noise_layer = Some(4);
    u.clock_k = Some(4);
    u.accept_log_mask = Some(1);
    u.clock_cut = Some(838860);
    let t = SamplingTables::empty();
    sim.set_params(&u, &t);
    }
    run(&mut sim, 247);
    check(&sim);
    sim.apply_perturbation(Target::BaseField, Mode::Zero, Region::Stripe { bins: None, span: Some(2), bin: Some(89) }, 4857414, None);
    assert_eq!(digest(&sim), [3507493994, 1075, 6, 0, 2599783747, 4293149115, 31810, 3155285288, 0, 0, 0, 0, 0, 0, 0, 0, 0, 0, 0, 0, 0, 0, 0, 0, 0, 1075, 211, 205, 107, 118, 0, 0, 0, 0, 3679623693]);
    {
    let mut u = ParamUpdate::new();
    u.rates = Some(rates([1888942, 3386257, 3512125, 8507390], [true, true, false, true]));
    u.p6_on = Some(false);
    u.op_coupling_on = Some(true);
    u.accept_log_on = Some(false);
    u.repair_clock_gated = Some(false);
    u.l_w = Some(7);
    u.l_a = Some(6);
    u.grid_size = Some(4);
    u.meta_layers = Some(3);
    u.repair_gate_mode = Some(0);
    u.code_noise_cut = Some(5592405);
    u.target_weight = Some(TargetWeight::Even);
    u.init_random = Some(true);
    let t = SamplingTables { bond: vec![vec![403174], vec![8612563, 12619436]], bond_meta: vec![], counter: vec![5246751, 7760505, 8127421, 16692905], apparatus: vec![14398596], field: vec![] };
    sim.set_params(&u, &t);
    }
    run(&mut sim, 143);
    check(&sim);
    sim.apply_perturbation(Target::BaseField, Mode::Zero, Region::Stripe { bins: Some(6), span: Some(5), bin: Some(5) }, 0, None);
    assert_eq!(digest(&sim), [2894993877, 1218, 59, 127, 2023494302, 4293001130, 31816, 1621319815, 4185301369, 3565336411, 3340521496, 702950965, 1599067072, 0, 0, 0, 0, 0, 0, 0, 0, 0, 0, 0, 0, 1218, 216, 210, 110, 122, 0, 0, 11, 1, 3679623693]);
}

#[test]
fn recorded_run_14() {
    let mut sim = Sim::new(0, 0);
    {
    let mut u = ParamUpdate::new();
    u.op_coupling_on = Some(false);
    u.accept_log_on = Some(false);
    u.repair_clock_gated = Some(false);
    u.l_w = Some(7);
    u.l_a = Some(3);
    u.grid_size = Some(3);
    u.op_budget_k = Some(18);
    u.code_noise_batch = Some(0);
    u.repair_gate_mode = Some(0);
    u.clock_cut = Some(0);
    u.target_weight = Some(TargetWeight::Even);
    u.init_random = Some(true);
    let t = SamplingTables { bond: vec![vec![198324, 3730009, 3810756, 6958506, 6982305], vec![4312765, 5776272, 6091824, 7711424, 12265798], vec![16223727], vec![1028006, 2093766], vec![399308, 3920684, 10706084, 10749472], vec![1403776, 8696634], vec![1527315, 10004542, 10237389, 16260324], vec![7704953, 10903811, 11421790, 16708009], vec![1535518, 1956067, 3369602, 14088039, 16522562]], bond_meta: vec![4027891, 4186397, 8667398, 12937963], counter: vec![5787271, 6371030, 8974226, 9765366, 10990758, 12332797, 12365086], apparatus: vec![413291, 732840, 1121627, 3839085, 4867950, 5565967, 12418603, 14728823, 16274412, 16383667], field: vec![61647, 1822319, 16064386] };
    sim.set_params(&u, &t);
    }
    run(&mut sim, 658);
    check(&sim);
    sim.apply_perturbation(Target::MetaField(1), Mode::Zero, Region::All, 6817268, None);
    assert_eq!(digest(&sim), [2702985850, 658, 0, 11, 0, 0, 0, 2909515011, 0, 0, 0, 0, 0, 0, 0, 0, 0, 0, 0, 0, 0, 0, 0, 0, 0, 658, 0, 0, 0, 0, 0, 0, 17, 19, 3838341128]);
    {
    let mut u = ParamUpdate::new();
    u.p3_on = Some(false);
    u.p6_on = Some(true);
    u.op_coupling_on = Some(false);
    u.accept_log_on = Some(true);
    u.op_stencil = Some(1);
    u.s_coupling_mode = Some(0);
    u.repair_gate_mode = Some(2);
    u.init_random = Some(true);
    let t = SamplingTables { bond: vec![vec![9723984, 16047712], vec![916685, 5008383, 5320663, 13769229, 15145559], vec![1516720, 8069510, 9959668, 11445695, 13810261, 16632434], vec![2650217, 5435499, 9325428, 11399965, 14447335], vec![688141, 3117566, 7839628, 12712424, 15837878], vec![1309058, 5791980, 10979267], vec![2669841, 3788052], vec![14774542, 14822189], vec![2325510, 16275364], vec![6179061, 7363441, 7663321, 11252786, 11765383, 13142185], vec![346536, 2553457, 10656806], vec![331225, 3064883, 4206197, 5435327, 8482786, 10177934, 16631199], vec![301153, 4806009, 7319781, 8211896, 13414783, 14009868, 16777209], vec![3760448, 6102953, 8060469, 9660179, 11032106], vec![1298067, 11302420], vec![3047991, 4717565, 11842352, 14836992], vec![3647854, 4355363, 6469506, 7761485, 11683850, 14930222], vec![404331, 7008203, 8757010, 9120146, 9170144, 12873155], vec![888818, 1066835, 4612948, 5045776, 12032568], vec![995943, 3029849, 3620959, 7854462, 11131277], vec![8440665]], bond_meta: vec![1520197, 4151281, 4451283, 6259319, 8269940, 9533257, 11140917, 15568618], counter: vec![693225, 940731, 3829730, 3916536, 4487273, 4613451, 7335632, 7671457, 8577870, 10089808, 10432183, 10994136, 11230826, 11985916, 12304555, 12309442, 12875838], apparatus: vec![1840215, 2984840, 6154308, 6909748, 7330576, 12064507, 13853678, 14790470, 15120410, 16308332], field: vec![1274553, 3855535, 5434452, 7059896, 7139603, 7936006, 8735775, 10719327, 14358045] };
    sim.set_params(&u, &t);
    }
    run(&mut sim, 356);
    check(&sim);
    assert_eq!(digest(&sim), [3807560975, 1014, 0, 28, 0, 0, 0, 1947004134, 0, 0, 0, 0, 0, 0, 0, 0, 0, 0, 0, 0, 0, 0, 0, 0, 0, 1014, 0, 0, 0, 0, 0, 0, 21, 23, 3838401736]);
}

#[test]
fn recorded_run_15() {
    let mut sim = Sim::new(5, 1);
    {
    let mut u = ParamUpdate::new();
    u.accept_log_on = Some(false);
    u.clock_on = Some(false);
    u.l_w = Some(1);
    u.l_n = Some(2);
    u.l_a = Some(1);
    u.op_budget_k = Some(32);
    u.clock_cut = Some(5592405);
    let t = SamplingTables::empty();
    sim.set_params(&u, &t);
    }
    run(&mut sim, 335);
    check(&sim);
    sim.apply_perturbation(Target::MetaField(3), Mode::Randomize, Region::Stripe { bins: None, span: Some(3), bin: Some(57) }, 8388608, None);
    assert_eq!(digest(&sim), [2880997709, 335, 3, 8, 1907870050, 926500, 31811, 337411554, 0, 0, 0, 0, 0, 0, 0, 0, 0, 0, 0, 0, 0, 0, 0, 0, 0, 335, 17, 14, 7, 7, 4, 3, 8, 0, 3838341128]);
    {
    let mut u = ParamUpdate::new();
    u.p3_on = Some(true);
    u.p6_on = Some(true);
    u.repair_clock_gated = Some(false);
    u.l_w = Some(8);
    u.meta_layers = Some(3);
    u.code_noise_layer = Some(1);
    u.accept_log_mask = Some(320);
    let t = SamplingTables::empty();
    sim.set_params(&u, &t);
    }
    run(&mut sim, 142);
    check(&sim);
    sim.apply_perturbation(Target::MetaField(0), Mode::Zero, Region::All, 0, Some(46930851));
    assert_eq!(digest(&sim), [1526991679, 477, 2, 10, 165953445, 926501, 31811, 1423305986, 620468385, 4160452933, 2931032959, 4142627488, 0, 0, 0, 0, 0, 0, 0, 0, 0, 2, 5, 1940420, 9574860, 477, 28, 16, 21, 19, 12, 4, 19, 2, 1090304749]);
    {
    let mut u = ParamUpdate::new();
    u.accept_log_on = Some(true);
    u.clock_on = Some(true);
    u.l_w = Some(8);
    u.l_n = Some(6);
    u.grid_size = Some(11);
    u.repair_gate_span = Some(0);
    u.accept_log_mask = Some(563);
    u.clock_cut = Some(5592405);
    let t = SamplingTables::empty();
    sim.set_params(&u, &t);
    }
    run(&mut sim, 213);
    check(&sim);
    assert_eq!(digest(&sim), [2697069418, 690, 9, 3, 2020964904, 4294046786, 985122, 2319306939, 2542241427, 2316115225, 3579284952, 1618970508, 0, 1, 1, 6, 5, 0, 0, 0, 0, 0, 5, 7697034, 1940421, 690, 43, 17, 31, 34, 34, 6, 36, 2, 3458805247]);
    {
    let mut u = ParamUpdate::new();
    u.l_a = Some(9);
    u.l_s = Some(7);
    u.grid_size = Some(5);
    u.meta_layers = Some(4);
    u.clock_k = Some(8);
    u.repair_gate_mode = Some(0);
    u.repair_gate_span = Some(4);
    u.clock_cut = Some(5592405);
    let t = SamplingTables::empty();
    sim.set_params(&u, &t);
    }
    run(&mut sim, 870);
    check(&sim);
    sim.apply_perturbation(Target::MetaField(0), Mode::Zero, Region::All, 0, None);
    assert_eq!(digest(&sim), [3580310744, 1560, 9, 14, 1821710658, 4292168835, 31810, 1812390900, 3329513562, 1779457029, 3668052542, 1480075131, 0, 6, 14, 28, 14, 0, 0, 0, 0, 0, 5, 8620555, 13392080, 1560, 112, 37, 61, 96, 93, 31, 88, 14, 2510601636]);
    {
    let mut u = ParamUpdate::new();
    u.rates = Some(rates([4435719, 5892986, 10015185, 13280920], [true, true, true, true]));
    u.p6_on = Some(true);
    u.code_noise_batch = Some(2);
    u.code_noise_layer = Some(2);
    u.clock_k = Some(0);
    u.code_noise_cut = Some(16777216);
    let t = SamplingTables::empty();
    sim.set_params(&u, &t);
    }
    run(&mut sim, 165);
    check(&sim);
    sim.apply_perturbation(Target::MetaField(3), Mode::Zero, Region::Quadrant(Some(2)), 16777216, Some(2902536366));
    assert_eq!(digest(&sim), [4002766778, 1725, 10, 15, 2677017343, 4291214562, 61601, 1841020051, 3699870968, 3898168357, 10426461, 1436544383, 0, 1, 15, 32, 17, 0, 0, 0, 0, 0, 5, 9574860, 14346385, 1725, 123, 43, 67, 111, 100, 36, 97, 19, 1706739330]);
}

#[test]
fn recorded_run_16() {
    let mut sim = Sim::new(5, 276939314);
    {
    let mut u = ParamUpdate::new();
    u.op_coupling_on = Some(true);
    u.clock_on = Some(true);
    u.l_a = Some(2);
    u.grid_size = Some(4);
    u.meta_layers = Some(3);
    u.code_noise_layer = Some(1);
    u.target_weight = Some(TargetWeight::Split([12043658, 2381763, 12932693, 7133246, 3753682, 9144506, 1387988, 1506442, 16010218, 10928663, 1605854, 12810427, 8081942, 8043212, 7616133, 3669697]));
    u.init_random = Some(true);
    let t = SamplingTables { bond: vec![], bond_meta: vec![1980474, 11421403, 14822614, 16192984], counter: vec![1998218, 2303046, 5428505, 7287976, 8792229, 9049601, 9377011, 10167609, 12956955, 13022842, 13025037, 13303436, 13598495, 14673515, 15591204, 16141978, 16622800], apparatus: vec![711461, 2045149, 5179357, 6073434, 14025434, 15823545, 16666733], field: vec![1128539, 3143814, 3707521, 5614775, 8655774, 15104893, 16623330] };
    sim.set_params(&u, &t);
    }
    run(&mut sim, 889);
    check(&sim);
    assert_eq!(digest(&sim), [4279185181, 889, 37, 63, 3264147112, 5598882, 986115, 2698103695, 2440290714, 4225847511, 4080082616, 3762662997, 3031961632, 3, 3, 3, 0, 0, 0, 0, 0, 0, 0, 0, 0, 889, 61, 39, 13, 14, 22, 9, 9, 8, 3838341128]);
    {
    let mut u = ParamUpdate::new();
    u.rates = Some(rates([131691, 2894198, 4773409, 13455994], [true, true, true, true]));
    u.p3_on = Some(false);
    u.op_coupling_on = Some(true);
    u.accept_log_on = Some(false);
    u.op_stencil = Some(2);
    u.code_noise_layer = Some(3);
    u.clock_k = Some(3);
    u.repair_gate_mode = Some(2);
    u.clock_cut = Some(16777216);
    u.target_weight = Some(TargetWeight::Split([12523525, 14843185, 13264962, 10522278, 4246975, 8380391, 1272286, 13097684, 1667300, 10086117, 12016678, 10849933, 15784224, 9228125, 12291172, 15072697]));
    let t = SamplingTables::empty();
    sim.set_params(&u, &t);
    }
    run(&mut sim, 418);
    check(&sim);
    sim.apply_perturbation(Target::MetaField(0), Mode::Zero, Region::Stripe { bins: Some(6), span: Some(1), bin: None }, 2165085, None);
    assert_eq!(digest(&sim), [3929538470, 1307, 37, 63, 3264147112, 5598882, 91392, 1996314025, 2746348572, 4225847511, 3025873338, 1752559156, 2602922130, 1, 10, 24, 14, 0, 0, 0, 0, 0, 0, 0, 0, 1307, 62, 39, 13, 14, 42, 22, 56, 37, 3838341128]);
    {
    let mut u = ParamUpdate::new();
    u.rates = Some(rates([10625921, 9066524, 10878410, 3758476], [true, true, false, false]));
    u.op_coupling_on = Some(true);
    u.l_a = Some(3);
    u.meta_layers = Some(4);
    u.s_coupling_mode = Some(0);
    u.clock_cut = Some(838860);
    let t = SamplingTables::empty();
    sim.set_params(&u, &t);
    }
    run(&mut sim, 783);
    check(&sim);
    assert_eq!(digest(&sim), [2334722269, 2090, 39, 63, 1700794538, 5598882, 92353, 1996314025, 2158477344, 2158477344, 3504153792, 3335117216, 1518747904, 1, 10, 24, 14, 0, 0, 0, 0, 0, 0, 0, 0, 2090, 228, 125, 13, 14, 46, 23, 56, 37, 3838341128]);
    {
    let mut u = ParamUpdate::new();
    u.p6_on = Some(true);
    u.op_coupling_on = Some(true);
    u.accept_log_on = Some(false);
    u.clock_on = Some(false);
    u.l_n = Some(9);
    u.l_a = Some(2);
    u.grid_size = Some(2);
    u.meta_layers = Some(0);
    u.op_budget_k = Some(19);
    u.code_noise_batch = Some(2);
    u.target_weight = Some(TargetWeight::Even);
    let t = SamplingTables::empty();
    sim.set_params(&u, &t);
    }
    run(&mut sim, 708);
    check(&sim);
    assert_eq!(digest(&sim), [1140235636, 2798, 25, 0, 1439455754, 5598882, 1015905, 1026, 0, 0, 0, 0, 0, 1, 10, 24, 14, 0, 0, 0, 0, 0, 0, 0, 0, 2798, 387, 298, 13, 14, 48, 23, 56, 37, 2873433780]);
    {
    let mut u = ParamUpdate::new();
    u.p3_on = Some(true);
    u.op_coupling_on = Some(false);
    u.l_s = Some(3);
    u.meta_layers = Some(4);
    u.accept_log_cap = Some(1527);
    u.code_noise_batch = Some(2);
    u.clock_k = Some(1);
    let t = SamplingTables::empty();
    sim.set_params(&u, &t);
    }
    run(&mut sim, 505);
    check(&sim);
    assert_eq!(digest(&sim), [3494002316, 3303, 26, 0, 3380626665, 8398181, 1015905, 1026, 3838341128, 2661759219, 3838341128, 1567391640, 0, 1, 10, 24, 14, 0, 0, 0, 0, 1, 3, 25851, 33, 3303, 453, 335, 81, 96, 48, 23, 56, 37, 4122790117]);
}

#[test]
fn recorded_run_17() {
    let mut sim = Sim::new(8, 1);
    {
    let mut u = ParamUpdate::new();
    u.rates = Some(rates([2623778, 7345789, 11696210, 16485349], [true, true, false, true]));
    u.p6_on = Some(true);
    u.accept_log_on = Some(true);
    u.repair_clock_gated = Some(true);
    u.l_w = Some(1);
    u.op_stencil = Some(1);
    u.accept_log_cap = Some(2620);
    u.clock_k = Some(3);
    u.code_noise_cut = Some(838860);
    u.clock_cut = Some(5592405);
    u.target_weight = Some(TargetWeight::Split([6430519, 16766075, 15420271, 9641980, 10223434, 7359978, 4932286, 10488616, 11240826, 5434560, 5608, 2500544, 14414383, 4247143, 14667722, 546637]));
    u.init_random = Some(true);
    let t = SamplingTables { bond: vec![vec![2870046, 3553032, 14077404, 15025003], vec![1153403, 4775666, 4838918, 14982087], vec![4166225, 8591824, 9557431], vec![1674371, 1792117, 2408635, 5494976], vec![1504546, 2002030, 3964982, 12375840], vec![3888137, 13524602], vec![], vec![8493467, 15748219], vec![3862417, 11387694, 11594481, 11977040], vec![5561107, 10590116], vec![], vec![11363554], vec![3928834, 11953005, 13913634], vec![2816749, 3066110], vec![1754506, 4234099, 6014918, 7200369, 11711093, 12929010, 15723933], vec![1397233], vec![10783490], vec![22319, 1683013, 3452048, 4689568, 4952256, 11173323], vec![1896089, 2846421]], bond_meta: vec![3638313, 14245753], counter: vec![1596922, 2261758, 5023401, 5273741, 5769455, 6225454, 6505953, 6519593, 7373158, 7765343, 8214819, 9525585, 9662772, 10856869, 11329105, 14143059, 14811520, 15026563], apparatus: vec![2468149, 5876852, 8199677], field: vec![4961554, 9676701, 10217443, 13936244, 14611780, 15293305, 16225793] };
    sim.set_params(&u, &t);
    }
    run(&mut sim, 474);
    check(&sim);
    sim.apply_perturbation(Target::MetaField(3), Mode::Randomize, Region::Stripe { bins: Some(12), span: Some(4), bin: None }, 4376617, None);
    assert_eq!(digest(&sim), [2813059187, 474, 15, 489, 1941292851, 2771337580, 1991563937, 3402146775, 0, 0, 0, 0, 0, 0, 0, 0, 0, 0, 0, 0, 0, 0, 0, 0, 0, 474, 14, 22, 43, 60, 38, 40, 46, 42, 749531007]);
    {
    let mut u = ParamUpdate::new();
    u.rates = Some(rates([1230603, 2078830, 10399716, 11691757], [true, true, false, false]));
    u.p3_on = Some(true);
    u.p6_on = Some(false);
    u.op_coupling_on = Some(false);
    u.accept_log_on = Some(false);
    u.l_w = Some(2);
    u.l_a = Some(0);
    u.grid_size = Some(4);
    u.code_noise_layer = Some(1);
    u.clock_k = Some(6);
    u.repair_gate_mode = Some(0);
    let t = SamplingTables::empty();
    sim.set_params(&u, &t);
    }
    run(&mut sim, 301);
    check(&sim);
    sim.apply_perturbation(Target::MetaField(2), Mode::Zero, Region::Quadrant(None), 3367115, None);
    assert_eq!(digest(&sim), [1502943292, 775, 18, 0, 3440523438, 3424893537, 3578000547, 3838341128, 0, 0, 0, 0, 0, 0, 0, 0, 0, 0, 0, 0, 0, 1, 3, 17907, 33, 775, 49, 54, 71, 111, 38, 40, 46, 42, 749531007]);
}

#[test]
fn recorded_run_18() {
    let mut sim = Sim::new(3, 1);
    {
    let mut u = ParamUpdate::new();
    u.op_coupling_on = Some(true);
    u.accept_log_on = Some(true);
    u.l_w = Some(0);
    u.meta_layers = Some(3);
    u.code_noise_batch = Some(1);
    let t = SamplingTables::empty();
    sim.set_params(&u, &t);
    }
    run(&mut sim, 510);
    check(&sim);
    sim.apply_perturbation(Target::MetaField(3), Mode::Zero, Region::Stripe { bins: Some(1), span: Some(6), bin: Some(175) }, 4535665, None);
    assert_eq!(digest(&sim), [4227105683, 510, 0, 2, 33, 4294965376, 1956, 2990559904, 2385470594, 1660202367, 3541387586, 3978596805, 1470460480, 0, 0, 0, 0, 0, 0, 0, 0, 0, 0, 0, 0, 510, 44, 7, 3, 15, 10, 1, 12, 0, 3838341128]);
    {
    let mut u = ParamUpdate::new();
    u.rates = Some(rates([7198211, 10040738, 12349865, 16595120], [true, false, true, true]));
    u.clock_on = Some(true);
    u.l_w = Some(9);
    u.l_n = Some(5);
    u.s_coupling_mode = Some(1);
    u.accept_log_mask = Some(197);
    u.clock_cut = Some(5592405);
    u.init_random = Some(true);
    let t = SamplingTables { bond: vec![vec![10167332, 16188645], vec![7609689, 10747259, 12567143], vec![2424334, 5645414, 7742778, 14315545, 16142084], vec![9530794], vec![4323690], vec![830229, 16406444], vec![295106, 3951052, 4331876, 5141243, 11828955], vec![7017389, 14168327]], bond_meta: vec![1322508, 1757352, 4318099, 11085263, 15199349, 15336761, 15848927, 16625539], counter: vec![221697, 1361668, 3037769, 4553054, 10007355, 10330052, 10796495, 13246851, 13479596, 14735699, 16265128, 16510182, 16534514], apparatus: vec![1908242, 5348136, 11294093, 11383102], field: vec![12907577] };
    sim.set_params(&u, &t);
    }
    run(&mut sim, 634);
    check(&sim);
    sim.apply_perturbation(Target::BaseField, Mode::Zero, Region::Quadrant(Some(2)), 16777216, Some(4195393027));
    assert_eq!(digest(&sim), [3509294506, 1144, 5, 305, 68, 4294965527, 34, 3622529735, 2701473157, 331696533, 1653581702, 3210040699, 2175124404, 0, 0, 10, 10, 10, 0, 802239488, 104029247, 0, 0, 0, 0, 1144, 162, 138, 26, 50, 28, 38, 37, 8, 3838341128]);
    {
    let mut u = ParamUpdate::new();
    u.p6_on = Some(true);
    u.op_coupling_on = Some(true);
    u.accept_log_on = Some(true);
    u.repair_clock_gated = Some(false);
    u.code_noise_batch = Some(2);
    u.clock_k = Some(6);
    u.repair_gate_mode = Some(1);
    u.accept_log_mask = Some(784);
    let t = SamplingTables::empty();
    sim.set_params(&u, &t);
    }
    run(&mut sim, 818);
    check(&sim);
    assert_eq!(digest(&sim), [2574302518, 1962, 5, 312, 1028, 60, 996, 524482698, 3959213635, 1921150797, 2639283816, 3889775036, 1888428362, 2, 2, 19, 17, 107, 0, 1710493611, 1023892481, 0, 0, 0, 0, 1962, 284, 271, 60, 103, 65, 81, 71, 21, 2603440503]);
    {
    let mut u = ParamUpdate::new();
    u.op_coupling_on = Some(true);
    u.l_a = Some(3);
    u.l_s = Some(9);
    u.op_stencil = Some(0);
    u.s_coupling_mode = Some(0);
    u.repair_gate_span = Some(5);
    u.clock_cut = Some(838860);
    u.init_random = Some(true);
    let t = SamplingTables { bond: vec![vec![3328761, 5327305, 6682460, 7149592, 11069848, 13274213, 14741913], vec![4552341, 10833194], vec![], vec![], vec![12590050], vec![1343, 4582319, 8967968, 11187631, 13263374], vec![10860669], vec![2868542, 12357326, 15468339], vec![1076234, 1144896, 5103152, 10195965, 10525832, 11789708, 15548588], vec![], vec![2724277, 2892599, 3853109, 8932223], vec![], vec![4057338, 13032635, 15164725, 15785266, 15886519, 16475113], vec![415231, 3138605, 10884004, 12615853, 14606856, 14928240], vec![], vec![1076425, 3920793, 5029313, 5277591, 11371217, 15044862], vec![1025533, 2583902, 5723892, 10647381, 10775881, 13437469, 14207813], vec![166990, 2751835, 8783507], vec![1216627, 3535252, 12691248, 15091658], vec![3393571, 7273976, 16562157], vec![11893069]], bond_meta: vec![795357, 4541345, 5660126, 12128356, 12644584, 15761659], counter: vec![109014, 1757392, 6988581, 8588491, 8976931, 11148603, 13910066, 13986803], apparatus: vec![], field: vec![1340992, 1902025, 3742695, 6018737, 6425440, 7407827, 7777089, 11027603, 12639941, 13564582] };
    sim.set_params(&u, &t);
    }
    run(&mut sim, 105);
    check(&sim);
    assert_eq!(digest(&sim), [4230044840, 2067, 7, 1453, 40, 4294963366, 3012, 3292014861, 1972357934, 1100487815, 2122068419, 1668028150, 3383503514, 2, 2, 19, 17, 122, 0, 3459088550, 494582527, 0, 0, 0, 0, 2067, 303, 291, 62, 111, 66, 87, 75, 27, 4245376133]);
    {
    let mut u = ParamUpdate::new();
    u.op_coupling_on = Some(true);
    u.accept_log_on = Some(true);
    u.repair_clock_gated = Some(true);
    u.l_n = Some(1);
    u.op_stencil = Some(0);
    u.op_budget_k = Some(9);
    u.accept_log_cap = Some(1082);
    u.clock_cut = Some(16777216);
    u.target_weight = Some(TargetWeight::Even);
    let t = SamplingTables::empty();
    sim.set_params(&u, &t);
    }
    run(&mut sim, 220);
    check(&sim);
    sim.apply_perturbation(Target::MetaField(3), Mode::Randomize, Region::Stripe { bins: Some(5), span: Some(3), bin: Some(46) }, 0, None);
    assert_eq!(digest(&sim), [1074798489, 2287, 0, 1452, 33, 4294966338, 1090, 3630945360, 1077184620, 4079349849, 3106524071, 2477876598, 625331632, 0, 6, 29, 23, 156, 0, 1252834515, 3326864942, 0, 0, 0, 0, 2287, 330, 349, 62, 111, 66, 99, 83, 38, 1572515091]);
}

#[test]
fn recorded_run_19() {
    let mut sim = Sim::new(2, 2530000935);
    {
    let mut u = ParamUpdate::new();
    u.p6_on = Some(true);
    u.clock_on = Some(false);
    u.l_s = Some(2);
    u.op_stencil = Some(1);
    u.code_noise_batch = Some(2);
    u.repair_gate_mode = Some(1);
    u.accept_log_mask = Some(1377);
    u.clock_cut = Some(0);
    let t = SamplingTables::empty();
    sim.set_params(&u, &t);
    }
    run(&mut sim, 209);
    check(&sim);
    assert_eq!(digest(&sim), [2445565844, 209, 1, 2, 1, 4294967236, 1, 2276450050, 0, 0, 0, 0, 0, 0, 0, 0, 0, 0, 0, 0, 0, 0, 0, 0, 0, 209, 13, 12, 2, 3, 4, 4, 2, 0, 1932465894]);
    {
    let mut u = ParamUpdate::new();
    u.rates = Some(rates([1480396, 7191627, 10325612, 11514273], [true, true, false, true]));
    u.p6_on = Some(false);
    u.l_a = Some(9);
    u.l_s = Some(5);
    u.accept_log_cap = Some(24);
    u.code_noise_layer = Some(2);
    u.clock_cut = Some(5592405);
    let t = SamplingTables::empty();
    sim.set_params(&u, &t);
    }
    run(&mut sim, 597);
    check(&sim);
    assert_eq!(digest(&sim), [2682388052, 806, 0, 16, 0, 4294967140, 2, 2917266398, 0, 0, 0, 0, 0, 0, 0, 0, 0, 0, 0, 0, 0, 0, 0, 0, 0, 806, 30, 30, 75, 82, 42, 41, 16, 0, 1932465894]);
    {
    let mut u = ParamUpdate::new();
    u.rates = Some(rates([399286, 3050671, 13118329, 15379931], [true, true, false, true]));
    u.repair_clock_gated = Some(false);
    u.meta_layers = Some(4);
    u.s_coupling_mode = Some(1);
    u.clock_k = Some(2);
    u.clock_cut = Some(5592405);
    let t = SamplingTables::empty();
    sim.set_params(&u, &t);
    }
    run(&mut sim, 567);
    check(&sim);
    sim.apply_perturbation(Target::MetaField(3), Mode::Zero, Region::All, 16777216, Some(2877070641));
    assert_eq!(digest(&sim), [1049917166, 1373, 1, 20, 1, 4294967112, 63, 947286396, 4024556451, 2317815849, 3257732695, 2687846046, 0, 0, 0, 0, 0, 0, 0, 0, 0, 0, 0, 0, 0, 1373, 35, 30, 116, 122, 172, 75, 50, 1, 1932465894]);
}

#[test]
fn recorded_run_20() {
    let mut sim = Sim::new(5, 396545029);
    {
    let mut u = ParamUpdate::new();
    u.rates = Some(rates([39210, 1011585, 4538580, 11508834], [true, false, false, true]));
    u.accept_log_on = Some(true);
    u.l_a = Some(6);
    u.op_stencil = Some(2);
    u.op_budget_k = Some(5);
    u.s_coupling_mode = Some(1);
    u.accept_log_cap = Some(1251);
    u.accept_log_mask = Some(270);
    u.code_noise_cut = Some(5592405);
    u.init_random = Some(true);
    let t = SamplingTables { bond: vec![vec![4718466, 12966346], vec![1803522, 3889493, 12548808, 12633443, 13645767, 13692614], vec![1089113, 6701827, 8312957], vec![2492639, 5379455, 7757613, 16481219], vec![5039060], vec![7971402, 8074792, 12971097, 13255734], vec![4030438, 10149635, 12902625, 16741593], vec![8152816], vec![1358691, 4498786, 4862785, 9784960], vec![2003454, 4403722, 8274644, 8641636, 13099216, 13893431, 15774959], vec![4954778, 6170542, 10359397, 11302514, 15364907]], bond_meta: vec![1434649, 2101692, 3447830, 3969957, 5367533, 15107356], counter: vec![8233302, 15627470, 16236092], apparatus: vec![44263, 6284016, 6781398, 11308581, 14617110], field: vec![595185, 8287686, 9516618, 11398856, 12193645] };
    sim.set_params(&u, &t);
    }
    run(&mut sim, 701);
    check(&sim);
    sim.apply_perturbation(Target::BaseField, Mode::Randomize, Region::Quadrant(Some(3)), 16777216, None);
    assert_eq!(digest(&sim), [864705655, 701, 24, 685, 2670054525, 4289274237, 1884650, 101119739, 0, 0, 0, 0, 0, 0, 0, 0, 0, 0, 0, 0, 0, 0, 0, 0, 0, 701, 0, 1, 13, 14, 52, 52, 96, 113, 3838341128]);
    {
    let mut u = ParamUpdate::new();
    u.p3_on = Some(true);
    u.clock_on = Some(false);
    u.l_w = Some(1);
    u.l_n = Some(9);
    u.s_coupling_mode = Some(0);
    u.code_noise_batch = Some(4);
    u.repair_gate_mode = Some(0);
    u.repair_gate_span = Some(3);
    u.target_weight = Some(TargetWeight::Even);
    let t = SamplingTables::empty();
    sim.set_params(&u, &t);
    }
    run(&mut sim, 672);
    check(&sim);
    sim.apply_perturbation(Target::MetaField(3), Mode::Zero, Region::All, 16777216, Some(4169640570));
    assert_eq!(digest(&sim), [3703982690, 1373, 4, 641, 2681201699, 4289274237, 1884650, 3570409323, 0, 0, 0, 0, 0, 0, 0, 0, 0, 0, 0, 0, 0, 0, 3, 3044, 637538, 1373, 42, 47, 13, 14, 52, 52, 160, 221, 3838341128]);
    {
    let mut u = ParamUpdate::new();
    u.p6_on = Some(false);
    u.op_coupling_on = Some(false);
    u.accept_log_on = Some(true);
    u.clock_on = Some(true);
    u.l_s = Some(1);
    u.meta_layers = Some(0);
    u.code_noise_batch = Some(3);
    u.repair_gate_mode = Some(2);
    let t = SamplingTables::empty();
    sim.set_params(&u, &t);
    }
    run(&mut sim, 637);
    check(&sim);
    assert_eq!(digest(&sim), [2254029444, 2010, 6, 145, 820005123, 4289274237, 1884650, 612684489, 0, 0, 0, 0, 0, 0, 0, 0, 0, 0, 0, 0, 0, 1, 3, 5991, 144018, 2010, 91, 94, 13, 14, 52, 52, 182, 299, 3838341128]);
    {
    let mut u = ParamUpdate::new();
    u.rates = Some(rates([12451764, 9270237, 14947388, 11700203], [true, false, true, true]));
    u.p3_on = Some(false);
    u.op_coupling_on = Some(false);
    u.accept_log_on = Some(false);
    u.l_n = Some(3);
    u.l_s = Some(0);
    u.grid_size = Some(4);
    u.meta_layers = Some(2);
    u.op_stencil = Some(3);
    u.repair_gate_span = Some(3);
    u.accept_log_mask = Some(1304);
    u.init_random = Some(true);
    let t = SamplingTables { bond: vec![], bond_meta: vec![975180, 6647547, 8534771, 13083217, 15199997, 16682859], counter: vec![4025447, 7511878, 15676830, 16340764, 16588834], apparatus: vec![2510832, 4944259, 6807167, 7635336, 14664375], field: vec![12443704, 12454424, 16390323] };
    sim.set_params(&u, &t);
    }
    run(&mut sim, 355);
    check(&sim);
    sim.apply_perturbation(Target::BaseField, Mode::Zero, Region::All, 8388608, Some(3419978545));
    assert_eq!(digest(&sim), [3366666812, 2365, 4, 1, 2682096359, 4294043840, 122331, 3866970279, 3444015664, 131194896, 2020254895, 2519772964, 0, 0, 0, 0, 0, 0, 0, 0, 0, 0, 0, 0, 0, 2365, 149, 138, 13, 14, 70, 64, 182, 299, 3838341128]);
}

#[test]
fn recorded_run_21() {
    let mut sim = Sim::new(3, 1);
    {
    let mut u = ParamUpdate::new();
    u.rates = Some(rates([7502463, 12463857, 12960430, 16692373], [true, true, false, false]));
    u.p6_on = Some(false);
    u.accept_log_on = Some(true);
    u.clock_on = Some(true);
    u.repair_clock_gated = Some(true);
    u.grid_size = Some(6);
    u.meta_layers = Some(4);
    u.s_coupling_mode = Some(0);
    u.accept_log_cap = Some(2902);
    u.code_noise_layer = Some(2);
    u.repair_gate_span = Some(3);
    u.accept_log_mask = Some(463);
    let t = SamplingTables::empty();
    sim.set_params(&u, &t);
    }
    run(&mut sim, 169);
    check(&sim);
    sim.apply_perturbation(Target::BaseField, Mode::Zero, Region::Quadrant(Some(5)), 8388608, Some(1647034609));
    assert_eq!(digest(&sim), [709666814, 169, 1, 2, 994, 4294966430, 33, 422768882, 2460322473, 4078532324, 253823177, 3135382187, 0, 0, 0, 2, 2, 7, 0, 3567884053, 2615321338, 0, 0, 0, 0, 169, 25, 3, 19, 16, 1, 0, 6, 1, 3838341128]);
    {
    let mut u = ParamUpdate::new();
    u.p6_on = Some(false);
    u.grid_size = Some(5);
    u.op_stencil = Some(3);
    u.accept_log_mask = Some(478);
    let t = SamplingTables::empty();
    sim.set_params(&u, &t);
    }
    run(&mut sim, 135);
    check(&sim);
    sim.apply_perturbation(Target::BaseField, Mode::Zero, Region::All, 16777216, None);
    assert_eq!(digest(&sim), [351522644, 304, 1, 0, 34, 4294963637, 33, 3288070540, 3156428405, 344324499, 58926130, 1415138410, 0, 6, 4294967294, 3, 5, 14, 0, 2544300805, 3642751372, 0, 0, 0, 0, 304, 44, 8, 27, 36, 1, 0, 13, 1, 3838341128]);
    {
    let mut u = ParamUpdate::new();
    u.rates = Some(rates([8342309, 2894466, 12220024, 5569466], [true, false, true, false]));
    u.p3_on = Some(true);
    u.repair_clock_gated = Some(true);
    u.grid_size = Some(0);
    u.s_coupling_mode = Some(0);
    u.code_noise_batch = Some(0);
    u.code_noise_cut = Some(5592405);
    u.init_random = Some(true);
    let t = SamplingTables { bond: vec![vec![198136, 9891808, 11090687, 11513649, 11931273, 13509684, 16392346], vec![496657, 5419221], vec![3785538, 3953552, 4365793, 5279866, 6589360, 10354589, 12525148], vec![], vec![1791807, 7289768, 11239658, 11458291, 13506129], vec![], vec![1706213, 4916687, 7238844, 7654322, 9157636, 11402465, 12190916], vec![1731538, 2722999, 6872110, 7144117, 11634683, 13749266, 14807293], vec![1605515, 5882613, 9388492, 12305929, 15193569, 16005649], vec![672141, 3644712, 12556590], vec![1134240, 12490888]], bond_meta: vec![994800, 1988834, 2092368, 3462816, 4555483, 5100014, 8293376, 13914622, 14268899], counter: vec![2744299, 4074617, 6589685, 6665003, 8043956, 11800149, 13313970, 13771716, 14111302, 15220534, 15705313, 15760195], apparatus: vec![564355, 4713325, 6390192, 11458120, 12767752, 15532171], field: vec![4290927, 5091371, 7160992, 9209539, 11174070, 12118687, 13566182, 14865630, 14950924] };
    sim.set_params(&u, &t);
    }
    run(&mut sim, 267);
    check(&sim);
    sim.apply_perturbation(Target::MetaField(0), Mode::Randomize, Region::Stripe { bins: Some(0), span: None, bin: None }, 0, None);
    assert_eq!(digest(&sim), [2742252574, 571, 7, 4, 1150, 4294965592, 219, 4870, 606675378, 3838341128, 3114255269, 443809109, 0, 6, 4294967294, 3, 5, 14, 0, 2544300805, 3642751372, 0, 3, 6023, 4005, 571, 81, 32, 27, 36, 33, 27, 13, 1, 3838341128]);
}

#[test]
fn recorded_run_22() {
    let mut sim = Sim::new(0, 0);
    {
    let mut u = ParamUpdate::new();
    u.p3_on = Some(true);
    u.op_coupling_on = Some(false);
    u.accept_log_on = Some(true);
    u.l_n = Some(6);
    u.meta_layers = Some(0);
    u.op_stencil = Some(1);
    u.s_coupling_mode = Some(2);
    u.clock_k = Some(0);
    u.repair_gate_mode = Some(1);
    u.accept_log_mask = Some(524);
    u.code_noise_cut = Some(0);
    u.clock_cut = Some(5592405);
    u.target_weight = Some(TargetWeight::Even);
    u.init_random = Some(true);
    let t = SamplingTables { bond: vec![vec![3141738, 5283181, 11606256, 13169003, 14600763], vec![5427031, 6289965, 7355080, 7431877, 9223789, 11492507, 16361425], vec![], vec![5551006, 6102721, 6786519, 8586991, 9312726, 16070866], vec![275647, 1033124, 2835457, 5921103, 9328839, 11742163], vec![323083, 677781, 2827911, 5792457, 8575089, 12264243], vec![3322969, 6360207, 11698658]], bond_meta: vec![13196071, 14323114], counter: vec![5986511], apparatus: vec![6439324, 12080540], field: vec![1355068, 1816728, 5792002, 7233704, 7674419, 8955541, 9011278, 9297183, 9932236, 11973484] };
    sim.set_params(&u, &t);
    }
    run(&mut sim, 362);
    check(&sim);
    assert_eq!(digest(&sim), [406464228, 362, 0, 1007, 0, 0, 0, 2556600867, 0, 0, 0, 0, 0, 0, 0, 0, 0, 0, 0, 0, 0, 2, 5, 31810, 961016945, 362, 0, 0, 0, 0, 0, 0, 18, 30, 3838341128]);
    {
    let mut u = ParamUpdate::new();
    u.p6_on = Some(true);
    u.clock_on = Some(false);
    u.l_a = Some(9);
    u.accept_log_cap = Some(2907);
    u.code_noise_layer = Some(3);
    u.clock_k = Some(7);
    u.repair_gate_mode = Some(2);
    u.accept_log_mask = Some(420);
    let t = SamplingTables::empty();
    sim.set_params(&u, &t);
    }
    run(&mut sim, 425);
    check(&sim);
    sim.apply_perturbation(Target::MetaField(0), Mode::Zero, Region::Quadrant(Some(5)), 16777216, None);
    assert_eq!(digest(&sim), [1486542027, 787, 0, 982, 0, 0, 0, 3028133368, 0, 0, 0, 0, 0, 0, 0, 0, 0, 61, 0, 1699110259, 3009059117, 2, 5, 31810, 937160312, 787, 0, 0, 0, 0, 0, 0, 36, 73, 3838747809]);
    {
    let mut u = ParamUpdate::new();
    u.rates = Some(rates([4885952, 5060388, 5379314, 13654524], [true, true, true, false]));
    u.p3_on = Some(true);
    u.p6_on = Some(true);
    u.accept_log_on = Some(false);
    u.clock_on = Some(true);
    u.l_a = Some(7);
    u.grid_size = Some(12);
    u.meta_layers = Some(2);
    u.accept_log_mask = Some(571);
    let t = SamplingTables::empty();
    sim.set_params(&u, &t);
    }
    run(&mut sim, 565);
    check(&sim);
    sim.apply_perturbation(Target::BaseField, Mode::Randomize, Region::Stripe { bins: Some(2), span: Some(1), bin: Some(135) }, 8388608, Some(3275145899));
    assert_eq!(digest(&sim), [3597932853, 1352, 0, 89, 0, 0, 0, 3648166971, 3941654672, 600792534, 2848296308, 2171157097, 0, 0, 14, 19, 5, 61, 0, 1699110259, 3009059117, 1, 4, 1026, 1026, 1352, 38, 1, 31, 25, 41, 3, 36, 73, 440421968]);
}

#[test]
fn recorded_run_23() {
    let mut sim = Sim::new(3, 0);
    {
    let mut u = ParamUpdate::new();
    u.op_coupling_on = Some(false);
    u.l_w = Some(8);
    u.l_s = Some(0);
    u.meta_layers = Some(3);
    u.clock_k = Some(8);
    u.target_weight = Some(TargetWeight::Split([9216565, 14972012, 3812755, 2934249, 10986856, 6372850, 2001162, 15256500, 10138513, 14352791, 3454027, 5813327, 3697108, 2396117, 2958442, 1044573]));
    let t = SamplingTables::empty();
    sim.set_params(&u, &t);
    }
    run(&mut sim, 900);
    check(&sim);
    sim.apply_perturbation(Target::BaseField, Mode::Zero, Region::All, 8533551, None);
    assert_eq!(digest(&sim), [2544185597, 900, 0, 0, 33, 4294965345, 1957, 452919424, 947517852, 2529461888, 3276067075, 1046017799, 0, 0, 0, 0, 0, 0, 0, 0, 0, 0, 0, 0, 0, 900, 70, 19, 12, 32, 16, 1, 28, 3, 3838341128]);
    {
    let mut u = ParamUpdate::new();
    u.p6_on = Some(true);
    u.repair_clock_gated = Some(false);
    u.l_a = Some(0);
    u.code_noise_batch = Some(0);
    u.target_weight = Some(TargetWeight::Split([15806754, 2547656, 5946909, 16278810, 1472310, 14891938, 5391766, 13946623, 16125733, 13768044, 781391, 625791, 7363438, 15627272, 452969, 3195996]));
    let t = SamplingTables::empty();
    sim.set_params(&u, &t);
    }
    run(&mut sim, 234);
    check(&sim);
    sim.apply_perturbation(Target::BaseField, Mode::Zero, Region::All, 0, Some(2054578827));
    assert_eq!(digest(&sim), [1639370317, 1134, 3, 2, 1956, 4294966244, 33, 3212667586, 3191051965, 346151004, 576909153, 2256578888, 0, 0, 0, 0, 0, 0, 0, 0, 0, 0, 0, 0, 0, 1134, 85, 22, 16, 39, 20, 3, 33, 3, 3898950200]);
}
