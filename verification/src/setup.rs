//! Construction.

use vstd::prelude::*;
use crate::index::{lemma_pair_count_bound, pair_count};
use crate::params::Params;
use crate::rng::{seeded, stream, unit_of, Xorshift32};
use crate::state::{Clock, DiagTotals, Phase, Sim, SimView};
use crate::sums::lemma_total_zeros;

verus! {

/// Edge of the grid a simulation starts with.
pub const DEFAULT_GRID_SIZE: usize = 16;

impl SimView {
    /// The state of a fresh simulation of `n` particles: the default
    /// configuration, every scalar at zero, no meta tower, and the generator
    /// past the `2 * n` draws that placed the particles.
    pub open spec fn initial(n: nat, seed: u32) -> SimView {
        SimView {
            n,
            params: Params::initial(),
            rng: stream(seeded(seed), 2 * n),
            step_count: 0,
            w: Seq::new(pair_count(n as int) as nat, |i: int| 0u8),
            counters: Seq::new(n, |i: int| 0i16),
            apparatus: Seq::new(n, |i: int| 0u16),
            field: Seq::new(256, |i: int| 0u8),
            meta_field: Seq::empty(),
            meta_counters: Seq::empty(),
            meta_apparatus: Seq::empty(),
            meta_bonds: Seq::empty(),
            budget: Seq::empty(),
            sum_w: 0,
            sum_s: 0,
            diag: DiagTotals::zero(),
            phase: 0,
            cycle_len: 0,
            obs_w: Seq::empty(),
            obs_s: Seq::empty(),
            log: Seq::empty(),
            log_overflowed: false,
            clock: Clock { state: 0, net: 0, fwd: 0, bwd: 0 },
            pending: Phase::Idle,
        }
    }
}

/// The variates that place the particles of a fresh simulation: entries
/// `2 * i` and `2 * i + 1` are the coordinates of particle `i`, as numerators
/// over `UNIT`.
pub fn initial_variates(n: usize, seed: u32) -> (v: Vec<u32>)
    requires
        2 * n <= usize::MAX,
    ensures
        v@.len() == 2 * n,
        forall|k: int| 0 <= k < 2 * n ==> #[trigger] v@[k] == unit_of(stream(seeded(seed), (k + 1) as nat)),
        forall|k: int| 0 <= k < 2 * n ==> #[trigger] v@[k] < crate::rng::UNIT,
{
    let mut g: Xorshift32 = Xorshift32::new(seed);
    let mut v: Vec<u32> = Vec::new();
    let mut k: usize = 0;
    while k < 2 * n
        invariant
            k <= 2 * n <= usize::MAX,
            v@.len() == k,
            g@ == stream(seeded(seed), k as nat),
            forall|i: int| 0 <= i < k ==> #[trigger] v@[i] == unit_of(stream(seeded(seed), (i + 1) as nat)),
            forall|i: int| 0 <= i < k ==> #[trigger] v@[i] < crate::rng::UNIT,
        decreases 2 * n - k,
    {
        let u: u32 = g.next_unit();
        v.push(u);
        k = k + 1;
    }
    v
}

impl Sim {
    /// A fresh simulation of `n` particles. The pair count must fit 32 bits,
    /// the width in which pairs and cells are reported.
    pub fn new(n: usize, seed: u32) -> (sim: Sim)
        requires
            pair_count(n as int) <= u32::MAX,
        ensures
            sim@ == SimView::initial(n as nat, seed),
            sim@.wf(),
    {
        proof {
            lemma_pair_count_bound(n as int);
            assert(0 <= n * (n - 1) <= 92_682 * 92_682) by (nonlinear_arith)
                requires
                    0 <= n <= 92_682,
            ;
        }
        let m: usize = if n == 0 {
            0
        } else {
            ((n as u64 * (n as u64 - 1)) / 2) as usize
        };
        assert(m == pair_count(n as int)) by {
            assert(0 * (0 - 1) / 2 == 0int);
        }
        let mut rng: Xorshift32 = Xorshift32::new(seed);
        let mut k: usize = 0;
        while k < 2 * n
            invariant
                k <= 2 * n,
                n <= 92_682,
                rng@ == stream(seeded(seed), k as nat),
            decreases 2 * n - k,
        {
            let _ = rng.next_u32();
            k = k + 1;
        }
        let sim = Sim {
            n,
            params: Params::new(),
            rng,
            step_count: 0,
            w: vec![0u8; m],
            n_counter: vec![0i16; n],
            a_counter: vec![0u16; n],
            s_field: vec![0u8; DEFAULT_GRID_SIZE * DEFAULT_GRID_SIZE],
            meta_field: Vec::new(),
            meta_n_field: Vec::new(),
            meta_a_field: Vec::new(),
            meta_w_edges: Vec::new(),
            op_k: Vec::new(),
            sum_w: 0,
            sum_s: 0,
            diag: DiagTotals::new(),
            phase: 0,
            p3_cycle_len: 0,
            p3_obs1: Vec::new(),
            p3_obs2: Vec::new(),
            accept_log: Vec::new(),
            accept_log_overflowed: false,
            clock: Clock { state: 0, net: 0, fwd: 0, bwd: 0 },
            pending: Phase::Idle,
        };
        proof {
            lemma_total_zeros(sim.w@);
            lemma_total_zeros(sim.s_field@);
            assert(sim@.w =~= SimView::initial(n as nat, seed).w);
            assert(sim@.field =~= SimView::initial(n as nat, seed).field);
            assert(sim@.counters =~= SimView::initial(n as nat, seed).counters);
            assert(sim@.apparatus =~= SimView::initial(n as nat, seed).apparatus);
        }
        sim
    }
}

/// A fresh simulation is valid and can begin a step.
pub proof fn lemma_initial_valid(n: nat, seed: u32)
    requires
        pair_count(n as int) <= u32::MAX,
    ensures
        SimView::initial(n, seed).live(),
{
    let v = SimView::initial(n, seed);
    lemma_total_zeros(v.w);
    lemma_total_zeros(v.field);
    assert(pair_count(n as int) >= 0) by (nonlinear_arith)
        requires
            n >= 0,
    ;
}

} // verus!
