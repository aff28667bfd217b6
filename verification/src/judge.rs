//! Pairs and verdicts: the two answers a step can wait for, and what an
//! accepted move does to the state.

use vstd::prelude::*;
use crate::engine::reservoir;
use crate::index::{lemma_pair_index_injective, lemma_pair_index_range, pair_index, pair_of};
use crate::kernels::step_value;
use crate::rng::{HALF, UNIT};
use crate::state::{
    cell_budget, Outcome, Phase, Proposal, Record, Request, Sim, StepDiag, Verdict, MOVE_OPK,
    MOVE_P5_BASE, MOVE_P5_META,
};
use crate::sums::{lemma_total_bound, lemma_total_two, lemma_total_update};

verus! {

/// Moving one unit between two directions of a cell keeps every cell's sum.
pub proof fn lemma_budget_transfer(
    budget: Seq<u8>,
    c0: int,
    rc: int,
    r_from: int,
    r_to: int,
    count: int,
    k: int,
)
    requires
        0 < rc,
        0 <= c0 < count,
        budget.len() == count * rc,
        0 <= r_from < rc,
        0 <= r_to < rc,
        r_from != r_to,
        budget[c0 * rc + r_from] > 0,
        k <= 255,
        forall|c: int| 0 <= c < count ==> #[trigger] cell_budget(budget, c, rc) == k,
    ensures
        budget[c0 * rc + r_to] < 255,
        0 <= c0 * rc,
        c0 * rc + rc <= budget.len(),
        forall|c: int|
            0 <= c < count ==> #[trigger] cell_budget(
                budget.update(c0 * rc + r_from, (budget[c0 * rc + r_from] - 1) as u8).update(
                    c0 * rc + r_to,
                    (budget[c0 * rc + r_to] + 1) as u8,
                ),
                c,
                rc,
            ) == k,
{
    let a: int = c0 * rc + r_from;
    let b: int = c0 * rc + r_to;
    assert(0 <= c0 * rc && c0 * rc + rc <= count * rc) by (nonlinear_arith)
        requires
            0 <= c0 < count,
            0 < rc,
    ;
    let sub = budget.subrange(c0 * rc, c0 * rc + rc);
    assert(cell_budget(budget, c0, rc) == k);
    lemma_total_two(sub, r_from, r_to);
    let x: u8 = budget[a];
    let y: u8 = budget[b];
    let next = budget.update(a, (x - 1) as u8).update(b, (y + 1) as u8);
    assert forall|c: int| 0 <= c < count implies #[trigger] cell_budget(next, c, rc) == k by {
        assert(cell_budget(budget, c, rc) == k);
        assert(0 <= c * rc && c * rc + rc <= count * rc) by (nonlinear_arith)
            requires
                0 <= c < count,
                0 < rc,
        ;
        if c == c0 {
            let mid = sub.update(r_from, (x - 1) as u8);
            assert(next.subrange(c0 * rc, c0 * rc + rc) =~= mid.update(r_to, (y + 1) as u8));
            lemma_total_update(sub, r_from, (x - 1) as u8);
            lemma_total_update(mid, r_to, (y + 1) as u8);
        } else {
            assert(c * rc + rc <= c0 * rc || c0 * rc + rc <= c * rc) by (nonlinear_arith)
                requires
                    c != c0,
                    0 < rc,
            ;
            assert(next.subrange(c * rc, c * rc + rc) =~= budget.subrange(c * rc, c * rc + rc));
        }
    }
}

impl Sim {
    /// Offers an accepted move to the log.
    pub(crate) fn accept_log_push(&mut self, q: u32, kind: u8, a: u8, b: u8, c: u8, ep_bits: u64)
        requires
            old(self)@.live(),
            kind < 32,
        ensures
            final(self)@ == old(self)@.logged(q, kind, a, b, c, ep_bits),
            final(self)@.live(),
            final(self)@.anchored(old(self)@),
    {
        if !self.params.accept_log_on {
            return ;
        }
        if self.accept_log_overflowed {
            return ;
        }
        let mask: u32 = 1u32 << (kind as u32);
        if (self.params.accept_log_mask & mask) == 0 {
            return ;
        }
        if self.accept_log.len() >= self.params.accept_log_cap as usize {
            self.accept_log_overflowed = true;
            return ;
        }
        let tags: u32 = (kind as u32) | ((a as u32) << 8) | ((b as u32) << 16) | ((c as u32) << 24);
        self.accept_log.push(Record { step: self.step_count, subject: q, tags, ep_bits });
    }

    /// Carries out the move of `p`.
    fn apply(&mut self, p: Proposal, ep_bits: u64)
        requires
            old(self)@.live(),
            old(self)@.admits(p),
        ensures
            final(self)@ == old(self)@.applied(p, ep_bits),
            final(self)@.live(),
            final(self)@.anchored(old(self)@),
    {
        let cells: usize = self.cells();
        match p {
            Proposal::Particle { .. } => {},
            Proposal::Bond { i, j, index, from, to } => {
                proof {
                    lemma_pair_index_range(self.n as int, i as int, j as int);
                    lemma_total_bound(self.w@, 255);
                    lemma_total_update(self.w@, index as int, to);
                    assert(255 * self.w@.len() <= 255 * 0xffff_ffff) by (nonlinear_arith)
                        requires
                            self.w@.len() <= 0xffff_ffff,
                    ;
                }
                self.w[index] = to;
                self.sum_w = self.sum_w + to as i64 - from as i64;
            },
            Proposal::BondMeta { layer, edge, to, .. } => {
                let base: usize = self.layer_base(layer, 2 * cells);
                self.meta_w_edges[base + edge] = to;
            },
            Proposal::Apparatus { k, to, .. } => {
                self.a_counter[k] = to;
            },
            Proposal::ApparatusMeta { layer, cell, to, .. } => {
                let base: usize = self.layer_base(layer, cells);
                self.meta_a_field[base + cell] = to;
            },
            Proposal::Counter { k, to, .. } => {
                self.n_counter[k] = to;
            },
            Proposal::CounterMeta { layer, cell, to, .. } => {
                let base: usize = self.layer_base(layer, cells);
                self.meta_n_field[base + cell] = to;
            },
            Proposal::Field { cell, from, to, mismatch, dir } => {
                proof {
                    lemma_total_bound(self.s_field@, 255);
                    lemma_total_update(self.s_field@, cell as int, to);
                    assert(255 * self.s_field@.len() <= 255 * 0x1_0000) by (nonlinear_arith)
                        requires
                            self.s_field@.len() <= 0x1_0000,
                    ;
                }
                self.s_field[cell] = to;
                self.sum_s = self.sum_s + to as i64 - from as i64;
                self.accept_log_push(cell as u32, MOVE_P5_BASE, 255, mismatch, dir, ep_bits);
            },
            Proposal::FieldMeta { layer, cell, from, to, mismatch, dir } => {
                let base: usize = self.layer_base(layer, cells);
                self.meta_field[base + cell] = to;
                self.accept_log_push(cell as u32, MOVE_P5_META, layer as u8, mismatch, dir, ep_bits);
            },
            Proposal::Budget { interface, cell, r_from, r_to } => {
                let base: usize = self.budget_base(interface, cell);
                proof {
                    let rc: int = self@.r_count();
                    let c0: int = interface * self@.cells() + cell;
                    let count: int = self@.layers() * self@.cells();
                    assert(0 <= c0 < count) by (nonlinear_arith)
                        requires
                            c0 == interface * self@.cells() + cell,
                            count == self@.layers() * self@.cells(),
                            0 <= interface < self@.layers(),
                            0 <= cell < self@.cells(),
                    ;
                    lemma_budget_transfer(
                        self.op_k@,
                        c0,
                        rc,
                        r_from as int,
                        r_to as int,
                        count,
                        self.params.op_budget_k as int,
                    );
                }
                self.op_k[base + r_from] = self.op_k[base + r_from] - 1;
                self.op_k[base + r_to] = self.op_k[base + r_to] + 1;
                self.accept_log_push(cell as u32, MOVE_OPK, 0, r_from as u8, r_to as u8, ep_bits);
            },
            Proposal::Clock { up } => {
                let k: u8 = self.params.clock_k;
                if up {
                    if self.clock.fwd < i64::MAX as u64 {
                        self.clock.state = if self.clock.state + 1 >= k {
                            0
                        } else {
                            self.clock.state + 1
                        };
                        self.clock.net = self.clock.net + 1;
                        self.clock.fwd = self.clock.fwd + 1;
                    }
                } else {
                    if self.clock.bwd < i64::MAX as u64 {
                        self.clock.state = if self.clock.state == 0 {
                            k - 1
                        } else {
                            self.clock.state - 1
                        };
                        self.clock.net = self.clock.net - 1;
                        self.clock.bwd = self.clock.bwd + 1;
                    }
                }
            },
        }
    }

    /// Carries out an accepted move and counts it in its context.
    fn commit(&mut self, p: Proposal, v: &Verdict)
        requires
            old(self)@.live(),
            old(self)@.admits(p),
        ensures
            final(self)@ == old(self)@.committed(p, *v),
            final(self)@.live(),
            final(self)@.anchored(old(self)@),
    {
        self.apply(p, v.ep_bits);
        if self.params.p6_on {
            self.diag.note(&p, v.high);
        }
    }

    /// Continues a bond step with the pairs within reach.
    pub fn supply_pairs(&mut self, near: &Vec<bool>) -> (r: Request)
        requires
            old(self)@.wf(),
        ensures
            (final(self)@, r) == old(self)@.supply_pairs(near@),
            !(r is Pairs),
            final(self)@.wf(),
            final(self)@.anchored(old(self)@),
            final(self)@.awaits(r),
    {
        match self.pending {
            Phase::Pairs => {},
            Phase::Idle => {
                return Request::Done(Outcome { accepted: false, delta: 0, cycle_closed: false });
            },
            Phase::Judge(p) => {
                return Request::Judge(p);
            },
        }
        self.pending = Phase::Idle;
        let ghost idle = self@;
        let m: usize = self.w.len();
        let mut chosen: Option<usize> = None;
        let mut count: u64 = 0;
        let mut k: usize = 0;
        while k < m
            invariant
                k <= m,
                m == idle.w.len(),
                m <= u32::MAX,
                idle.live(),
                self@ == idle.with_rng(self@.rng),
                count <= k,
                reservoir(near@, idle.rng, k as nat).rng == self@.rng,
                reservoir(near@, idle.rng, k as nat).count == count,
                match chosen {
                    Some(c) => reservoir(near@, idle.rng, k as nat).chosen == Some(c as int) && c
                        < k,
                    None => reservoir(near@, idle.rng, k as nat).chosen is None,
                },
            decreases m - k,
        {
            if k < near.len() && near[k] {
                count = count + 1;
                let u: u32 = self.rng.next_unit();
                assert(u * count <= 0x0100_0000 * 0x1_0000_0000) by (nonlinear_arith)
                    requires
                        u < 0x0100_0000,
                        count <= 0x1_0000_0000,
                ;
                if (u as u64) * count < UNIT as u64 {
                    chosen = Some(k);
                }
            }
            k = k + 1;
        }
        match chosen {
            None => self.rest(),
            Some(index) => {
                let (i, j) = pair_of(self.n, index);
                proof {
                    let n: int = self.n as int;
                    let (ci, cj) = choose|ci: int, cj: int|
                        0 <= ci < cj < n && pair_index(n, ci, cj) == index as int;
                    assert(0 <= i < j < n && pair_index(n, i as int, j as int) == index as int);
                    lemma_pair_index_injective(n, ci, cj, i as int, j as int);
                }
                let from: u8 = self.w[index];
                let up: bool = self.rng.next_unit() < HALF;
                match step_value(from as i32, up, 0, self.params.l_w as i32) {
                    None => self.rest(),
                    Some(to) => self.propose(Proposal::Bond { i, j, index, from, to: to as u8 }),
                }
            },
        }
    }

    /// The acceptance rule: a free move is taken outright; any other costs
    /// one draw and is taken when the variate is below the cut.
    fn accept_move(&mut self, v: &Verdict) -> (accepted: bool)
        requires
            old(self)@.live(),
        ensures
            final(self)@ == (if v.free {
                old(self)@
            } else {
                old(self)@.with_rng(crate::rng::xorshift(old(self)@.rng))
            }),
            accepted == (v.free || crate::rng::unit_of(crate::rng::xorshift(old(self)@.rng))
                < v.cut),
            final(self)@.live(),
            final(self)@.anchored(old(self)@),
    {
        if v.free {
            true
        } else {
            self.rng.next_unit() < v.cut
        }
    }

    /// Settles the open proposal and ends the step.
    pub fn resolve(&mut self, v: Verdict) -> (o: Outcome)
        requires
            old(self)@.wf(),
        ensures
            (final(self)@, Request::Done(o)) == old(self)@.resolve(v),
            old(self)@.pending is Judge ==> final(self)@.pending is Idle,
            !(old(self)@.pending is Judge) ==> final(self)@.pending == old(self)@.pending,
            final(self)@.wf(),
            final(self)@.anchored(old(self)@),
    {
        let p: Proposal = match self.pending {
            Phase::Judge(p) => p,
            _ => {
                return Outcome { accepted: false, delta: 0, cycle_closed: false };
            },
        };
        self.pending = Phase::Idle;
        let r: Request = if self.accept_move(&v) {
            self.commit(p, &v);
            self.finish(StepDiag::for_move(&p), true, p.step_delta())
        } else {
            self.finish(StepDiag::empty(), false, 0)
        };
        match r {
            Request::Done(o) => o,
            _ => Outcome { accepted: false, delta: 0, cycle_closed: false },
        }
    }
}

} // verus!
