//! What holds of the engine as a whole.

use vstd::prelude::*;
use vstd::arithmetic::div_mod::lemma_fundamental_div_mod_converse;
use crate::configure::TablesView;
use crate::engine::{pack_tags, reservoir};
use crate::grid::quadrant;
use crate::params::ParamUpdate;
use crate::perturb::{Mode, Region, Target};
use crate::state::{
    cell_budget, Phase, Proposal, Request, SimView, StepDiag, Verdict, MOVE_P5_META,
};
use crate::index::pair_count;
use crate::params::MAX_LOG_CAP;
use crate::params::lemma_cells_bound;
use crate::preserve::{
    lemma_after_valid, lemma_committed, lemma_finished, lemma_judge_event, lemma_run,
    lemma_step_event,
};
use crate::rng::{unit_of, xorshift};
use crate::setup::lemma_initial_valid;
use crate::sums::{bin_of, lemma_total_u32_update, lemma_total_u32_zeros, tally, total, total_u32};

verus! {

/// One call into the engine.
pub enum Event {
    Begin,
    Pairs(Seq<bool>),
    Judge(Verdict),
    Configure(ParamUpdate, TablesView),
    Perturb(Target, Mode, Region, u32, Option<u32>),
    ClearLog,
}

impl SimView {
    /// The state after one call.
    #[verifier::opaque]
    pub open spec fn after(self, e: Event) -> SimView {
        match e {
            Event::Begin => self.begin_step().0,
            Event::Pairs(near) => self.supply_pairs(near).0,
            Event::Judge(v) => self.resolve(v).0,
            Event::Configure(u, t) => self.configured(u, t),
            Event::Perturb(target, mode, region, cut, seed) => self.perturbed(
                target,
                mode,
                region,
                cut,
                seed,
            ),
            Event::ClearLog => SimView { log: Seq::empty(), log_overflowed: false, ..self },
        }
    }

    /// Whether the call `e` is a call of a step and the one this state waits
    /// for: the beginning of a step while none is under way, the pairs while
    /// they are asked for, a verdict while a proposal is open.
    pub open spec fn expects(self, e: Event) -> bool {
        match e {
            Event::Begin => self.pending is Idle,
            Event::Pairs(_) => self.pending is Pairs,
            Event::Judge(_) => self.pending is Judge,
            _ => false,
        }
    }

    /// Whether every call of `events`, made in turn from this state, is the
    /// one the state then waits for.
    pub open spec fn orderly(self, events: Seq<Event>) -> bool
        decreases events.len(),
    {
        events.len() == 0 || (self.orderly(events.drop_last()) && self.run(
            events.drop_last(),
        ).expects(events.last()))
    }

    /// Whether `events` are the calls of `steps` steps, made in order from
    /// this state, and lead to `target`.
    pub open spec fn steps_to(self, events: Seq<Event>, steps: nat, target: SimView) -> bool {
        &&& self.orderly(events)
        &&& begins(events) == steps
        &&& self.run(events) == target
    }

    /// Whether the calls of `steps` steps, made in order with some answers
    /// of a host, lead from `start` to this state.
    pub open spec fn stepped_from(self, start: SimView, steps: nat) -> bool {
        exists|events: Seq<Event>| #[trigger] start.steps_to(events, steps, self)
    }

    /// 1 while a step is under way, else 0.
    pub open spec fn open_steps(self) -> int {
        if self.pending is Idle {
            0
        } else {
            1
        }
    }

    /// Whether the clock cannot move: it is off or no step leads to the
    /// counter kernel, and no tick awaits its verdict.
    pub open spec fn clock_at_rest(self) -> bool {
        &&& (!self.params.clock_on || self.params.clock_cut == 0 || self.params.counter_idle())
        &&& !(self.pending matches Phase::Judge(Proposal::Clock { .. }))
    }

    /// The bond sum less the net count of accepted bond moves.
    pub open spec fn bond_balance(self) -> int {
        self.sum_w - self.diag.w_plus + self.diag.w_minus
    }

    /// The state after a sequence of calls.
    #[verifier::opaque]
    pub open spec fn run(self, events: Seq<Event>) -> SimView
        decreases events.len(),
    {
        if events.len() == 0 {
            self
        } else {
            self.run(events.drop_last()).after(events.last())
        }
    }
}

/// Bound invariant: after any sequence of calls on a valid state, every
/// bond weight, counter, apparatus value and field value, on the base layer
/// and on every meta layer, lies within its configured bound.
pub proof fn lemma_bounds(v: SimView, events: Seq<Event>)
    requires
        v.wf(),
    ensures
        ({
            let s = v.run(events);
            &&& forall|i: int| 0 <= i < s.w.len() ==> 0 <= #[trigger] s.w[i] <= s.params.l_w
            &&& forall|i: int|
                0 <= i < s.meta_bonds.len() ==> 0 <= #[trigger] s.meta_bonds[i] <= s.params.l_w
            &&& forall|i: int|
                0 <= i < s.counters.len() ==> -s.params.l_n <= #[trigger] s.counters[i]
                    <= s.params.l_n
            &&& forall|i: int|
                0 <= i < s.meta_counters.len() ==> -s.params.l_n <= #[trigger] s.meta_counters[i]
                    <= s.params.l_n
            &&& forall|i: int|
                0 <= i < s.apparatus.len() ==> 0 <= #[trigger] s.apparatus[i] <= s.params.l_a
            &&& forall|i: int|
                0 <= i < s.meta_apparatus.len() ==> 0 <= #[trigger] s.meta_apparatus[i]
                    <= s.params.l_a
            &&& forall|i: int| 0 <= i < s.field.len() ==> 0 <= #[trigger] s.field[i] <= s.params.l_s
            &&& forall|i: int|
                0 <= i < s.meta_field.len() ==> 0 <= #[trigger] s.meta_field[i] <= s.params.l_s
        }),
{
    lemma_run(v, events);
}

/// Sum invariant: after any sequence of calls on a valid state, the running
/// sums are the sums of the bond weights and of the base field.
pub proof fn lemma_sums(v: SimView, events: Seq<Event>)
    requires
        v.wf(),
    ensures
        v.run(events).sum_w == total(v.run(events).w),
        v.run(events).sum_s == total(v.run(events).field),
{
    lemma_run(v, events);
}

/// Budget invariant: after any sequence of calls on a valid state, where
/// predictive coupling is on over a tower, the directional weights of every
/// interface and cell add up to the configured budget.
pub proof fn lemma_budget(v: SimView, events: Seq<Event>, interface: int, cell: int)
    requires
        v.wf(),
        v.run(events).coupled(),
        0 <= interface < v.run(events).layers(),
        0 <= cell < v.run(events).cells(),
    ensures
        cell_budget(
            v.run(events).budget,
            interface * v.run(events).cells() + cell,
            v.run(events).r_count(),
        ) == v.run(events).params.op_budget_k,
        v.run(events).budget.len() == v.run(events).layers() * v.run(events).cells() * v.run(
            events,
        ).r_count(),
{
    lemma_run(v, events);
    let s = v.run(events);
    assert(0 <= interface * s.cells() + cell < s.layers() * s.cells()) by (nonlinear_arith)
        requires
            0 <= interface < s.layers(),
            0 <= cell < s.cells(),
    ;
}

/// Clock cyclicity: after any sequence of calls on a valid state, the clock
/// state is on its ring and the net ticks are the forward ticks minus the
/// backward ticks.
pub proof fn lemma_clock(v: SimView, events: Seq<Event>)
    requires
        v.wf(),
    ensures
        0 <= v.run(events).clock.state < v.run(events).params.clock_k,
        v.run(events).clock.net == v.run(events).clock.fwd - v.run(events).clock.bwd,
{
    lemma_run(v, events);
}

/// What the calls of steps do, whatever a host answers. From a valid state
/// and through calls made in order: the state stays valid under the same
/// configuration; the log at most grows; the step count grows by the steps
/// begun, modulo 2^32; the tick counts never fall; a clock at rest stays as
/// it is; the steps counted are the steps ended, up to the ceiling of the
/// count; the bond counts grow by at most one per step; and without a tower,
/// as long as neither bond count has reached its ceiling, the bond sum moves
/// with the net count of accepted bond moves.
pub proof fn lemma_steps(v: SimView, events: Seq<Event>)
    requires
        v.wf(),
        v.orderly(events),
    ensures
        ({
            let s = v.run(events);
            let ended: int = begins(events) + v.open_steps() - s.open_steps();
            &&& s.wf()
            &&& s.n == v.n
            &&& s.params == v.params
            &&& s.log_extends(v)
            &&& s.step_count == (v.step_count + begins(events)) % 0x1_0000_0000
            &&& s.clock.fwd >= v.clock.fwd
            &&& s.clock.bwd >= v.clock.bwd
            &&& (v.clock_at_rest() ==> s.clock == v.clock && s.clock_at_rest())
            &&& 0 <= ended
            &&& s.diag.steps == (if v.diag.steps + ended > u32::MAX {
                u32::MAX as int
            } else {
                v.diag.steps + ended
            })
            &&& v.diag.w_plus <= s.diag.w_plus <= v.diag.w_plus + ended
            &&& v.diag.w_minus <= s.diag.w_minus <= v.diag.w_minus + ended
            &&& (v.layers() == 0 && s.diag.w_plus < u32::MAX && s.diag.w_minus < u32::MAX
                ==> s.bond_balance() == v.bond_balance())
        }),
    decreases events.len(),
{
    if events.len() == 0 {
        lemma_run_empty(v);
        assert(events =~= Seq::<Event>::empty());
    } else {
        let before = events.drop_last();
        let e = events.last();
        lemma_steps(v, before);
        assert(before.push(e) =~= events);
        lemma_run_push(v, before, e);
        lemma_step_event(v.run(before), e);
    }
}

/// Clock at rest: while the clock is off, or while no step leads to the
/// counter kernel, steps leave the state of the clock, its net ticks and
/// both tick counts as they are; and steps never lower a tick count.
pub proof fn lemma_clock_rests(v: SimView, events: Seq<Event>)
    requires
        v.wf(),
        v.orderly(events),
    ensures
        v.run(events).clock.fwd >= v.clock.fwd,
        v.run(events).clock.bwd >= v.clock.bwd,
        v.clock_at_rest() ==> v.run(events).clock == v.clock,
{
    lemma_steps(v, events);
}

/// Bond sum and counts: on a fresh simulation under its first
/// configuration, after any steps short of 2^32 - 1, the bond sum is the
/// count of accepted bond increments less the count of accepted decrements.
pub proof fn lemma_bond_sum_counted(n: nat, seed: u32, events: Seq<Event>)
    requires
        pair_count(n as int) <= u32::MAX,
        SimView::initial(n, seed).orderly(events),
        begins(events) < u32::MAX,
    ensures
        ({
            let s = SimView::initial(n, seed).run(events);
            s.sum_w == s.diag.w_plus - s.diag.w_minus
        }),
{
    lemma_initial_valid(n, seed);
    lemma_steps(SimView::initial(n, seed), events);
}

/// Steps in two runs are steps in one: what `a` steps and then `b` steps
/// reach, `a + b` steps reach with the same answers.
pub proof fn lemma_steps_add(v: SimView, mid: SimView, end: SimView, a: nat, b: nat)
    requires
        mid.stepped_from(v, a),
        end.stepped_from(mid, b),
    ensures
        end.stepped_from(v, a + b),
{
    let first = choose|events: Seq<Event>| #[trigger] v.steps_to(events, a, mid);
    let second = choose|events: Seq<Event>| #[trigger] mid.steps_to(events, b, end);
    lemma_orderly_concat(v, first, second);
    assert(v.steps_to(first + second, a + b, end));
}

/// The state that steps reach is a function of the state they start from
/// and of the calls made, answers included: equal simulations given the
/// same calls stay equal.
pub proof fn lemma_steps_deterministic(
    a: SimView,
    b: SimView,
    events: Seq<Event>,
    steps: nat,
    end_a: SimView,
    end_b: SimView,
)
    requires
        a == b,
        a.steps_to(events, steps, end_a),
        b.steps_to(events, steps, end_b),
    ensures
        end_a == end_b,
{
}

/// Log overflow: once the overflow flag is up, no call but the clearing of
/// the log adds a record or lowers the flag.
pub proof fn lemma_overflow_sticks(v: SimView, e: Event)
    requires
        v.wf(),
        v.log_overflowed,
        !(e is ClearLog),
    ensures
        v.after(e).log_overflowed,
        v.after(e).log == v.log,
{
    lemma_after_valid(v, e);
}

/// The log never holds more records than its largest capacity, and no call
/// but the clearing of the log makes it shorter.
pub proof fn lemma_log_grows(v: SimView, e: Event)
    requires
        v.wf(),
        !(e is ClearLog),
    ensures
        v.log.len() <= v.after(e).log.len() <= MAX_LOG_CAP,
{
    lemma_after_valid(v, e);
}

/// The counts of a histogram, bin by bin.
pub open spec fn tallies(s: Seq<u8>, top: int) -> Seq<u32> {
    Seq::new((top + 1) as nat, |b: int| tally(s, b, top) as u32)
}

/// Histogram conservation: the counts of a histogram add up to the number
/// of entries counted.
pub proof fn lemma_histogram(s: Seq<u8>, top: int)
    requires
        0 <= top,
        s.len() <= u32::MAX,
    ensures
        total_u32(tallies(s, top)) == s.len(),
        forall|b: int| 0 <= b <= top ==> 0 <= #[trigger] tally(s, b, top) <= s.len(),
    decreases s.len(),
{
    if s.len() == 0 {
        lemma_total_u32_zeros(tallies(s, top));
    } else {
        let before = s.drop_last();
        lemma_histogram(before, top);
        let bin: int = bin_of(s.last(), top);
        assert forall|b: int| 0 <= b <= top implies 0 <= #[trigger] tally(s, b, top) <= s.len() by {
            assert(tally(before, b, top) <= before.len());
        }
        let old_counts = tallies(before, top);
        lemma_total_u32_update(old_counts, bin, (old_counts[bin] + 1) as u32);
        assert(tallies(s, top) =~= old_counts.update(bin, (old_counts[bin] + 1) as u32));
    }
}

/// Determinism: the state after a sequence of calls is a function of the
/// state before and of the calls. Two simulations that start equal and see
/// the same calls end equal, generator and log included.
pub proof fn lemma_deterministic(a: SimView, b: SimView, events: Seq<Event>)
    requires
        a == b,
    ensures
        a.run(events) == b.run(events),
{
}

/// Every state that a fresh simulation reaches is valid.
pub proof fn lemma_fresh_run(n: nat, seed: u32, events: Seq<Event>)
    requires
        pair_count(n as int) <= u32::MAX,
    ensures
        SimView::initial(n, seed).run(events).wf(),
        SimView::initial(n, seed).run(events).n == n,
{
    lemma_initial_valid(n, seed);
    lemma_run(SimView::initial(n, seed), events);
}

/// A zero seed starts the same simulation as the seed 1.
pub proof fn lemma_zero_seed(n: nat)
    ensures
        SimView::initial(n, 0) == SimView::initial(n, 1),
{
}

/// Number of steps begun among `events`.
pub open spec fn begins(events: Seq<Event>) -> nat
    decreases events.len(),
{
    if events.len() == 0 {
        0
    } else {
        begins(events.drop_last()) + (if events.last() is Begin { 1nat } else { 0nat })
    }
}

/// One more call in order extends an orderly sequence.
pub proof fn lemma_orderly_push(v: SimView, events: Seq<Event>, e: Event)
    requires
        v.orderly(events),
        v.run(events).expects(e),
    ensures
        v.orderly(events.push(e)),
        begins(events.push(e)) == begins(events) + (if e is Begin { 1nat } else { 0nat }),
        v.run(events.push(e)) == v.run(events).after(e),
{
    lemma_run_push(v, events, e);
    assert(events.push(e).drop_last() =~= events);
}

/// Orderly sequences follow one another, and their steps add up.
pub proof fn lemma_orderly_concat(v: SimView, first: Seq<Event>, second: Seq<Event>)
    requires
        v.orderly(first),
        v.run(first).orderly(second),
    ensures
        v.orderly(first + second),
        begins(first + second) == begins(first) + begins(second),
        v.run(first + second) == v.run(first).run(second),
    decreases second.len(),
{
    lemma_run_concat(v, first, second);
    if second.len() == 0 {
        assert(first + second =~= first);
    } else {
        lemma_orderly_concat(v, first, second.drop_last());
        lemma_run_concat(v, first, second.drop_last());
        assert((first + second).drop_last() =~= first + second.drop_last());
        assert((first + second).last() == second.last());
    }
}

/// No call leaves the state as it is.
pub proof fn lemma_run_empty(v: SimView)
    ensures
        v.run(Seq::empty()) == v,
{
    reveal_with_fuel(SimView::run, 1);
}

/// One more call extends a run by one event.
pub proof fn lemma_run_push(v: SimView, events: Seq<Event>, e: Event)
    ensures
        v.run(events.push(e)) == v.run(events).after(e),
{
    reveal_with_fuel(SimView::run, 1);
    assert(events.push(e).drop_last() =~= events);
}

/// What each call does to the state.
pub proof fn lemma_after(v: SimView)
    ensures
        v.after(Event::Begin) == v.begin_step().0,
        forall|near: Seq<bool>| #[trigger] v.after(Event::Pairs(near)) == v.supply_pairs(near).0,
        forall|verdict: Verdict| #[trigger]
            v.after(Event::Judge(verdict)) == v.resolve(verdict).0,
        forall|u: ParamUpdate, t: TablesView| #[trigger]
            v.after(Event::Configure(u, t)) == v.configured(u, t),
        forall|target: Target, mode: Mode, region: Region, cut: u32, seed: Option<u32>|
            #[trigger] v.after(Event::Perturb(target, mode, region, cut, seed)) == v.perturbed(
                target,
                mode,
                region,
                cut,
                seed,
            ),
        v.after(Event::ClearLog) == (SimView { log: Seq::empty(), log_overflowed: false, ..v }),
{
    reveal(SimView::after);
}

/// Running two sequences one after the other is running their concatenation.
pub proof fn lemma_run_concat(v: SimView, first: Seq<Event>, second: Seq<Event>)
    ensures
        v.run(first + second) == v.run(first).run(second),
    decreases second.len(),
{
    reveal_with_fuel(SimView::run, 1);
    if second.len() == 0 {
        assert(first + second =~= first);
    } else {
        lemma_run_concat(v, first, second.drop_last());
        assert((first + second).drop_last() =~= first + second.drop_last());
        assert((first + second).last() == second.last());
    }
}

/// The reservoir only ever holds a marked entry it has passed, counts the
/// marked entries exactly, and holds none only while none was marked.
pub proof fn lemma_reservoir_sound(near: Seq<bool>, rng: u32, k: nat)
    ensures
        reservoir(near, rng, k).count <= k,
        reservoir(near, rng, k).chosen matches Some(c) ==> 0 <= c < k && c < near.len() && near[c],
        reservoir(near, rng, k).chosen is None <==> reservoir(near, rng, k).count == 0,
        reservoir(near, rng, k).count == 0 <==> forall|i: int|
            0 <= i < k && i < near.len() ==> !near[i],
    decreases k,
{
    if k > 0 {
        lemma_reservoir_sound(near, rng, (k - 1) as nat);
        let before = reservoir(near, rng, (k - 1) as nat);
        let idx: int = k - 1;
        if idx < near.len() && near[idx] {
            let r: u32 = crate::rng::xorshift(before.rng);
            crate::rng::lemma_unit_bound(r);
            if before.count == 0 {
                assert(crate::rng::unit_of(r) * 1 < crate::rng::UNIT);
            }
        }
    }
}

/// The packed word of a log record gives back its kind and its three tags.
pub proof fn lemma_pack_tags(kind: u8, a: u8, b: u8, c: u8)
    ensures
        pack_tags(kind, a, b, c) & 0xff == kind,
        (pack_tags(kind, a, b, c) >> 8) & 0xff == a,
        (pack_tags(kind, a, b, c) >> 16) & 0xff == b,
        (pack_tags(kind, a, b, c) >> 24) & 0xff == c,
{
    let k: u32 = kind as u32;
    let x: u32 = a as u32;
    let y: u32 = b as u32;
    let z: u32 = c as u32;
    assert((k | (x << 8) | (y << 16) | (z << 24)) & 0xff == k && ((k | (x << 8) | (y << 16) | (z
        << 24)) >> 8) & 0xff == x && ((k | (x << 8) | (y << 16) | (z << 24)) >> 16) & 0xff == y
        && ((k | (x << 8) | (y << 16) | (z << 24)) >> 24) & 0xff == z) by (bit_vector)
        requires
            k < 256,
            x < 256,
            y < 256,
            z < 256,
    ;
}

/// Gated records: with the clock on and gating by quadrant, and with the
/// log masked to writes of the tower's field, a verdict adds at most one
/// record to the log; that record is of such a write, in a cell of the grid
/// whose quadrant is the clock state modulo 4 at the moment the write is
/// accepted, and the verdict leaves the clock as it is.
pub proof fn lemma_gated_record(v: SimView, verdict: Verdict)
    requires
        v.wf(),
        v.pending is Judge,
        v.params.clock_on,
        v.params.repair_clock_gated,
        v.params.repair_gate_mode == 0,
        v.params.accept_log_mask == 0x100,
    ensures
        ({
            let s = v.resolve(verdict).0;
            ||| s.log == v.log
            ||| {
                let record = s.log.last();
                &&& s.log == v.log.push(record)
                &&& s.clock == v.clock
                &&& record.step == v.step_count
                &&& record.tags & 0xff == MOVE_P5_META
                &&& record.subject < v.cells()
                &&& quadrant(record.subject as int, v.params.grid_size as int) == v.clock.state
                    % 4
            }
        }),
{
    lemma_judge_event(v, verdict);
    lemma_cells_bound(v.params);
    let p = v.pending->Judge_0;
    let idle = SimView { pending: Phase::Idle, ..v };
    let r: u32 = xorshift(v.rng);
    let s = if verdict.free { idle } else { idle.with_rng(r) };
    assert(0x100u32 & (1u32 << 7u32) == 0) by (bit_vector);
    assert(0x100u32 & (1u32 << 9u32) == 0) by (bit_vector);
    if verdict.free || unit_of(r) < verdict.cut {
        lemma_committed(s, p, verdict);
        let c = s.committed(p, verdict);
        lemma_finished(c, StepDiag::of(p), true, p.delta());
        match p {
            Proposal::FieldMeta { layer, cell, from, to, mismatch, dir } => {
                lemma_pack_tags(MOVE_P5_META, layer as u8, mismatch, dir);
            },
            _ => {},
        }
    } else {
        lemma_finished(s, StepDiag::none(), false, 0);
    }
}

/// The calls of an orderly sequence up to any place are orderly, and the
/// call at that place is the one awaited there.
pub proof fn lemma_orderly_prefix(v: SimView, events: Seq<Event>, i: int)
    requires
        v.orderly(events),
        0 <= i <= events.len(),
    ensures
        v.orderly(events.take(i)),
        i < events.len() ==> v.run(events.take(i)).expects(events[i]) && v.run(
            events.take(i + 1),
        ) == v.run(events.take(i)).after(events[i]),
    decreases events.len() - i,
{
    if i == events.len() {
        assert(events.take(i) =~= events);
    } else {
        lemma_orderly_prefix(v, events, i + 1);
        assert(events.take(i + 1).drop_last() =~= events.take(i));
        assert(events.take(i + 1).last() == events[i]);
        lemma_run_push(v, events.take(i), events[i]);
        assert(events.take(i).push(events[i]) =~= events.take(i + 1));
    }
}

/// Gated records over a run: with the clock on and gating by quadrant, and
/// with the log masked to writes of the tower's field, every call of a run
/// of steps adds at most one record to the log, and a record that is added
/// is of such a write, in a cell whose quadrant is the clock state modulo 4
/// as the call finds it and leaves it.
pub proof fn lemma_gated_run(v: SimView, events: Seq<Event>, i: int)
    requires
        v.wf(),
        v.orderly(events),
        0 <= i < events.len(),
        v.params.clock_on,
        v.params.repair_clock_gated,
        v.params.repair_gate_mode == 0,
        v.params.accept_log_mask == 0x100,
    ensures
        ({
            let before = v.run(events.take(i));
            let after = v.run(events.take(i + 1));
            ||| after.log == before.log
            ||| {
                let record = after.log.last();
                &&& after.log == before.log.push(record)
                &&& after.clock == before.clock
                &&& record.tags & 0xff == MOVE_P5_META
                &&& record.subject < v.cells()
                &&& quadrant(record.subject as int, v.params.grid_size as int)
                    == before.clock.state % 4
            }
        }),
{
    lemma_orderly_prefix(v, events, i);
    lemma_steps(v, events.take(i));
    let before = v.run(events.take(i));
    lemma_step_event(before, events[i]);
    lemma_after(before);
    match events[i] {
        Event::Judge(verdict) => lemma_gated_record(before, verdict),
        _ => {},
    }
}

/// Clock ticks: while neither tick count has reached its ceiling, a tick
/// that is taken moves the clock one state forward or backward around its
/// ring and raises the matching count and the net count together; a tick
/// that is refused leaves the clock as it is; a free tick is always taken;
/// and either way no scalar, no weight of the prediction kernel and no
/// record of the log changes but what code noise writes to the tower's field.
pub proof fn lemma_tick(v: SimView, verdict: Verdict, up: bool)
    requires
        v.wf(),
        v.pending == Phase::Judge(Proposal::Clock { up }),
        v.clock.fwd < i64::MAX,
        v.clock.bwd < i64::MAX,
    ensures
        ({
            let s = v.resolve(verdict).0;
            let k: int = v.params.clock_k as int;
            let taken: bool = verdict.free || unit_of(xorshift(v.rng)) < verdict.cut;
            &&& v.resolve(verdict).1 matches Request::Done(o) && o.accepted == taken && o.delta
                == 0
            &&& s.clock.state < k
            &&& s.clock.net == s.clock.fwd - s.clock.bwd
            &&& (!taken ==> s.clock == v.clock)
            &&& (taken && up ==> s.clock.state == (v.clock.state + 1) % k && s.clock.fwd
                == v.clock.fwd + 1 && s.clock.bwd == v.clock.bwd && s.clock.net == v.clock.net
                + 1)
            &&& (taken && !up ==> s.clock.state == (v.clock.state + k - 1) % k && s.clock.bwd
                == v.clock.bwd + 1 && s.clock.fwd == v.clock.fwd && s.clock.net == v.clock.net
                - 1)
            &&& s.w == v.w
            &&& s.counters == v.counters
            &&& s.apparatus == v.apparatus
            &&& s.field == v.field
            &&& s.meta_counters == v.meta_counters
            &&& s.meta_apparatus == v.meta_apparatus
            &&& s.meta_bonds == v.meta_bonds
            &&& s.budget == v.budget
            &&& s.log == v.log
        }),
{
    lemma_judge_event(v, verdict);
    let k: int = v.params.clock_k as int;
    let c0: int = v.clock.state as int;
    if c0 + 1 == k {
        lemma_fundamental_div_mod_converse(c0 + 1, k, 1, 0);
    } else {
        lemma_fundamental_div_mod_converse(c0 + 1, k, 0, c0 + 1);
    }
    if c0 == 0 {
        lemma_fundamental_div_mod_converse(c0 + k - 1, k, 0, k - 1);
    } else {
        lemma_fundamental_div_mod_converse(c0 + k - 1, k, 1, c0 - 1);
    }
    let p = Proposal::Clock { up };
    let idle = SimView { pending: Phase::Idle, ..v };
    let r: u32 = xorshift(v.rng);
    let s = if verdict.free { idle } else { idle.with_rng(r) };
    if verdict.free || unit_of(r) < verdict.cut {
        lemma_committed(s, p, verdict);
        let c = s.committed(p, verdict);
        lemma_finished(c, StepDiag::of(p), true, p.delta());
    } else {
        lemma_finished(s, StepDiag::none(), false, 0);
    }
}

/// Gating: a write to a meta layer of the field is proposed only in a cell
/// that the clock leaves open, and in quadrant mode that is a cell whose
/// quadrant is the clock state modulo 4.
pub proof fn lemma_gated_proposal(v: SimView, layer: int)
    requires
        v.wf(),
    ensures
        v.field_meta(layer).1 matches Request::Judge(Proposal::FieldMeta { cell, .. })
            ==> v.field_meta(layer).0.gate_open(cell as int) && (v.params.repair_clock_gated
            && v.params.repair_gate_mode == 0 && v.params.clock_on ==> quadrant(
            cell as int,
            v.params.grid_size as int,
        ) == v.clock.state % 4),
{
    crate::params::lemma_cells_bound(v.params);
    let r1: u32 = crate::rng::xorshift(v.rng);
    let cell: int = r1 as int % v.cells();
    assert(0 <= cell < v.cells());
}

} // verus!
