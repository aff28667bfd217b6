//! Driving the engine: the loop that runs whole steps against a host.

use vstd::prelude::*;
use crate::laws::{
    lemma_after, lemma_orderly_concat, lemma_orderly_push, lemma_run_empty, lemma_steps, Event,
};
use crate::state::{Outcome, Proposal, Request, Sim, Verdict};

verus! {

/// The side of a simulation that works in real arithmetic: particle
/// geometry, energies, and the running entropy totals. The engine asks it
/// for pairs and verdicts and tells it how each step ended. Nothing is
/// assumed of its answers: what the driver guarantees holds for every host.
pub trait Host {
    /// For every pair, in pair order, whether it lies within the proposal radius.
    fn pairs(&mut self, sim: &Sim) -> Vec<bool>;

    /// The verdict on a proposal, judged on the state as it stands.
    fn judge(&mut self, sim: &Sim, p: &Proposal) -> Verdict;

    /// Called once at the end of every step with the proposal that was
    /// judged, if one was, and with the outcome.
    fn settled(&mut self, sim: &Sim, p: Option<Proposal>, o: Outcome);

    /// Called when a protocol cycle starts over, before the step's kernel runs.
    fn cycle_restarted(&mut self, sim: &Sim);
}

impl Sim {
    /// Sees a request through to the end of its step.
    fn answer<H: Host>(&mut self, req: Request, host: &mut H) -> (trace: Ghost<Seq<Event>>)
        requires
            old(self)@.wf(),
            old(self)@.awaits(req),
        ensures
            final(self)@.wf(),
            final(self)@.pending is Idle,
            final(self)@.anchored(old(self)@),
            old(self)@.steps_to(trace@, 0, final(self)@),
    {
        let ghost mut events: Seq<Event> = Seq::empty();
        let mut req: Request = req;
        proof {
            lemma_run_empty(old(self)@);
        }
        if let Request::Pairs = req {
            let near: Vec<bool> = host.pairs(self);
            req = self.supply_pairs(&near);
            proof {
                lemma_after(old(self)@);
                lemma_orderly_push(old(self)@, events, Event::Pairs(near@));
                events = events.push(Event::Pairs(near@));
            }
        }
        match req {
            Request::Judge(p) => {
                let v: Verdict = host.judge(self, &p);
                let ghost before = self@;
                let o: Outcome = self.resolve(v);
                proof {
                    lemma_after(before);
                    assert(self@ == before.after(Event::Judge(v)));
                    lemma_orderly_push(old(self)@, events, Event::Judge(v));
                    events = events.push(Event::Judge(v));
                }
                host.settled(self, Some(p), o);
            },
            Request::Done(o) => {
                host.settled(self, None, o);
            },
            Request::Pairs => {},
        }
        Ghost(events)
    }

    /// Runs one whole step against `host`.
    fn whole_step<H: Host>(&mut self, host: &mut H) -> (trace: Ghost<Seq<Event>>)
        requires
            old(self)@.wf(),
            old(self)@.pending is Idle,
        ensures
            final(self)@.wf(),
            final(self)@.pending is Idle,
            old(self)@.steps_to(trace@, 1, final(self)@),
    {
        let len: u8 = self.p3_cycle_len;
        let req: Request = self.begin_step();
        let ghost begun = self@;
        let ghost first = Seq::<Event>::empty().push(Event::Begin);
        proof {
            lemma_after(old(self)@);
            lemma_run_empty(old(self)@);
            assert(begun == old(self)@.after(Event::Begin));
            lemma_orderly_push(old(self)@, Seq::empty(), Event::Begin);
        }
        if self.p3_cycle_len != len {
            host.cycle_restarted(self);
        }
        let trace = self.answer(req, host);
        proof {
            lemma_orderly_concat(old(self)@, first, trace@);
        }
        Ghost(first + trace@)
    }

    /// Runs `steps` steps against `host`: each is begun, the host is asked
    /// for the pairs within reach where the bond kernel needs them and for a
    /// verdict where a move is proposed, and the step is ended. A request
    /// left open by an earlier call is seen through first.
    ///
    /// The state reached is the one that these calls lead to, in this order
    /// and with the host's answers. Whatever the answers, it is valid, no
    /// request is open, the configuration and the particle count are as
    /// before, the log has at most grown, the step count has grown by
    /// `steps` modulo 2^32, and the steps counted have grown by the steps
    /// ended, up to the ceiling of the count.
    pub fn step<H: Host>(&mut self, steps: u32, host: &mut H)
        requires
            old(self)@.wf(),
        ensures
            final(self)@.stepped_from(old(self)@, steps as nat),
            final(self)@.wf(),
            final(self)@.pending is Idle,
            final(self)@.n == old(self)@.n,
            final(self)@.params == old(self)@.params,
            final(self)@.log_extends(old(self)@),
            final(self)@.step_count == (old(self)@.step_count + steps) % 0x1_0000_0000,
            final(self)@.diag.steps == (if old(self)@.diag.steps + steps + old(self)@.open_steps()
                > u32::MAX {
                u32::MAX as int
            } else {
                old(self)@.diag.steps + steps + old(self)@.open_steps()
            }),
    {
        let open: Request = match self.pending {
            crate::state::Phase::Idle => Request::Done(
                Outcome { accepted: false, delta: 0, cycle_closed: false },
            ),
            crate::state::Phase::Pairs => Request::Pairs,
            crate::state::Phase::Judge(p) => Request::Judge(p),
        };
        let ghost first = old(self)@;
        let ghost mut events: Seq<Event> = Seq::empty();
        proof {
            lemma_run_empty(first);
        }
        if !matches!(open, Request::Done(_)) {
            let trace = self.answer(open, host);
            proof {
                events = trace@;
            }
        }
        let mut i: u32 = 0;
        while i < steps
            invariant
                i <= steps,
                self@.wf(),
                self@.pending is Idle,
                first.steps_to(events, i as nat, self@),
            decreases steps - i,
        {
            let ghost before = self@;
            let trace = self.whole_step(host);
            proof {
                assert(first.run(events) == before);
                lemma_orderly_concat(first, events, trace@);
                events = events + trace@;
            }
            i = i + 1;
        }
        proof {
            assert(first.steps_to(events, steps as nat, self@));
            lemma_steps(first, events);
        }
    }
}

} // verus!
