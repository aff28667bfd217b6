//! Counting accepted moves.

use vstd::prelude::*;
use crate::state::{DiagTotals, Proposal, StepDiag};

verus! {

impl Proposal {
    /// Computes `delta`.
    pub fn step_delta(&self) -> (d: i8)
        ensures
            d == self.delta(),
    {
        match self {
            Proposal::Bond { from, to, .. } => if *to > *from { 1 } else { -1 },
            Proposal::BondMeta { from, to, .. } => if *to > *from { 1 } else { -1 },
            Proposal::Apparatus { from, to, .. } => if *to > *from { 1 } else { -1 },
            Proposal::ApparatusMeta { from, to, .. } => if *to > *from { 1 } else { -1 },
            Proposal::Counter { from, to, .. } => if *to > *from { 1 } else { -1 },
            Proposal::CounterMeta { from, to, .. } => if *to > *from { 1 } else { -1 },
            Proposal::Field { from, to, .. } => if *to > *from { 1 } else { -1 },
            Proposal::FieldMeta { from, to, .. } => if *to > *from { 1 } else { -1 },
            _ => 0,
        }
    }
}

impl StepDiag {
    /// The contribution of a step in which nothing was taken.
    pub fn empty() -> (s: StepDiag)
        ensures
            s == StepDiag::none(),
    {
        StepDiag {
            w_plus: 0,
            w_minus: 0,
            n_plus: 0,
            n_minus: 0,
            a_plus: 0,
            a_minus: 0,
            s_plus: 0,
            s_minus: 0,
        }
    }

    /// Computes `of`.
    pub fn for_move(p: &Proposal) -> (s: StepDiag)
        ensures
            s == StepDiag::of(*p),
    {
        let d: i8 = p.step_delta();
        let up: u32 = if d > 0 { 1 } else { 0 };
        let down: u32 = if d < 0 { 1 } else { 0 };
        let mut s: StepDiag = StepDiag::empty();
        match p {
            Proposal::Bond { .. } | Proposal::BondMeta { .. } => {
                s.w_plus = up;
                s.w_minus = down;
            },
            Proposal::Apparatus { .. } | Proposal::ApparatusMeta { .. } => {
                s.a_plus = up;
                s.a_minus = down;
            },
            Proposal::Counter { .. } | Proposal::CounterMeta { .. } => {
                s.n_plus = up;
                s.n_minus = down;
            },
            Proposal::Field { .. } | Proposal::FieldMeta { .. } => {
                s.s_plus = up;
                s.s_minus = down;
            },
            _ => {},
        }
        s
    }
}

impl DiagTotals {
    /// All counts at zero.
    pub fn new() -> (d: DiagTotals)
        ensures
            d == DiagTotals::zero(),
    {
        DiagTotals {
            steps: 0,
            w_plus: 0,
            w_minus: 0,
            n_plus: 0,
            n_minus: 0,
            a_plus: 0,
            a_minus: 0,
            s_plus: 0,
            s_minus: 0,
            w_plus_h: 0,
            w_minus_h: 0,
            w_plus_l: 0,
            w_minus_l: 0,
            n_plus_h: 0,
            n_minus_h: 0,
            n_plus_l: 0,
            n_minus_l: 0,
            a_plus_h: 0,
            a_minus_h: 0,
            a_plus_l: 0,
            a_minus_l: 0,
            s_plus_h: 0,
            s_minus_h: 0,
            s_plus_l: 0,
            s_minus_l: 0,
        }
    }

    /// Counts one more step and what it contributed.
    pub fn push(&mut self, step: StepDiag)
        ensures
            *final(self) == old(self).pushed(step),
    {
        self.steps = self.steps.saturating_add(1);
        self.w_plus = self.w_plus.saturating_add(step.w_plus);
        self.w_minus = self.w_minus.saturating_add(step.w_minus);
        self.n_plus = self.n_plus.saturating_add(step.n_plus);
        self.n_minus = self.n_minus.saturating_add(step.n_minus);
        self.a_plus = self.a_plus.saturating_add(step.a_plus);
        self.a_minus = self.a_minus.saturating_add(step.a_minus);
        self.s_plus = self.s_plus.saturating_add(step.s_plus);
        self.s_minus = self.s_minus.saturating_add(step.s_minus);
    }

    /// Counts a taken move in its context.
    pub fn note(&mut self, p: &Proposal, high: bool)
        ensures
            *final(self) == old(self).noted(*p, high),
    {
        let up: bool = p.step_delta() > 0;
        match p {
            Proposal::Bond { .. } | Proposal::BondMeta { .. } => {
                if high {
                    if up {
                        self.w_plus_h = self.w_plus_h.saturating_add(1);
                    } else {
                        self.w_minus_h = self.w_minus_h.saturating_add(1);
                    }
                } else if up {
                    self.w_plus_l = self.w_plus_l.saturating_add(1);
                } else {
                    self.w_minus_l = self.w_minus_l.saturating_add(1);
                }
            },
            Proposal::Apparatus { .. } | Proposal::ApparatusMeta { .. } => {
                if high {
                    if up {
                        self.a_plus_h = self.a_plus_h.saturating_add(1);
                    } else {
                        self.a_minus_h = self.a_minus_h.saturating_add(1);
                    }
                } else if up {
                    self.a_plus_l = self.a_plus_l.saturating_add(1);
                } else {
                    self.a_minus_l = self.a_minus_l.saturating_add(1);
                }
            },
            Proposal::Counter { .. } | Proposal::CounterMeta { .. } => {
                if high {
                    if up {
                        self.n_plus_h = self.n_plus_h.saturating_add(1);
                    } else {
                        self.n_minus_h = self.n_minus_h.saturating_add(1);
                    }
                } else if up {
                    self.n_plus_l = self.n_plus_l.saturating_add(1);
                } else {
                    self.n_minus_l = self.n_minus_l.saturating_add(1);
                }
            },
            Proposal::Field { .. } | Proposal::FieldMeta { .. } => {
                if high {
                    if up {
                        self.s_plus_h = self.s_plus_h.saturating_add(1);
                    } else {
                        self.s_minus_h = self.s_minus_h.saturating_add(1);
                    }
                } else if up {
                    self.s_plus_l = self.s_plus_l.saturating_add(1);
                } else {
                    self.s_minus_l = self.s_minus_l.saturating_add(1);
                }
            },
            _ => {},
        }
    }

    /// Up and down counts of bonds, counters, apparatus and field, in that
    /// order, then the number of steps.
    pub fn counts(&self) -> (c: (u32, u32, u32, u32, u32, u32, u32, u32, u32))
        ensures
            c == (
                self.w_plus,
                self.w_minus,
                self.n_plus,
                self.n_minus,
                self.a_plus,
                self.a_minus,
                self.s_plus,
                self.s_minus,
                self.steps,
            ),
    {
        (
            self.w_plus,
            self.w_minus,
            self.n_plus,
            self.n_minus,
            self.a_plus,
            self.a_minus,
            self.s_plus,
            self.s_minus,
            self.steps,
        )
    }

    /// For bonds, counters, apparatus and field in that order: up and down
    /// counts in the high context, then in the low context.
    pub fn counts_hl(&self) -> (c: [u32; 16])
        ensures
            c@ == seq![
                self.w_plus_h,
                self.w_minus_h,
                self.w_plus_l,
                self.w_minus_l,
                self.n_plus_h,
                self.n_minus_h,
                self.n_plus_l,
                self.n_minus_l,
                self.a_plus_h,
                self.a_minus_h,
                self.a_plus_l,
                self.a_minus_l,
                self.s_plus_h,
                self.s_minus_h,
                self.s_plus_l,
                self.s_minus_l,
            ],
    {
        [
            self.w_plus_h,
            self.w_minus_h,
            self.w_plus_l,
            self.w_minus_l,
            self.n_plus_h,
            self.n_minus_h,
            self.n_plus_l,
            self.n_minus_l,
            self.a_plus_h,
            self.a_minus_h,
            self.a_plus_l,
            self.a_minus_l,
            self.s_plus_h,
            self.s_minus_h,
            self.s_plus_l,
            self.s_minus_l,
        ]
    }
}

} // verus!
