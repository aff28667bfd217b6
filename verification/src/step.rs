//! The executable engine: one step, split where the host must answer.

use vstd::prelude::*;
use crate::state::{Outcome, Request, Sim, SimView, StepDiag};

verus! {

impl SimView {
    /// The invariant holds, no request is open, and in protocol mode the
    /// cycle has the length the rates call for.
    pub open spec fn live(self) -> bool {
        &&& self.wf()
        &&& self.pending is Idle
        &&& self.cycle_fits()
    }
}

impl Sim {
    /// In protocol mode, records the sums under the current phase and moves on.
    fn cycle_advance(&mut self) -> (closed: bool)
        requires
            old(self)@.live(),
            old(self)@.params.p3_on,
        ensures
            (final(self)@, closed) == old(self)@.cycle_advanced(),
            final(self)@.live(),
            final(self)@.anchored(old(self)@),
    {
        let idx: usize = self.phase as usize;
        if idx < self.p3_obs1.len() {
            self.p3_obs1[idx] = self.sum_w;
            self.p3_obs2[idx] = self.sum_s;
        }
        let len: u8 = self.cycle_due();
        if self.phase + 1 >= len {
            self.phase = 0;
            true
        } else {
            self.phase = self.phase + 1;
            false
        }
    }

    /// Length of the protocol cycle under the current rates.
    pub fn cycle_due(&self) -> (len: u8)
        ensures
            len == self@.params.rates.cycle_len(),
            1 <= len <= 5,
    {
        let r = self.params.rates;
        let mut len: u8 = 1;
        if r.bond_on {
            len = len + 1;
        }
        if r.apparatus_on {
            len = len + 1;
        }
        if r.counter_on {
            len = len + 1;
        }
        if r.field_on {
            len = len + 1;
        }
        len
    }

    /// Code noise at the end of a step.
    fn maybe_code_noise(&mut self)
        requires
            old(self)@.live(),
        ensures
            final(self)@ == old(self)@.code_noise(),
            final(self)@.live(),
            final(self)@.anchored(old(self)@),
    {
        if self.params.code_noise_cut == 0 || self.params.meta_layers == 0 {
            return ;
        }
        let u: u32 = self.rng.next_unit();
        if u >= self.params.code_noise_cut {
            return ;
        }
        let layers: usize = self.params.meta_layers as usize;
        let layer: usize = self.params.code_noise_layer as usize;
        if layer >= layers {
            return ;
        }
        let cells: usize = self.cells();
        let base: usize = self.layer_base(layer, cells);
        let top: usize = self.params.l_s as usize + 1;
        let batch: usize = self.params.code_noise_batch as usize;
        let ghost start = self@;
        let mut i: usize = 0;
        while i < batch
            invariant
                i <= batch,
                start.live(),
                self@.live(),
                self@ == start.noise_batch(i as nat),
                self@.anchored(start),
                start.cells() == cells,
                0 < cells,
                base == start.params.code_noise_layer * cells,
                base + cells <= start.layers() * cells,
                base + cells <= 0x20_0000,
                top == start.params.l_s + 1,
            decreases batch - i,
        {
            let cell: usize = self.rng.below(cells);
            let val: usize = self.rng.below(top);
            self.meta_field[base + cell] = val as u8;
            i = i + 1;
        }
    }

    /// Cells of one grid layer.
    pub(crate) fn cells(&self) -> (c: usize)
        requires
            self@.params.wf(),
        ensures
            c == self@.cells(),
            4 <= c <= 0x1_0000,
    {
        let g: usize = self.params.grid_size as usize;
        assert(4 <= g * g <= 256 * 256) by (nonlinear_arith)
            requires
                2 <= g <= 256,
        ;
        g * g
    }

    /// Offset of a layer in an array of `stride` entries per layer.
    pub(crate) fn layer_base(&self, layer: usize, stride: usize) -> (base: usize)
        requires
            self@.params.wf(),
            layer < self@.layers(),
            stride <= 0x2_0000,
        ensures
            base == layer * stride,
            base + stride <= self@.layers() * stride,
            base + stride <= 0x20_0000,
    {
        let ghost layers: int = self@.layers();
        assert(layer * stride + stride <= layers * stride && layers * stride <= 16 * 0x2_0000)
            by (nonlinear_arith)
            requires
                0 <= layer < layers <= 16,
                0 <= stride <= 0x2_0000,
        ;
        layer * stride
    }

    /// Ends the step.
    pub(crate) fn finish(&mut self, step: StepDiag, accepted: bool, delta: i8) -> (r: Request)
        requires
            old(self)@.live(),
        ensures
            (final(self)@, r) == old(self)@.finished(step, accepted, delta),
            final(self)@.live(),
            final(self)@.anchored(old(self)@),
            final(self)@.awaits(r),
    {
        let closed: bool = if self.params.p3_on {
            self.cycle_advance()
        } else {
            false
        };
        self.diag.push(step);
        self.maybe_code_noise();
        Request::Done(Outcome { accepted, delta, cycle_closed: closed })
    }

    /// Ends the step with nothing proposed.
    pub(crate) fn rest(&mut self) -> (r: Request)
        requires
            old(self)@.live(),
        ensures
            (final(self)@, r) == old(self)@.rest(),
            final(self)@.live(),
            final(self)@.anchored(old(self)@),
            final(self)@.awaits(r),
    {
        self.finish(StepDiag::empty(), false, 0)
    }
}

} // verus!
