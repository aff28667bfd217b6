//! The 32-bit xorshift stream that every stochastic decision draws from.
//!
//! A draw is the generator's new state. Uniform variates are the 24 high bits
//! of a draw, read as the numerator of a fraction over `UNIT`, so that every
//! comparison against a probability is an exact integer comparison.

use vstd::prelude::*;

verus! {

/// Denominator of a uniform variate: 2^24.
pub const UNIT: u32 = 0x0100_0000;

/// The variate that stands for one half.
pub const HALF: u32 = 0x0080_0000;

/// One turn of the generator: shift-and-xor by 13 left, 17 right, 5 left.
pub open spec fn xorshift(x: u32) -> u32 {
    let a: u32 = x ^ (x << 13);
    let b: u32 = a ^ (a >> 17);
    b ^ (b << 5)
}

/// The uniform variate carried by a draw: its 24 high bits.
pub open spec fn unit_of(x: u32) -> u32 {
    x >> 8
}

/// The generator's state after `k` draws from state `x`.
pub open spec fn stream(x: u32, k: nat) -> u32
    decreases k,
{
    if k == 0 {
        x
    } else {
        xorshift(stream(x, (k - 1) as nat))
    }
}

/// The state a stream starts from: a zero seed, which the recurrence would
/// never leave, is read as 1.
pub open spec fn seeded(seed: u32) -> u32 {
    if seed == 0 {
        1
    } else {
        seed
    }
}

/// A variate is always below `UNIT`.
pub proof fn lemma_unit_bound(x: u32)
    ensures
        unit_of(x) < UNIT,
{
    assert(x >> 8 < 0x0100_0000u32) by (bit_vector);
}

/// The generator: its state is the last draw.
#[derive(Clone, Copy, Debug)]
pub struct Xorshift32 {
    pub(crate) state: u32,
}

impl View for Xorshift32 {
    type V = u32;

    open(crate) spec fn view(&self) -> u32 {
        self.state
    }
}

impl Xorshift32 {
    /// Starts a stream from `seeded(seed)`.
    pub fn new(seed: u32) -> (g: Self)
        ensures
            g@ == seeded(seed),
    {
        Xorshift32 { state: if seed == 0 { 1 } else { seed } }
    }

    /// Resumes a stream at exactly `state`, zero included.
    pub fn resume(state: u32) -> (g: Self)
        ensures
            g@ == state,
    {
        Xorshift32 { state }
    }

    /// The current state.
    pub fn state(&self) -> (s: u32)
        ensures
            s == self@,
    {
        self.state
    }

    /// Advances the stream and returns the new state as the draw.
    pub fn next_u32(&mut self) -> (r: u32)
        ensures
            r == xorshift(old(self)@),
            final(self)@ == r,
    {
        let mut x: u32 = self.state;
        x = x ^ (x << 13);
        x = x ^ (x >> 17);
        x = x ^ (x << 5);
        self.state = x;
        x
    }

    /// Advances the stream and returns the draw's uniform variate.
    pub fn next_unit(&mut self) -> (r: u32)
        ensures
            final(self)@ == xorshift(old(self)@),
            r == unit_of(final(self)@),
            r < UNIT,
    {
        let x: u32 = self.next_u32();
        proof {
            lemma_unit_bound(x);
        }
        x >> 8
    }

    /// Advances the stream and reduces the draw modulo `m`.
    pub fn below(&mut self, m: usize) -> (r: usize)
        requires
            m > 0,
        ensures
            final(self)@ == xorshift(old(self)@),
            r == final(self)@ as int % m as int,
            r < m,
    {
        let x: u32 = self.next_u32();
        (x as u64 % m as u64) as usize
    }
}

} // verus!
