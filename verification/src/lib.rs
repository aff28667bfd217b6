//! The discrete engine of a Metropolis sampler over particles, bonds,
//! counters and a layered grid field.
//!
//! The engine owns everything that is an integer: the generator, the bond
//! weights, counters, apparatus values, the field and its meta tower, the
//! prediction kernel, the clock, the counts and the acceptance log. It draws,
//! picks kernels and subjects, enforces bounds, and carries out accepted
//! moves. What needs real arithmetic stays with a host: where the particles
//! are, what a move costs, how much entropy it produces. The two meet in
//! three places. The engine asks which pairs are within reach, it asks for a
//! verdict on a proposal, and it takes probabilities as cuts: a variate out
//! of 2^24 passes a probability exactly when it is below the cut.
//!
//! A step is a transition function on the mathematical state (`engine`),
//! which the executable code is proved to compute (`kernels`, `judge`,
//! `step`). The invariant of the state (`state`) is proved to hold after
//! every sequence of calls, whatever a host answers (`preserve`, `laws`).

pub mod configure;
pub mod diag;
pub mod engine;
pub mod grid;
pub mod host;
pub mod index;
pub mod judge;
pub mod kernels;
pub mod laws;
pub mod params;
pub mod perturb;
pub mod preserve;
pub mod report;
pub mod rng;
pub mod sampling;
pub mod setup;
pub mod single;
pub mod state;
pub mod step;
pub mod sums;
