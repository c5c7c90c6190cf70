//! Deterministic pseudo-random sampler.
//!
//! Every Monte-Carlo draw of the renderer comes from this small linear
//! congruential generator, so that a render is a pure function of the
//! seed handed to it: re-running the same sample loop with the same seed
//! sequence reproduces the same pixels bit for bit, as the sampling
//! design requires.  The whole generator is specified exactly; nothing
//! about its output is left open.
use crate::fx::{tdiv, SCALE};
use vstd::prelude::*;

verus! {

/// Multiplier of the linear congruential step (Knuth's MMIX constant).
pub const STEP_MUL: u64 = 6364136223846793005;

/// Increment of the linear congruential step.
pub const STEP_INC: u64 = 1442695040888963407;

/// One step of the generator: a linear congruential map modulo `2^64`.
pub open spec fn next_state_s(s: u64) -> u64 {
    (((s as int) * (STEP_MUL as int) + STEP_INC) % 0x1_0000_0000_0000_0000) as u64
}

/// The fixed-point fraction in `[0, SCALE)` drawn after one step: the
/// top sixteen bits of the new state.
pub open spec fn unit_from(s: u64) -> int {
    next_state_s(s) as int / 0x1_0000_0000_0000
}

/// The draw in `[lo, hi)` derived from the unit fraction.
pub open spec fn range_from(s: u64, lo: int, hi: int) -> int {
    lo + tdiv(unit_from(s) * (hi - lo), SCALE as int)
}

/// A pseudo-random sampler: the state of a linear congruential generator.
#[derive(Clone, Copy, Debug, PartialEq, Eq, Structural)]
pub struct Rng {
    pub state: u64,
}

/// Relies on fastrand::u64 over the full range: a draw from the
/// process-wide entropy-seeded generator.  Nothing is assumed about
/// which value comes back.
#[verifier::external_body]
fn entropy_seed() -> u64 {
    fastrand::u64(..)
}

impl Rng {
    /// A sampler that will replay the draw sequence of `seed` exactly.
    pub fn with_seed(seed: u64) -> (r: Rng)
        ensures
            r.state == seed,
    {
        Rng { state: seed }
    }

    /// A sampler seeded from the process-wide entropy source; draws from
    /// it are reproducible only through the seed it happened to get.
    pub fn from_entropy() -> Rng {
        Rng { state: entropy_seed() }
    }

    /// Advance the generator and return a fixed-point fraction in
    /// `[0, SCALE)`, that is, a sample of the unit interval.
    pub fn next_unit(&mut self) -> (r: i64)
        ensures
            final(self).state == next_state_s(old(self).state),
            r == unit_from(old(self).state),
            0 <= r < SCALE,
    {
        proof {
            assert((self.state as int) * (STEP_MUL as int) + (STEP_INC as int) < u128::MAX)
                by (nonlinear_arith)
                requires
                    self.state as int <= u64::MAX,
            ;
        }
        let t: u128 = (self.state as u128) * 6364136223846793005u128 + 1442695040888963407u128;
        let ns: u64 = (t % 0x1_0000_0000_0000_0000u128) as u64;
        self.state = ns;
        proof {
            assert(0 <= (ns as int) / 0x1_0000_0000_0000 < SCALE as int) by (nonlinear_arith)
                requires
                    0 <= (ns as int) < 0x1_0000_0000_0000_0000,
            ;
        }
        (ns / 0x1_0000_0000_0000u64) as i64
    }

    /// Advance the generator and return a fixed-point scalar in
    /// `[lo, hi)`.
    pub fn in_range(&mut self, lo: i64, hi: i64) -> (r: i64)
        requires
            lo < hi,
            -(SCALE as int) * (SCALE as int) <= lo,
            hi <= (SCALE as int) * (SCALE as int),
        ensures
            final(self).state == next_state_s(old(self).state),
            r == range_from(old(self).state, lo as int, hi as int),
            lo <= r < hi,
    {
        let u: i64 = self.next_unit();
        proof {
            assert((SCALE as int) * (SCALE as int) == 0x1_0000_0000) by (nonlinear_arith);
            let d = hi as int - lo as int;
            assert(-(i128::MAX as int) <= (u as int) * (d as int) <= i128::MAX)
                by (nonlinear_arith)
                requires
                    0 <= (u as int) <= SCALE as int,
                    0 <= d <= 0x2_0000_0000,
            ;
            vstd::arithmetic::div_mod::lemma_div_pos_is_pos(u as int * d, SCALE as int);
            assert(u as int * d <= d * (SCALE as int) - 1 && 0 <= u as int * d)
                by (nonlinear_arith)
                requires
                    0 <= (u as int) <= (SCALE as int) - 1,
                    d >= 1,
            ;
            vstd::arithmetic::div_mod::lemma_div_is_ordered(
                u as int * d,
                d * (SCALE as int) - 1,
                SCALE as int,
            );
            vstd::arithmetic::div_mod::lemma_fundamental_div_mod_converse_div(
                d * (SCALE as int) - 1,
                SCALE as int,
                d - 1,
                (SCALE as int) - 1,
            );
        }
        let span: i64 = hi - lo;
        let off: i64 = crate::fx::rescale((u as i128) * (span as i128));
        lo + off
    }
}

} // verus!
