//! Sources of random draws for the sampling code.
//!
//! Rendering needs a stream of uniform draws.  `Entropy::Seeded` is a linear
//! congruential generator whose every step is specified exactly, so a render
//! driven by it is a pure function of the seed.  `Entropy::External` draws
//! from the `rand` crate's thread-local generator instead; nothing is known of
//! those draws beyond their range.

use vstd::prelude::*;

verus! {

use vstd::arithmetic::div_mod::{
    lemma_add_mod_noop, lemma_fundamental_div_mod_converse, lemma_mod_bound, lemma_small_mod,
};

/// Multiplier of the linear congruential step (Knuth's MMIX constant).
pub const LCG_MUL: u64 = 6364136223846793005;

/// Increment of the linear congruential step (Knuth's MMIX constant).
pub const LCG_INC: u64 = 1442695040888963407;

/// One step of the linear congruential generator, modulo 2^64.
pub open spec fn lcg_next(s: u64) -> u64 {
    ((s * LCG_MUL + LCG_INC) % 18446744073709551616) as u64
}

/// The draw taken from a generator state: the high 32 bits, reduced below `n`.
pub open spec fn draw_below(s: u64, n: u64) -> u64 {
    (((lcg_next(s) >> 32) as int) % (n as int)) as u64
}

/// One step of the generator, computed executably.
pub fn lcg_step(s: u64) -> (r: u64)
    ensures
        r == lcg_next(s),
{
    let m = s.wrapping_mul(LCG_MUL);
    let r = m.wrapping_add(LCG_INC);
    proof {
        let big: int = 18446744073709551616;
        let p: int = (s as int) * (LCG_MUL as int);
        assert(p >= 0) by (nonlinear_arith)
            requires p == (s as int) * (LCG_MUL as int) && s >= 0;
        lemma_mod_bound(p, big);
        lemma_small_mod(LCG_INC as nat, big as nat);
        lemma_add_mod_noop(p, LCG_INC as int, big);
        let v: int = (p % big) + LCG_INC;
        if v > u64::MAX {
            lemma_fundamental_div_mod_converse(v, big, 1, v - big);
        } else {
            lemma_small_mod(v as nat, big as nat);
        }
    }
    r
}

/// Relies on `rand::Rng::gen_range` over `rand::thread_rng`: a draw uniform in
/// `[0, n)`.
#[verifier::external_body]
fn rand_below(n: u64) -> (r: u64)
    requires
        0 < n,
    ensures
        r < n,
{
    rand::Rng::gen_range(&mut rand::thread_rng(), 0..n)
}

/// A stream of uniform draws: either a seeded generator with exactly specified
/// steps, or the `rand` crate's thread-local generator.
pub enum Entropy {
    Seeded { state: u64 },
    External,
}

/// Whether this entropy source is the seeded generator.
pub open spec fn is_seeded(e: Entropy) -> bool {
    e is Seeded
}

/// The state of a seeded entropy source.
pub open spec fn seed_state(e: Entropy) -> u64 {
    e->Seeded_state
}

impl Entropy {
    /// A seeded stream: every draw from it is determined by `seed`.
    pub fn from_seed(seed: u64) -> (r: Entropy)
        ensures
            r == (Entropy::Seeded { state: seed }),
    {
        Entropy::Seeded { state: seed }
    }

    /// A stream backed by the `rand` crate's thread-local generator.
    pub fn external() -> (r: Entropy)
        ensures
            r == Entropy::External,
    {
        Entropy::External
    }

    /// Draw a value in `[0, n)`.  On a seeded stream both the draw and the new
    /// state are exact functions of the old state.
    pub fn next_below(&mut self, n: u64) -> (r: u64)
        requires
            0 < n <= 4294967296,
        ensures
            r < n,
            is_seeded(*old(self)) ==> *final(self) == (Entropy::Seeded {
                state: lcg_next(seed_state(*old(self))),
            }) && r == draw_below(seed_state(*old(self)), n),
            !is_seeded(*old(self)) ==> *final(self) == *old(self),
    {
        match self {
            Entropy::Seeded { state } => {
                let s2 = lcg_step(*state);
                *state = s2;
                let hi = s2 >> 32;
                proof {
                    assert(hi < 4294967296u64) by (bit_vector)
                        requires hi == s2 >> 32;
                    lemma_mod_bound(hi as int, n as int);
                }
                hi % n
            },
            Entropy::External => rand_below(n),
        }
    }

    /// Draw a fixed-point value in `[lo, hi)`.
    pub fn next_in(&mut self, lo: i64, hi: i64) -> (r: i64)
        requires
            lo < hi,
            hi - lo <= 4294967296,
        ensures
            lo <= r < hi,
            is_seeded(*old(self)) ==> *final(self) == (Entropy::Seeded {
                state: lcg_next(seed_state(*old(self))),
            }) && r == lo + draw_below(seed_state(*old(self)), (hi - lo) as u64),
            !is_seeded(*old(self)) ==> *final(self) == *old(self),
    {
        let d = self.next_below((hi - lo) as u64);
        lo + (d as i64)
    }
}

} // verus!
