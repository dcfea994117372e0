//! The random source threaded through every evolutionary operation.

use vstd::prelude::*;

verus! {

#[verifier::external_type_specification]
#[verifier::external_body]
pub struct ExStdRng(rand::rngs::StdRng);

/// Relies on rand's `SeedableRng::seed_from_u64` for `StdRng`: builds a
/// generator from the seed; nothing is promised of the values it yields.
#[verifier::external_body]
fn stdrng_from_seed(seed: u64) -> rand::rngs::StdRng {
    <rand::rngs::StdRng as rand::SeedableRng>::seed_from_u64(seed)
}

/// Relies on rand's `SeedableRng::from_entropy` for `StdRng`: builds a
/// generator seeded by the operating system. The call panics if the
/// system's entropy source fails — an environmental failure no
/// precondition can exclude, named here so a caller knows.
#[verifier::external_body]
fn stdrng_from_entropy() -> rand::rngs::StdRng {
    <rand::rngs::StdRng as rand::SeedableRng>::from_entropy()
}

/// Relies on rand's `Rng::gen_range` over `0..n`: it panics on an empty
/// range (ruled out here) and otherwise returns a value of the range.
#[verifier::external_body]
fn stdrng_below(rng: &mut rand::rngs::StdRng, n: u64) -> (r: u64)
    requires
        n >= 1,
    ensures
        r < n,
{
    rand::Rng::gen_range(rng, 0..n)
}

/// Where the evolutionary operators get their randomness.
///
/// A `Device` source draws from a real generator (freshly seeded or from
/// a fixed seed); a `Script` source replays a fixed list of values, so a
/// caller can force a deterministic sequence of decisions.
pub enum RandomSource {
    Device { rng: rand::rngs::StdRng },
    Script { vals: Vec<u64>, cursor: usize },
}

impl RandomSource {
    /// A generator with a fixed seed: one run repeats another with the
    /// same seed, but single values are not predicted.
    pub fn seeded(seed: u64) -> (s: RandomSource)
        ensures
            s is Device,
    {
        RandomSource::Device { rng: stdrng_from_seed(seed) }
    }

    /// A generator seeded from the operating system.
    pub fn from_entropy() -> (s: RandomSource)
        ensures
            s is Device,
    {
        RandomSource::Device { rng: stdrng_from_entropy() }
    }

    /// A deterministic source that replays `vals` and then yields zero.
    pub fn scripted(vals: Vec<u64>) -> (s: RandomSource)
        ensures
            s matches RandomSource::Script { vals: v, cursor: c } && v@ == vals@ && c == 0,
    {
        RandomSource::Script { vals, cursor: 0 }
    }

    /// Returns a value below `n`: from the generator for a device
    /// source, and from the script (reduced modulo `n`, with zero past
    /// the script's end) for a scripted one.
    pub fn below(&mut self, n: u64) -> (r: u64)
        requires
            n >= 1,
        ensures
            r < n,
            (*old(self)) matches RandomSource::Script { vals, cursor } ==> r == (if cursor
                < vals@.len() {
                vals@[cursor as int] % n
            } else {
                0u64
            }),
            (*old(self)) matches RandomSource::Script { vals, cursor }
                ==> (*final(self)) matches RandomSource::Script { vals: v2, cursor: c2 } && v2@
                == vals@ && c2 == (
            if cursor < vals@.len() {
                cursor + 1
            } else {
                cursor as int
            }),
    {
        match self {
            RandomSource::Device { rng } => stdrng_below(rng, n),
            RandomSource::Script { vals, cursor } => {
                let i = *cursor;
                if i < vals.len() {
                    *cursor = i + 1;
                    vals[i] % n
                } else {
                    0
                }
            },
        }
    }
}

} // verus!
