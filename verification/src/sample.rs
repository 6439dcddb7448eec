//! Randomness source.
//!
//! All randomness the library uses — the exploration draw and the uniform
//! choice among candidates or tied actions — comes through these two
//! wrappers around the thread-local generator that peroxide re-exports.
//! Nothing is assumed about the distribution of the outcomes; the callers
//! state what holds of every possible outcome.

use vstd::prelude::*;

use peroxide::fuga::IndexedRandom;
use peroxide::fuga::Rng;
use peroxide::fuga::ThreadRng;

verus! {

/// Relies on rand's `Rng::random` (re-exported by peroxide) on the
/// thread-local generator: an arbitrary `u64`; nothing is promised of it.
#[verifier::external_body]
pub(crate) fn draw_u64() -> u64 {
    ThreadRng::default().random::<u64>()
}

/// Relies on rand's `IndexedRandom::choose` (re-exported by peroxide):
/// `None` exactly on an empty slice, otherwise some element of the slice.
#[verifier::external_body]
pub(crate) fn pick_uniform(choices: &Vec<usize>) -> (r: Option<usize>)
    ensures
        match r {
            Some(a) => exists|i: int| 0 <= i < choices@.len() && choices@[i] == a,
            None => choices@.len() == 0,
        },
{
    choices.choose(&mut ThreadRng::default()).copied()
}

} // verus!
