//! Randomness for the passes: uniform integers in caller-given inclusive
//! ranges, ratio-weighted coin flips, and in-place shuffles, drawn from the
//! process-wide generator. No seeding or determinism is promised: contracts
//! state only what holds of every outcome.

use vstd::prelude::*;
use crate::ast::Stmt;
use rand::Rng;
use rand::seq::SliceRandom;

verus! {

#[verifier::external_type_specification]
#[verifier::external_body]
pub struct ExThreadRng(rand::rngs::ThreadRng);

/// Relies on rand::thread_rng: a handle to the lazily-initialized
/// process-wide generator.
#[verifier::external_body]
pub(crate) fn fresh_rng() -> rand::rngs::ThreadRng {
    rand::thread_rng()
}

/// Relies on rand::Rng::gen_range on an inclusive range: a uniformly
/// sampled value inside the range, which must be non-empty.
#[verifier::external_body]
pub(crate) fn rand_range_u32(rng: &mut rand::rngs::ThreadRng, lo: u32, hi: u32) -> (r: u32)
    requires
        lo <= hi,
    ensures
        lo <= r <= hi,
{
    rng.gen_range(lo..=hi)
}

/// Relies on rand::Rng::gen_ratio: true with probability num/den, with den
/// positive and num at most den. Nothing can be promised of the outcome.
#[verifier::external_body]
pub(crate) fn rand_ratio(rng: &mut rand::rngs::ThreadRng, num: u32, den: u32) -> bool
    requires
        0 < den,
        num <= den,
{
    rng.gen_ratio(num, den)
}

/// Relies on rand::seq::SliceRandom::shuffle: a Fisher-Yates shuffle that
/// permutes the slice in place by swaps, so the contents as a multiset are
/// unchanged.
#[verifier::external_body]
pub(crate) fn shuffle_stmts(rng: &mut rand::rngs::ThreadRng, v: &mut Vec<Stmt>)
    ensures
        final(v)@.to_multiset() == old(v)@.to_multiset(),
{
    v.shuffle(rng)
}

} // verus!
