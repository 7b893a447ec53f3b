//! The random draws that the genetic operators make.
//!
//! Nothing here is proved: each function hands a call on to the generator,
//! and its contract says what the generator's documentation promises of every
//! draw.

use vstd::prelude::*;
use genevo::random::Prng;

verus! {

/// The pseudo random number generator of `genevo`, `genevo::random::Prng`.
/// Nothing is known of its state.
#[verifier::external_type_specification]
#[verifier::external_body]
pub struct ExPrng(genevo::random::Prng);

/// Calls `genevo::random::random_index`, which draws from the half-open
/// range from zero to `length` and panics where that range is empty.
#[verifier::external_body]
pub(crate) fn random_index(rng: &mut Prng, length: usize) -> (index: usize)
    requires
        length > 0,
    ensures
        index < length,
{
    genevo::random::random_index(rng, length)
}

/// Calls `Rng::gen_range` on the half-open range from zero to `bound`; it
/// panics where that range is empty.
#[verifier::external_body]
pub(crate) fn random_below(rng: &mut Prng, bound: u64) -> (n: u64)
    requires
        bound > 0,
    ensures
        n < bound,
{
    genevo::random::Rng::gen_range(rng, 0..bound)
}

/// Calls `RandomValueMutation::random_mutated` for `u8`, which ignores
/// `value`, draws from the half-open range from `min_value` to `max_value`
/// and panics where that range is empty.
#[verifier::external_body]
pub(crate) fn random_value(value: u8, min_value: u8, max_value: u8, rng: &mut Prng) -> (drawn: u8)
    requires
        min_value < max_value,
    ensures
        min_value <= drawn < max_value,
{
    genevo::mutation::value::RandomValueMutation::random_mutated(
        value,
        &min_value,
        &max_value,
        rng,
    )
}

/// Calls `SliceRandom::choose` on the two options, which returns one element
/// of a slice that is not empty.
#[verifier::external_body]
pub(crate) fn pick_one<T: Copy>(first: T, second: T, rng: &mut Prng) -> (picked: T)
    ensures
        picked == first || picked == second,
{
    *genevo::random::SliceRandom::choose(&[first, second][..], rng).unwrap()
}

} // verus!
