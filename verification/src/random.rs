//! The random source of the solver, and the two draws it makes from it.

use vstd::prelude::*;
use std::collections::BTreeSet;
use rand::distributions::{Distribution, WeightedIndex};
use rand::rngs::StdRng;
use rand::seq::IteratorRandom;
use rand::SeedableRng;

verus! {

/// `rand::rngs::StdRng`, the generator that every draw of the solver comes
/// from. Nothing is known of its state.
#[verifier::external_type_specification]
#[verifier::external_body]
pub struct ExStdRng(StdRng);

/// The sum of a sequence of weights.
pub open spec fn total_weight(weights: Seq<u32>) -> int
    decreases weights.len(),
{
    if weights.len() == 0 {
        0
    } else {
        total_weight(weights.drop_last()) + weights.last()
    }
}

/// A generator seeded with `seed`, by `StdRng::seed_from_u64` of `rand`.
/// The contract says nothing of the generator that comes back.
#[verifier::external_body]
fn seeded_generator(seed: u64) -> StdRng {
    StdRng::seed_from_u64(seed)
}

/// The generator for a run with the seed `seed`: one seeded with it, or
/// `None` for the seed 0, which asks for a generator seeded by the system.
pub fn seeded_random(seed: u64) -> (random: Option<StdRng>)
    ensures
        random is None <==> seed == 0,
{
    if seed == 0 {
        None
    } else {
        Some(seeded_generator(seed))
    }
}

/// Draws an index with a chance proportional to its weight, by
/// `WeightedIndex::new` and `Distribution::sample` of `rand`.
///
/// `WeightedIndex::new` adds the weights up in `u32` and refuses an empty
/// list and a sum of zero, which the precondition leaves out. The sample is
/// the index of the first cumulative weight above a number drawn below the
/// sum: it lies within the list and its own weight is not zero.
#[verifier::external_body]
pub(crate) fn weighted_draw(weights: &Vec<u32>, random: &mut StdRng) -> (choice: usize)
    requires
        0 < total_weight(weights@) <= u32::MAX,
    ensures
        choice < weights.len(),
        weights[choice as int] > 0,
{
    WeightedIndex::new(weights).unwrap().sample(random)
}

/// Draws one member of `set`, by `IteratorRandom::choose` of `rand` on the
/// set's iterator: `None` exactly when the set is empty, else one of its
/// members.
#[verifier::external_body]
pub(crate) fn choose_member(set: &BTreeSet<usize>, random: &mut StdRng) -> (chosen: Option<usize>)
    ensures
        chosen is None <==> set@.is_empty(),
        chosen matches Some(member) ==> set@.contains(member),
{
    set.iter().choose(random).copied()
}

} // verus!
