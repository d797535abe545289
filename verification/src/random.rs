//! The random source of the scene.

use rand::rngs::StdRng;
use rand::seq::IteratorRandom;
use vstd::prelude::*;

verus! {

/// `rand::rngs::StdRng`, the generator that callers seed and hand in.
#[verifier::external_type_specification]
#[verifier::external_body]
pub struct ExStdRng(rand::rngs::StdRng);

/// Draws one of `candidates` with `rand::seq::IteratorRandom::choose`.
///
/// Trusted: `choose` returns `None` if and only if the iterator is empty,
/// and otherwise one of the items that the iterator yields. Which one
/// depends on the generator, and nothing is claimed about it.
#[verifier::external_body]
pub(crate) fn choose_id(candidates: &Vec<u16>, rng: &mut StdRng) -> (picked: Option<u16>)
    ensures
        picked.is_none() <==> candidates@.len() == 0,
        picked matches Some(id) ==> candidates@.contains(id),
{
    candidates.iter().choose(rng).copied()
}

} // verus!
