//! Random draws from the residual deck, taken on trust.
//!
//! What a draw returns cannot be pinned down, so the contracts here state
//! only what holds of every outcome: how many cards come back, that each
//! was in the deck, and that none repeats.  Everything computed from a draw
//! is verified for every such outcome.

use vstd::prelude::*;
use rand::rngs::ThreadRng;
use rand::seq::SliceRandom;
use crate::compact::SCard;

verus! {

#[verifier::external_type_specification]
#[verifier::external_body]
pub struct ExThreadRng(ThreadRng);

/// Relies on rand::thread_rng: a random source owned by the calling thread,
/// so parallel workers never contend for one.
#[verifier::external_body]
pub(crate) fn fresh_rng() -> ThreadRng {
    rand::thread_rng()
}

/// Relies on rand's SliceRandom::choose_multiple: draws the asked number of
/// cards uniformly from the deck without repetition.  Which cards come back
/// is chance; that they are that many distinct deck cards is not.
#[verifier::external_body]
pub(crate) fn choose_from(deck: &Vec<SCard>, rng: &mut ThreadRng, amount: usize) -> (r: Vec<
    SCard,
>)
    requires
        amount <= deck@.len(),
        deck@.no_duplicates(),
    ensures
        r@.len() == amount,
        forall|i: int| 0 <= i < r@.len() ==> deck@.contains(#[trigger] r@[i]),
        r@.no_duplicates(),
{
    deck.choose_multiple(rng, amount).copied().collect()
}

} // verus!
