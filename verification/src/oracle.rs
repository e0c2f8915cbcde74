//! The reference hand evaluator, taken on trust.
//!
//! Poker hand strength itself is not derived here: a reference evaluator is
//! consulted once per hand while the rank table is built, and the crate only
//! preserves and indexes the order it answers with.  Everything in this
//! module that carries an `external_body` attribute is therefore part of the
//! trusted base; each such item names the outside function it relies on.

use vstd::prelude::*;
use poker::Card as PCard;
use poker::Rank as PRank;
use poker::Suit as PSuit;
use crate::compact::is_legal_hand;

verus! {

#[verifier::external_type_specification]
#[verifier::external_body]
pub struct ExEvaluator(poker::Evaluator);

#[verifier::external_type_specification]
#[verifier::external_body]
pub struct ExEval(poker::Eval);

#[verifier::external_type_specification]
#[verifier::external_body]
pub struct ExCard(PCard);

/// The strength the reference evaluator assigns to the five cards packed in
/// a legal hand word; a larger key never loses to a smaller one.  Only the
/// order of the keys is ever relied on, never their values.
pub uninterp spec fn oracle_key(hand: u32) -> int;

/// Relies on poker::Evaluator::new: builds the evaluator's lookup tables.
#[verifier::external_body]
pub(crate) fn new_evaluator() -> poker::Evaluator {
    poker::Evaluator::new()
}

/// Relies on poker::Card::new: the card standing at the given rank and
/// suit positions of the deuce-to-ace and clubs-to-spades orders.
#[verifier::external_body]
fn oracle_card(rank: u8, suit: u8) -> PCard
    requires
        rank < 13,
        suit < 4,
{
    let rs = [
        PRank::Two, PRank::Three, PRank::Four, PRank::Five, PRank::Six, PRank::Seven,
        PRank::Eight, PRank::Nine, PRank::Ten, PRank::Jack, PRank::Queen, PRank::King, PRank::Ace,
    ];
    let ss = [PSuit::Clubs, PSuit::Diamonds, PSuit::Hearts, PSuit::Spades];
    PCard::new(rs[rank as usize], ss[suit as usize])
}

/// Relies on poker::Evaluator::evaluate: scores five distinct cards, given
/// as rank and suit indices.  On five distinct cards the call cannot fail,
/// and its answer depends on the cards alone.
#[verifier::external_body]
fn eval_five(ev: &poker::Evaluator, ranks: &[u8; 5], suits: &[u8; 5]) -> poker::Eval
    requires
        forall|i: int| 0 <= i < 5 ==> ranks@[i] < 13 && suits@[i] < 4,
        forall|i: int, j: int|
            0 <= i < j < 5 ==> !(ranks@[i] == ranks@[j] && suits@[i] == suits@[j]),
{
    let cards = [
        oracle_card(ranks[0], suits[0]),
        oracle_card(ranks[1], suits[1]),
        oracle_card(ranks[2], suits[2]),
        oracle_card(ranks[3], suits[3]),
        oracle_card(ranks[4], suits[4]),
    ];
    match ev.evaluate(&cards) {
        Ok(e) => e,
        Err(_) => poker::Eval::WORST,
    }
}

/// Scores the five cards of a legal hand word with the reference evaluator.
/// The sorting wrapper below hands each table entry to this function.
#[verifier::rlimit(30)]
pub(crate) fn oracle_eval(ev: &poker::Evaluator, hand: u32) -> poker::Eval
    requires
        is_legal_hand(hand as int),
{
    let c0 = (hand % 64) as u8;
    let c1 = (hand / 64 % 64) as u8;
    let c2 = (hand / 4096 % 64) as u8;
    let c3 = (hand / 262144 % 64) as u8;
    let c4 = (hand / 16777216 % 64) as u8;
    proof {
        let hc = crate::compact::hand_cards(hand as int);
        assert(hc[0] == c0 && hc[1] == c1 && hc[2] == c2 && hc[3] == c3 && hc[4] == c4);
        assert(c0 < c1 && c1 < c2 && c2 < c3 && c3 < c4);
        assert(c0 < 52 && c1 < 52 && c2 < 52 && c3 < 52 && c4 < 52);
    }
    let ranks = [c0 / 4, c1 / 4, c2 / 4, c3 / 4, c4 / 4];
    let suits = [c0 % 4, c1 % 4, c2 % 4, c3 % 4, c4 % 4];
    proof {
        let cs = seq![c0, c1, c2, c3, c4];
        assert(ranks@ =~= seq![c0 / 4, c1 / 4, c2 / 4, c3 / 4, c4 / 4]);
        assert(suits@ =~= seq![c0 % 4, c1 % 4, c2 % 4, c3 % 4, c4 % 4]);
        assert forall|i: int, j: int|
            0 <= i < j < 5 implies !(ranks@[i] == ranks@[j] && suits@[i] == suits@[j]) by {
            assert(cs[i] < cs[j]);
            assert(ranks@[i] == cs[i] / 4 && suits@[i] == cs[i] % 4);
            assert(ranks@[j] == cs[j] / 4 && suits@[j] == cs[j] % 4);
            vstd::arithmetic::div_mod::lemma_fundamental_div_mod(cs[i] as int, 4);
            vstd::arithmetic::div_mod::lemma_fundamental_div_mod(cs[j] as int, 4);
        }
    }
    eval_five(ev, &ranks, &suits)
}

/// Relies on the standard library's stable sort with cached keys, and on the
/// order of poker::Eval, which compares evaluations by hand strength: after
/// the call the same hand words stand sorted from weakest to strongest as
/// the reference evaluator orders them.
#[verifier::external_body]
pub(crate) fn sort_by_oracle(ev: &poker::Evaluator, hands: &mut Vec<u32>)
    requires
        forall|i: int|
            0 <= i < old(hands)@.len() ==> is_legal_hand(#[trigger] old(hands)@[i] as int),
    ensures
        final(hands)@.to_multiset() == old(hands)@.to_multiset(),
        forall|i: int, j: int|
            #![trigger final(hands)@[i], final(hands)@[j]]
            0 <= i <= j < final(hands)@.len() ==> oracle_key(final(hands)@[i]) <= oracle_key(
                final(hands)@[j],
            ),
{
    hands.sort_by_cached_key(|h| oracle_eval(ev, *h));
}

} // verus!
