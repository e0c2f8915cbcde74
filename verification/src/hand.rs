//! Five-card hands over plain cards, with the little analyses a ranking
//! needs: straights, flushes, and rank counts.

use vstd::prelude::*;
use vstd::relations::sorted_by;
use vstd::seq_lib::group_to_multiset_ensures;
use crate::binomial::lemma_binom_52_5;
use crate::card::{Card, Rank, Suit, all_cards, card_index, rank_index, suit_index};
use crate::combos::{combos, combos_spec, lemma_combos_len};

verus! {

/// The descending order on cards: higher rank first, suits breaking ties.
pub open spec fn card_ge() -> spec_fn(Card, Card) -> bool {
    |a: Card, b: Card| card_index(a) >= card_index(b)
}

/// A five-card hand, held with its cards in descending order.
#[derive(Debug, PartialEq, Eq)]
pub struct Hand {
    cards: [Card; 5],
}

impl View for Hand {
    type V = Seq<Card>;

    closed spec fn view(&self) -> Seq<Card> {
        self.cards@
    }
}

/// Whether five cards hold five consecutive ranks, highest first.
pub open spec fn spec_is_straight(cards: Seq<Card>) -> bool {
    forall|i: int|
        0 <= i < 5 ==> rank_index((#[trigger] cards[i]).rank) == rank_index(cards[0].rank) - i
}

/// Whether five cards all share one suit.
pub open spec fn spec_is_flush(cards: Seq<Card>) -> bool {
    forall|i: int| 0 <= i < 5 ==> (#[trigger] cards[i]).suit == cards[0].suit
}

/// How many of the cards hold the rank at a given position of the
/// deuce-to-ace order.
pub open spec fn spec_rank_count(cards: Seq<Card>, idx: int) -> int
    decreases cards.len(),
{
    if cards.len() == 0 {
        0
    } else {
        spec_rank_count(cards.drop_last(), idx) + if rank_index(cards.last().rank) == idx {
            1int
        } else {
            0int
        }
    }
}

/// Sorts cards into descending order, keeping exactly the same cards.
fn sort_cards_desc(v: &mut Vec<Card>)
    ensures
        final(v)@.to_multiset() == old(v)@.to_multiset(),
        sorted_by(final(v)@, card_ge()),
        final(v)@.len() == old(v)@.len(),
{
    let n = v.len();
    let mut i: usize = 1;
    while i < n
        invariant
            n == v@.len(),
            1 <= i,
            i <= n || i == 1,
            v@.to_multiset() == old(v)@.to_multiset(),
            forall|a: int, b: int| 0 <= a < b < i ==> (card_ge())(v@[a], v@[b]),
        decreases n - i,
    {
        let mut j: usize = i;
        while j > 0 && v[j - 1].rank().index() * 4 + v[j - 1].suit().index() < v[j].rank().index()
            * 4 + v[j].suit().index()
            invariant
                n == v@.len(),
                0 <= j <= i < n,
                v@.to_multiset() == old(v)@.to_multiset(),
                forall|a: int, b: int| 0 <= a < b <= i && b != j ==> (card_ge())(v@[a], v@[b]),
            decreases j,
        {
            let hi = v[j];
            let lo = v[j - 1];
            let ghost before = v@;
            v[j - 1] = hi;
            v[j] = lo;
            proof {
                broadcast use group_to_multiset_ensures;
                broadcast use vstd::multiset::group_multiset_axioms;

                assert(v@ =~= before.update(j - 1, hi).update(j as int, lo));
                assert(before[j - 1] == lo && before[j as int] == hi);
                assert(before.contains(lo) && before.contains(hi));
                assert(before.to_multiset().count(lo) > 0);
                assert(before.to_multiset().count(hi) > 0);
                assert(v@.to_multiset() =~= before.to_multiset());
            }
            j = j - 1;
        }
        i = i + 1;
    }
}

impl Hand {
    /// Takes five cards in any order and holds them highest first.
    pub fn new(cards: [Card; 5]) -> (h: Hand)
        ensures
            h@.to_multiset() == cards@.to_multiset(),
            h@.len() == 5,
            sorted_by(h@, card_ge()),
    {
        let mut v: Vec<Card> = Vec::new();
        v.push(cards[0]);
        v.push(cards[1]);
        v.push(cards[2]);
        v.push(cards[3]);
        v.push(cards[4]);
        proof {
            assert(v@ =~= cards@);
        }
        sort_cards_desc(&mut v);
        let sorted = [v[0], v[1], v[2], v[3], v[4]];
        proof {
            assert(sorted@ =~= v@);
        }
        Hand { cards: sorted }
    }

    /// The hand's cards, highest first.
    pub fn iter(&self) -> (r: Vec<Card>)
        ensures
            r@ == self@,
    {
        let mut r: Vec<Card> = Vec::new();
        r.push(self.cards[0]);
        r.push(self.cards[1]);
        r.push(self.cards[2]);
        r.push(self.cards[3]);
        r.push(self.cards[4]);
        proof {
            assert(r@ =~= self.cards@);
        }
        r
    }

    /// The top rank of the hand's straight, if its five ranks run down in
    /// steps of one from the first card.
    pub fn is_straight(&self) -> (r: Option<Rank>)
        ensures
            r == (if spec_is_straight(self@) {
                Some(self@[0].rank)
            } else {
                Option::<Rank>::None
            }),
    {
        let top = self.cards[0].rank().index();
        let mut i: usize = 1;
        while i < 5
            invariant
                1 <= i <= 5,
                top == rank_index(self@[0].rank),
                forall|m: int|
                    0 <= m < i ==> rank_index((#[trigger] self@[m]).rank) == rank_index(
                        self@[0].rank,
                    ) - m,
            decreases 5 - i,
        {
            if self.cards[i].rank().index() + (i as u8) != top {
                return None;
            }
            i = i + 1;
        }
        Some(self.cards[0].rank())
    }

    /// The hand's suit, if all five cards share it.
    pub fn is_flush(&self) -> (r: Option<Suit>)
        ensures
            r == (if spec_is_flush(self@) {
                Some(self@[0].suit)
            } else {
                Option::<Suit>::None
            }),
    {
        let suit = self.cards[0].suit();
        let mut i: usize = 1;
        while i < 5
            invariant
                1 <= i <= 5,
                suit == self@[0].suit,
                forall|m: int| 0 <= m < i ==> (#[trigger] self@[m]).suit == self@[0].suit,
            decreases 5 - i,
        {
            if self.cards[i].suit().index() != suit.index() {
                proof {
                    assert(suit_index(self@[i as int].suit) != suit_index(self@[0].suit));
                }
                return None;
            }
            proof {
                assert(suit_index(self@[i as int].suit) == suit_index(self@[0].suit));
                assert(self@[i as int].suit == self@[0].suit) by {
                    let a = self@[i as int].suit;
                    let b = self@[0].suit;
                    assert(suit_index(a) == suit_index(b));
                }
            }
            i = i + 1;
        }
        Some(suit)
    }

    /// How many cards of each rank the hand holds.
    pub fn rank_counts(&self) -> (r: RankCounts)
        ensures
            forall|idx: int| 0 <= idx < 13 ==> r@[idx] == spec_rank_count(self@, idx),
    {
        let mut v: Vec<u8> = Vec::new();
        let mut z: usize = 0;
        while z < 13
            invariant
                z <= 13,
                v@.len() == z,
                forall|m: int| 0 <= m < z ==> v@[m] == 0,
            decreases 13 - z,
        {
            v.push(0);
            z = z + 1;
        }
        proof {
            assert forall|idx: int| 0 <= idx < 13 implies spec_rank_count(
                self@.subrange(0, 0),
                idx,
            ) == 0 by {
                assert(self@.subrange(0, 0) =~= Seq::<Card>::empty());
            }
        }
        let mut i: usize = 0;
        while i < 5
            invariant
                i <= 5,
                v@.len() == 13,
                forall|idx: int|
                    0 <= idx < 13 ==> v@[idx] == spec_rank_count(
                        self@.subrange(0, i as int),
                        idx,
                    ),
            decreases 5 - i,
        {
            let idx = self.cards[i].rank().index() as usize;
            proof {
                assert(spec_rank_count(self@.subrange(0, i as int), idx as int) <= i) by {
                    lemma_rank_count_bound(self@.subrange(0, i as int), idx as int);
                }
            }
            let c = v[idx];
            v[idx] = c + 1;
            proof {
                assert forall|q: int| 0 <= q < 13 implies v@[q] == spec_rank_count(
                    self@.subrange(0, i + 1),
                    q,
                ) by {
                    assert(self@.subrange(0, i + 1).drop_last() =~= self@.subrange(0, i as int));
                    assert(self@.subrange(0, i + 1).last() == self@[i as int]);
                }
            }
            i = i + 1;
        }
        proof {
            assert(self@.subrange(0, 5) =~= self@);
        }
        let counts = [
            v[0], v[1], v[2], v[3], v[4], v[5], v[6], v[7], v[8], v[9], v[10], v[11], v[12],
        ];
        let r = RankCounts { counts };
        proof {
            assert forall|idx: int| 0 <= idx < 13 implies r@[idx] == spec_rank_count(
                self@,
                idx,
            ) by {
                assert(r@[idx] == v@[idx]);
            }
        }
        r
    }
}

/// A rank count never exceeds the number of cards counted.
proof fn lemma_rank_count_bound(cards: Seq<Card>, idx: int)
    ensures
        0 <= spec_rank_count(cards, idx) <= cards.len(),
    decreases cards.len(),
{
    if cards.len() > 0 {
        lemma_rank_count_bound(cards.drop_last(), idx);
    }
}

/// A tally of how many cards of each rank a hand holds, indexed in the
/// deuce-to-ace order.
#[derive(Debug, PartialEq, Eq)]
pub struct RankCounts {
    counts: [u8; 13],
}

impl View for RankCounts {
    type V = Seq<u8>;

    closed spec fn view(&self) -> Seq<u8> {
        self.counts@
    }
}

impl RankCounts {
    /// A tally of all zeroes.
    pub fn new() -> (r: RankCounts)
        ensures
            r@.len() == 13,
            forall|idx: int| 0 <= idx < 13 ==> r@[idx] == 0,
    {
        RankCounts { counts: [0, 0, 0, 0, 0, 0, 0, 0, 0, 0, 0, 0, 0] }
    }

    /// The count for one rank.
    pub fn get(&self, r: Rank) -> (n: u8)
        ensures
            n == self@[rank_index(r)],
    {
        self.counts[r.index() as usize]
    }
}

/// Every five-card hand over the whole deck, each held highest card first.
pub fn all_hands() -> (r: Vec<Hand>)
    ensures
        r@.len() == 2598960,
        forall|i: int| 0 <= i < r@.len() ==> (#[trigger] r@[i])@.len() == 5 && sorted_by(
            r@[i]@,
            card_ge(),
        ),
{
    let deck = all_cards();
    let tuples = combos(&deck, 5);
    proof {
        lemma_combos_len(deck@, 5);
        lemma_binom_52_5();
    }
    let n = tuples.len();
    let mut r: Vec<Hand> = Vec::new();
    let mut i: usize = 0;
    while i < n
        invariant
            i <= n,
            n == tuples@.len(),
            tuples@.map_values(|v: Vec<Card>| v@) == combos_spec(deck@, 5),
            r@.len() == i,
            forall|m: int| 0 <= m < i ==> (#[trigger] r@[m])@.len() == 5 && sorted_by(
                r@[m]@,
                card_ge(),
            ),
        decreases n - i,
    {
        let t = &tuples[i];
        proof {
            assert(tuples@.map_values(|v: Vec<Card>| v@)[i as int] == combos_spec(deck@, 5)[
                i as int]);
            crate::combos::lemma_combos_elems(deck@, 5);
        }
        let h = Hand::new([t[0], t[1], t[2], t[3], t[4]]);
        r.push(h);
        i = i + 1;
    }
    r
}

} // verus!
