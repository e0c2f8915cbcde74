//! The rank lookup index: from an encoded hand to its absolute rank.
//!
//! Built once per process by inverting the rank table, then shared read-only.
//! Because the table holds every legal hand word, a lookup of a legally
//! encoded hand always succeeds; a miss can only mean an illegal word.

use vstd::prelude::*;
use std::collections::HashMap;
use crate::card::Card;
use crate::compact::{
    SCard, SHand, is_legal_hand, raws_of, spec_encode_hand, valid_card_code,
};
use crate::table::RankTable;

verus! {

/// Anything that names a hand: either an already encoded hand word, or five
/// cards to encode on the way in.
pub trait Idx {
    /// Whether this value names a hand at all.
    spec fn idx_wf(&self) -> bool;

    /// The hand word this value names.
    spec fn spec_shand(&self) -> SHand;

    /// Encodes this value as a hand word.
    fn to_shand(&self) -> (h: SHand)
        requires
            self.idx_wf(),
        ensures
            h == self.spec_shand(),
    ;
}

impl Idx for SHand {
    open spec fn idx_wf(&self) -> bool {
        true
    }

    open spec fn spec_shand(&self) -> SHand {
        *self
    }

    fn to_shand(&self) -> (h: SHand) {
        *self
    }
}

impl Idx for Vec<Card> {
    open spec fn idx_wf(&self) -> bool {
        self@.len() == 5
    }

    open spec fn spec_shand(&self) -> SHand {
        SHand(
            spec_encode_hand(
                self@.map_values(|c: Card| crate::card::card_index(c) as u8),
            ) as u32,
        )
    }

    fn to_shand(&self) -> (h: SHand) {
        let cards = [
            SCard::new(self[0].rank(), self[0].suit()),
            SCard::new(self[1].rank(), self[1].suit()),
            SCard::new(self[2].rank(), self[2].suit()),
            SCard::new(self[3].rank(), self[3].suit()),
            SCard::new(self[4].rank(), self[4].suit()),
        ];
        proof {
            assert(raws_of(cards@) =~= self@.map_values(
                |c: Card| crate::card::card_index(c) as u8,
            ));
        }
        SHand::from_cards(cards)
    }
}

/// The index from encoded hands to their absolute ranks.
pub struct HandLookup {
    map: HashMap<u32, u32>,
}

impl View for HandLookup {
    type V = Map<u32, u32>;

    closed spec fn view(&self) -> Map<u32, u32> {
        self.map@
    }
}

impl HandLookup {
    /// Inverts a complete rank table: afterwards every table entry maps to
    /// its position, and only legal hand words are in the index at all.
    pub fn new(table: &RankTable) -> (l: HandLookup)
        requires
            table.complete(),
        ensures
            forall|j: int|
                0 <= j < table@.len() ==> self_maps(l@, #[trigger] table@[j], j as u32),
            forall|h: u32| #[trigger] l@.contains_key(h) <==> is_legal_hand(h as int),
    {
        broadcast use vstd::std_specs::hash::group_hash_axioms;

        let n = table.len();
        let mut map: HashMap<u32, u32> = HashMap::new();
        let mut i: usize = 0;
        #[verifier::loop_isolation(false)]
        while i < n
            invariant
                i <= n,
                forall|j: int| 0 <= j < i ==> self_maps(map@, #[trigger] table@[j], j as u32),
                forall|h: u32| #[trigger] map@.contains_key(h) ==> table@.contains(h),
            decreases n - i,
        {
            let h = table.hand_at(i);
            map.insert(h, i as u32);
            proof {
                assert forall|j: int|
                    0 <= j < i + 1 implies self_maps(map@, #[trigger] table@[j], j as u32) by {
                    if j < i {
                        assert(table@[j] != h);
                    }
                }
                assert(table@.contains(h));
            }
            i = i + 1;
        }
        proof {
            assert forall|h: u32| #[trigger] map@.contains_key(h) <==> is_legal_hand(
                h as int,
            ) by {
                if is_legal_hand(h as int) {
                    assert(table@.contains(h));
                    let j = choose|j: int| 0 <= j < table@.len() && table@[j] == h;
                    assert(self_maps(map@, table@[j], j as u32));
                }
            }
        }
        HandLookup { map }
    }

    /// The rank of the named hand: its position in the rank table, zero for
    /// the weakest hand.  Exactly the legally encoded hands have a rank.
    pub fn get<I: Idx>(&self, i: I) -> (r: Option<u32>)
        requires
            i.idx_wf(),
        ensures
            r == (if self@.contains_key(i.spec_shand()@) {
                Some(self@[i.spec_shand()@])
            } else {
                Option::<u32>::None
            }),
    {
        broadcast use vstd::std_specs::hash::group_hash_axioms;

        let h = i.to_shand();
        match self.map.get(&h.raw()) {
            Some(rank) => Some(*rank),
            None => None,
        }
    }
}

/// The map sends the key to exactly this value.
pub open spec fn self_maps(m: Map<u32, u32>, key: u32, value: u32) -> bool {
    m.contains_key(key) && m[key] == value
}

} // verus!
