//! Compact card and hand encodings.
//!
//! A card packs into six bits as rank index times four plus suit index; only
//! 52 of the 64 patterns are legal.  A five-card hand packs its five card
//! codes, sorted ascending, into thirty bits, six bits apiece, so the same
//! unordered hand always packs to the same word.

use vstd::prelude::*;
use vstd::std_specs::convert::FromSpec;
use vstd::relations::{sorted_by, total_ordering};
use vstd::seq_lib::group_to_multiset_ensures;
use vstd::seq_lib::lemma_sorted_unique;
use vstd::arithmetic::div_mod::{
    lemma_fundamental_div_mod_converse_div, lemma_fundamental_div_mod_converse_mod,
};
use crate::card::{
    Card, Rank, Suit, card_index, rank_index, spec_rank_from_index, spec_suit_from_index,
    suit_index,
};

verus! {

/// Why a raw bit pattern was rejected by the codec.
#[derive(Clone, Copy, Debug, PartialEq, Eq, Structural)]
pub enum CodecError {
    /// The bit pattern does not encode a card or a hand.
    InvalidEncoding,
}

/// A card packed into six bits: rank index times four plus suit index.
#[derive(Clone, Copy, Debug, PartialEq, Eq, Hash, Structural)]
pub struct SCard(pub u8);

/// A five-card hand packed into thirty bits: the five card codes sorted
/// ascending, six bits apiece, weakest place first.
#[derive(Clone, Copy, Debug, PartialEq, Eq, Hash, Structural)]
pub struct SHand(pub u32);

impl View for SCard {
    type V = u8;

    open spec fn view(&self) -> u8 {
        self.0
    }
}

impl View for SHand {
    type V = u32;

    open spec fn view(&self) -> u32 {
        self.0
    }
}

/// A card code is legal when it stands for one of the 52 cards.
pub open spec fn valid_card_code(code: int) -> bool {
    0 <= code < 52
}

/// The ascending order on card codes.
pub open spec fn u8_le() -> spec_fn(u8, u8) -> bool {
    |a: u8, b: u8| a <= b
}

/// The value of the i-th six-bit place of a packed hand.
pub open spec fn place_value(i: int) -> int {
    if i == 0 {
        1
    } else if i == 1 {
        64
    } else if i == 2 {
        4096
    } else if i == 3 {
        262144
    } else {
        16777216
    }
}

/// Five card codes packed into one word, six bits apiece, first code in the
/// lowest place.
pub open spec fn pack5(c: Seq<u8>) -> int {
    c[0] + c[1] * 64 + c[2] * 4096 + c[3] * 262144 + c[4] * 16777216
}

/// The i-th six-bit field of a packed hand.
pub open spec fn hand_field(h: int, i: int) -> int {
    (h / place_value(i)) % 64
}

/// The five card codes held in a packed hand, lowest place first.
pub open spec fn hand_cards(h: int) -> Seq<u8> {
    Seq::new(5, |i: int| hand_field(h, i) as u8)
}

/// The raw codes of a sequence of packed cards.
pub open spec fn raws_of(cards: Seq<SCard>) -> Seq<u8> {
    cards.map_values(|c: SCard| c@)
}

/// A hand word is legal when it is the packing of five strictly ascending
/// legal card codes: exactly the words that stand for five-card hands.
pub open spec fn is_legal_hand(h: int) -> bool {
    &&& 0 <= h < 0x4000_0000
    &&& forall|i: int| 0 <= i < 5 ==> valid_card_code(#[trigger] hand_cards(h)[i] as int)
    &&& forall|i: int| 0 <= i < 4 ==> #[trigger] hand_cards(h)[i] < hand_cards(h)[i + 1]
}

/// What a five-card set encodes to: its codes in ascending order, packed.
pub open spec fn spec_encode_hand(raws: Seq<u8>) -> int {
    pack5(raws.sort_by(u8_le()))
}

/// Packing five six-bit codes and reading the fields back returns the codes:
/// the packing loses nothing.
pub proof fn lemma_pack_fields(c: Seq<u8>)
    requires
        c.len() == 5,
        forall|i: int| 0 <= i < 5 ==> c[i] < 64,
    ensures
        0 <= pack5(c) < 0x4000_0000,
        forall|i: int| 0 <= i < 5 ==> #[trigger] hand_field(pack5(c), i) == c[i],
{
    let h = pack5(c);
    let c0 = c[0] as int;
    let c1 = c[1] as int;
    let c2 = c[2] as int;
    let c3 = c[3] as int;
    let c4 = c[4] as int;
    assert(h == c0 + c1 * 64 + c2 * 4096 + c3 * 262144 + c4 * 16777216);
    assert(h < 0x4000_0000);
    lemma_fundamental_div_mod_converse_div(h, 16777216, c4, c0 + c1 * 64 + c2 * 4096 + c3 * 262144);
    lemma_fundamental_div_mod_converse_mod(c4, 64, 0, c4);
    assert(hand_field(h, 4) == c4);
    lemma_fundamental_div_mod_converse_div(h, 262144, c3 + c4 * 64, c0 + c1 * 64 + c2 * 4096);
    lemma_fundamental_div_mod_converse_mod(c3 + c4 * 64, 64, c4, c3);
    assert(hand_field(h, 3) == c3);
    lemma_fundamental_div_mod_converse_div(h, 4096, c2 + c3 * 64 + c4 * 4096, c0 + c1 * 64);
    lemma_fundamental_div_mod_converse_mod(c2 + c3 * 64 + c4 * 4096, 64, c3 + c4 * 64, c2);
    assert(hand_field(h, 2) == c2);
    lemma_fundamental_div_mod_converse_div(h, 64, c1 + c2 * 64 + c3 * 4096 + c4 * 262144, c0);
    lemma_fundamental_div_mod_converse_mod(c1 + c2 * 64 + c3 * 4096 + c4 * 262144, 64, c2 + c3 * 64
        + c4 * 4096, c1);
    assert(hand_field(h, 1) == c1);
    lemma_fundamental_div_mod_converse_div(h, 1, h, 0);
    lemma_fundamental_div_mod_converse_mod(h, 64, c1 + c2 * 64 + c3 * 4096 + c4 * 262144, c0);
    assert(hand_field(h, 0) == c0);
}

/// Packing is injective on five-code sequences: equal words mean equal codes.
pub proof fn lemma_pack_injective(a: Seq<u8>, b: Seq<u8>)
    requires
        a.len() == 5,
        b.len() == 5,
        forall|i: int| 0 <= i < 5 ==> a[i] < 64,
        forall|i: int| 0 <= i < 5 ==> b[i] < 64,
        pack5(a) == pack5(b),
    ensures
        a == b,
{
    lemma_pack_fields(a);
    lemma_pack_fields(b);
    assert forall|i: int| 0 <= i < 5 implies a[i] == b[i] by {
        assert(hand_field(pack5(a), i) == a[i]);
        assert(hand_field(pack5(b), i) == b[i]);
    }
    assert(a =~= b);
}

impl SCard {
    /// Packs a rank and a suit into one six-bit card code.
    pub fn new(r: Rank, s: Suit) -> (c: SCard)
        ensures
            c@ == rank_index(r) * 4 + suit_index(s),
            valid_card_code(c@ as int),
    {
        SCard(r.index() * 4 + s.index())
    }

    /// The raw six-bit code.
    pub fn raw(&self) -> (r: u8)
        ensures
            r == self@,
    {
        self.0
    }

    /// Checked decoding of a raw code; the twelve patterns that stand for no
    /// card are rejected.
    pub fn from_raw(raw: u8) -> (r: Result<SCard, CodecError>)
        ensures
            match r {
                Ok(c) => valid_card_code(raw as int) && c@ == raw,
                Err(e) => !valid_card_code(raw as int) && e == CodecError::InvalidEncoding,
            },
    {
        if raw < 52 {
            Ok(SCard(raw))
        } else {
            Err(CodecError::InvalidEncoding)
        }
    }

    /// The card's rank.
    pub fn rank(&self) -> (r: Rank)
        requires
            valid_card_code(self@ as int),
        ensures
            rank_index(r) == self@ as int / 4,
    {
        Rank::from_index(self.0 / 4)
    }

    /// The card's suit.
    pub fn suit(&self) -> (s: Suit)
        requires
            valid_card_code(self@ as int),
        ensures
            suit_index(s) == self@ as int % 4,
    {
        Suit::from_index(self.0 % 4)
    }

    /// The 52 cards of the deck, in ascending code order.
    pub fn deck() -> (cards: Vec<SCard>)
        ensures
            cards@.len() == 52,
            forall|i: int| 0 <= i < 52 ==> #[trigger] cards@[i]@ == i,
    {
        let mut cards: Vec<SCard> = Vec::new();
        let mut code: u8 = 0;
        while code < 52
            invariant
                code <= 52,
                cards@.len() == code,
                forall|i: int| 0 <= i < cards@.len() ==> #[trigger] cards@[i]@ == i,
            decreases 52 - code,
        {
            cards.push(SCard(code));
            code = code + 1;
        }
        cards
    }
}

impl From<Card> for SCard {
    /// Packs a card into its six-bit code.
    fn from(c: Card) -> (r: SCard) {
        SCard::new(c.rank, c.suit)
    }
}

impl vstd::std_specs::convert::FromSpecImpl<Card> for SCard {
    open spec fn obeys_from_spec() -> bool {
        true
    }

    open spec fn from_spec(c: Card) -> SCard {
        SCard(card_index(c) as u8)
    }
}

impl From<SCard> for Card {
    /// Unpacks a six-bit code into its card.
    fn from(c: SCard) -> (r: Card) {
        let ri = c.0 / 4;
        let rank = if ri < 13 {
            Rank::from_index(ri)
        } else {
            Rank::Ace
        };
        Card { rank, suit: Suit::from_index(c.0 % 4) }
    }
}

impl vstd::std_specs::convert::FromSpecImpl<SCard> for Card {
    open spec fn obeys_from_spec() -> bool {
        true
    }

    open spec fn from_spec(c: SCard) -> Card {
        Card {
            rank: spec_rank_from_index(c@ as int / 4),
            suit: spec_suit_from_index(c@ as int % 4),
        }
    }
}

/// Decoding inverts encoding for every card, and no two cards share a code:
/// over the 52 cards the codec is a bijection onto the 52 legal codes.
pub proof fn lemma_card_codec_bijective()
    ensures
        forall|c: Card| #![auto] valid_card_code(card_index(c)),
        forall|c: Card| #![auto]
            Card::from_spec(SCard::from_spec(c)) == c,
        forall|c1: Card, c2: Card| #![auto]
            card_index(c1) == card_index(c2) ==> c1 == c2,
{
    assert forall|c: Card| #![auto] Card::from_spec(SCard::from_spec(c)) == c by {
        let code = card_index(c);
        assert(code == rank_index(c.rank) * 4 + suit_index(c.suit));
        assert(code / 4 == rank_index(c.rank) && code % 4 == suit_index(c.suit)) by {
            lemma_fundamental_div_mod_converse_div(
                code,
                4,
                rank_index(c.rank),
                suit_index(c.suit),
            );
            lemma_fundamental_div_mod_converse_mod(
                code,
                4,
                rank_index(c.rank),
                suit_index(c.suit),
            );
        }
        assert(spec_rank_from_index(rank_index(c.rank)) == c.rank);
        assert(spec_suit_from_index(suit_index(c.suit)) == c.suit);
    }
    assert forall|c1: Card, c2: Card| #![auto]
        card_index(c1) == card_index(c2) implies c1 == c2 by {
        assert(Card::from_spec(SCard::from_spec(c1)) == c1);
        assert(Card::from_spec(SCard::from_spec(c2)) == c2);
        assert(SCard::from_spec(c1) == SCard::from_spec(c2));
    }
}

/// Permutation invariance of the hand packer: two sequences holding the same
/// five card codes, in any orders, pack to the same hand word.
pub proof fn lemma_encode_hand_permutation_invariant(a: Seq<u8>, b: Seq<u8>)
    requires
        a.to_multiset() == b.to_multiset(),
    ensures
        spec_encode_hand(a) == spec_encode_hand(b),
{
    a.lemma_sort_by_ensures(u8_le());
    b.lemma_sort_by_ensures(u8_le());
    assert(total_ordering(u8_le()));
    lemma_sorted_unique(a.sort_by(u8_le()), b.sort_by(u8_le()), u8_le());
    assert(a.sort_by(u8_le()) =~= b.sort_by(u8_le()));
}

/// Reordering cards reorders their codes: two sequences holding the same
/// cards hold the same codes.
proof fn lemma_raws_of_multiset(a: Seq<SCard>, b: Seq<SCard>)
    requires
        a.to_multiset() == b.to_multiset(),
    ensures
        raws_of(a).to_multiset() == raws_of(b).to_multiset(),
    decreases a.len(),
{
    broadcast use group_to_multiset_ensures;
    broadcast use vstd::multiset::group_multiset_axioms;

    assert(a.to_multiset().len() == a.len());
    assert(b.to_multiset().len() == b.len());
    if a.len() == 0 {
        assert(raws_of(a) =~= Seq::<u8>::empty());
        assert(raws_of(b) =~= Seq::<u8>::empty());
        assert(raws_of(a).to_multiset() =~= raws_of(b).to_multiset());
    } else {
        let x = a.last();
        assert(a.contains(x));
        assert(a.to_multiset().count(x) > 0);
        assert(b.to_multiset().count(x) > 0);
        assert(b.contains(x));
        let i = choose|i: int| 0 <= i < b.len() && b[i] == x;
        let a1 = a.drop_last();
        let b1 = b.remove(i);
        assert(a =~= a1.push(x));
        assert(a.to_multiset() == a1.to_multiset().insert(x));
        assert(b1.to_multiset() == b.to_multiset().remove(x));
        assert(a1.to_multiset() =~= b1.to_multiset());
        lemma_raws_of_multiset(a1, b1);
        assert(raws_of(a) =~= raws_of(a1).push(x@));
        assert(raws_of(a).to_multiset() == raws_of(a1).to_multiset().insert(x@));
        assert(raws_of(b1) =~= raws_of(b).remove(i));
        assert(raws_of(b).remove(i).to_multiset() == raws_of(b).to_multiset().remove(
            raws_of(b)[i],
        ));
        assert(raws_of(b)[i] == x@);
        assert(raws_of(b).contains(raws_of(b)[i]));
        assert(raws_of(b).to_multiset().count(x@) > 0);
        assert(raws_of(a).to_multiset() =~= raws_of(b).to_multiset());
    }
}

/// Permutation invariance over cards themselves: any two orderings of the
/// same five cards pack to the same hand word.
pub proof fn lemma_encode_cards_permutation_invariant(a: Seq<SCard>, b: Seq<SCard>)
    requires
        a.to_multiset() == b.to_multiset(),
    ensures
        spec_encode_hand(raws_of(a)) == spec_encode_hand(raws_of(b)),
{
    lemma_raws_of_multiset(a, b);
    lemma_encode_hand_permutation_invariant(raws_of(a), raws_of(b));
}

/// Unpacking a legal hand word and packing the five cards again returns the
/// word: hand decoding inverts hand encoding.
pub proof fn lemma_hand_roundtrip(h: u32)
    requires
        is_legal_hand(h as int),
    ensures
        spec_encode_hand(hand_cards(h as int)) == h,
{
    let c = hand_cards(h as int);
    assert(sorted_by(c, u8_le()));
    c.lemma_sort_by_ensures(u8_le());
    assert(total_ordering(u8_le()));
    lemma_sorted_unique(c.sort_by(u8_le()), c, u8_le());
    assert(c.sort_by(u8_le()) =~= c);
    lemma_pack_unpack(h as int);
}

/// A hand word below two to the thirtieth is recovered by packing its own
/// five six-bit fields.
pub proof fn lemma_pack_unpack(h: int)
    requires
        0 <= h < 0x4000_0000,
    ensures
        pack5(hand_cards(h)) == h,
{
    let c0 = h % 64;
    let q1 = h / 64;
    let c1 = q1 % 64;
    let q2 = q1 / 64;
    let c2 = q2 % 64;
    let q3 = q2 / 64;
    let c3 = q3 % 64;
    let q4 = q3 / 64;
    vstd::arithmetic::div_mod::lemma_fundamental_div_mod(h, 64);
    vstd::arithmetic::div_mod::lemma_fundamental_div_mod(q1, 64);
    vstd::arithmetic::div_mod::lemma_fundamental_div_mod(q2, 64);
    vstd::arithmetic::div_mod::lemma_fundamental_div_mod(q3, 64);
    assert(h == q2 * 4096 + (c1 * 64 + c0));
    assert(h == q3 * 262144 + (c2 * 4096 + c1 * 64 + c0));
    assert(h == q4 * 16777216 + (c3 * 262144 + c2 * 4096 + c1 * 64 + c0));
    assert(0 <= q4 < 64);
    lemma_fundamental_div_mod_converse_div(h, 1, h, 0);
    lemma_fundamental_div_mod_converse_div(h, 4096, q2, c1 * 64 + c0);
    lemma_fundamental_div_mod_converse_div(h, 262144, q3, c2 * 4096 + c1 * 64 + c0);
    lemma_fundamental_div_mod_converse_div(h, 16777216, q4, c3 * 262144 + c2 * 4096 + c1 * 64 + c0);
    lemma_fundamental_div_mod_converse_mod(q4, 64, 0, q4);
    assert(hand_cards(h)[0] == c0);
    assert(hand_cards(h)[1] == c1);
    assert(hand_cards(h)[2] == c2);
    assert(hand_cards(h)[3] == c3);
    assert(hand_cards(h)[4] == q4);
    assert(pack5(hand_cards(h)) == c0 + c1 * 64 + c2 * 4096 + c3 * 262144 + q4 * 16777216);
}

/// Sorts a vector of card codes into ascending order, keeping exactly the
/// same codes.
fn sort_codes(v: &mut Vec<u8>)
    ensures
        final(v)@.to_multiset() == old(v)@.to_multiset(),
        sorted_by(final(v)@, u8_le()),
        final(v)@.len() == old(v)@.len(),
{
    broadcast use group_to_multiset_ensures;
    broadcast use vstd::multiset::group_multiset_axioms;

    let n = v.len();
    let mut i: usize = 1;
    while i < n
        invariant
            n == v@.len(),
            1 <= i,
            i <= n || i == 1,
            v@.to_multiset() == old(v)@.to_multiset(),
            forall|a: int, b: int| 0 <= a < b < i ==> (u8_le())(v@[a], v@[b]),
        decreases n - i,
    {
        let mut j: usize = i;
        while j > 0 && v[j - 1] > v[j]
            invariant
                n == v@.len(),
                0 <= j <= i < n,
                v@.to_multiset() == old(v)@.to_multiset(),
                forall|a: int, b: int|
                    0 <= a < b <= i && b != j ==> (u8_le())(v@[a], v@[b]),
            decreases j,
        {
            let hi = v[j];
            let lo = v[j - 1];
            let ghost before = v@;
            v[j - 1] = hi;
            v[j] = lo;
            proof {
                broadcast use group_to_multiset_ensures;
                broadcast use vstd::multiset::group_multiset_axioms;

                assert(v@ =~= before.update(j - 1, hi).update(j as int, lo));
                assert(before[j - 1] == lo && before[j as int] == hi);
                assert(before.contains(lo) && before.contains(hi));
                assert(before.to_multiset().count(lo) > 0);
                assert(before.to_multiset().count(hi) > 0);
                assert(v@.to_multiset() =~= before.to_multiset());
            }
            j = j - 1;
        }
        i = i + 1;
    }
}

/// Packs five ascending card codes; the codes must each fit in six bits.
pub(crate) fn pack_codes(v: &Vec<u8>) -> (h: u32)
    requires
        v@.len() == 5,
        forall|i: int| 0 <= i < 5 ==> v@[i] < 64,
    ensures
        h == pack5(v@),
{
    proof {
        lemma_pack_fields(v@);
    }
    v[0] as u32 + v[1] as u32 * 64 + v[2] as u32 * 4096 + v[3] as u32 * 262144 + v[4] as u32
        * 16777216
}

impl SHand {
    /// The raw thirty-bit word.
    pub fn raw(&self) -> (r: u32)
        ensures
            r == self@,
    {
        self.0
    }

    /// Packs five cards into one hand word.  The cards are sorted before
    /// packing, so every ordering of the same five cards packs alike.
    pub fn from_cards(cards: [SCard; 5]) -> (h: SHand)
        requires
            forall|i: int| 0 <= i < 5 ==> valid_card_code(#[trigger] cards@[i]@ as int),
        ensures
            h@ == spec_encode_hand(raws_of(cards@)),
    {
        broadcast use group_to_multiset_ensures;

        let mut v: Vec<u8> = Vec::new();
        v.push(cards[0].0);
        v.push(cards[1].0);
        v.push(cards[2].0);
        v.push(cards[3].0);
        v.push(cards[4].0);
        let ghost raws = raws_of(cards@);
        proof {
            assert(v@ =~= raws);
        }
        sort_codes(&mut v);
        proof {
            raws.lemma_sort_by_ensures(u8_le());
            assert(total_ordering(u8_le()));
            lemma_sorted_unique(v@, raws.sort_by(u8_le()), u8_le());
            assert(v@ =~= raws.sort_by(u8_le()));
            assert(forall|i: int| 0 <= i < 5 ==> v@[i] < 64) by {
                assert(forall|i: int|
                    0 <= i < 5 ==> v@.to_multiset().contains(#[trigger] v@[i]));
            }
        }
        SHand(pack_codes(&v))
    }

    /// Checked decoding of a raw word; rejects every word that is not the
    /// canonical packing of five distinct cards in ascending order.
    pub fn from_raw(h: u32) -> (r: Result<SHand, CodecError>)
        ensures
            match r {
                Ok(s) => is_legal_hand(h as int) && s@ == h,
                Err(e) => !is_legal_hand(h as int) && e == CodecError::InvalidEncoding,
            },
    {
        let c0 = (h % 64) as u8;
        let c1 = (h / 64 % 64) as u8;
        let c2 = (h / 4096 % 64) as u8;
        let c3 = (h / 262144 % 64) as u8;
        let c4 = (h / 16777216 % 64) as u8;
        assert(hand_cards(h as int)[0] == c0);
        assert(hand_cards(h as int)[1] == c1);
        assert(hand_cards(h as int)[2] == c2);
        assert(hand_cards(h as int)[3] == c3);
        assert(hand_cards(h as int)[4] == c4);
        if h < 0x4000_0000 && c4 < 52 && c0 < c1 && c1 < c2 && c2 < c3 && c3 < c4 {
            assert(forall|i: int| 0 <= i < 5 ==> valid_card_code(hand_cards(h as int)[i] as int));
            Ok(SHand(h))
        } else {
            assert(!is_legal_hand(h as int));
            Err(CodecError::InvalidEncoding)
        }
    }

    /// The five cards of the hand, in ascending code order.
    pub fn members(&self) -> (cards: [SCard; 5])
        ensures
            forall|i: int| 0 <= i < 5 ==> #[trigger] cards@[i]@ == hand_cards(self@ as int)[i],
    {
        let h = self.0;
        let cards = [
            SCard((h % 64) as u8),
            SCard((h / 64 % 64) as u8),
            SCard((h / 4096 % 64) as u8),
            SCard((h / 262144 % 64) as u8),
            SCard((h / 16777216 % 64) as u8),
        ];
        cards
    }
}


/// Five distinct legal card codes, in any order, encode to a legal hand
/// word.
pub proof fn lemma_encode_legal(raws: Seq<u8>)
    requires
        raws.len() == 5,
        forall|i: int| 0 <= i < 5 ==> raws[i] < 52,
        raws.no_duplicates(),
    ensures
        is_legal_hand(spec_encode_hand(raws)),
{
    broadcast use group_to_multiset_ensures;

    let sorted = raws.sort_by(u8_le());
    raws.lemma_sort_by_ensures(u8_le());
    assert(sorted.to_multiset().len() == sorted.len());
    assert(raws.to_multiset().len() == raws.len());
    assert(sorted.len() == 5);
    assert forall|i: int| 0 <= i < 5 implies sorted[i] < 52 by {
        assert(sorted.to_multiset().count(sorted[i]) > 0);
        assert(raws.to_multiset().count(sorted[i]) > 0);
        assert(raws.contains(sorted[i]));
    }
    raws.lemma_multiset_has_no_duplicates();
    sorted.lemma_multiset_has_no_duplicates_conv();
    assert forall|i: int| #![trigger sorted[i]] 0 <= i < 4 implies sorted[i] < sorted[i + 1] by {
        assert((u8_le())(sorted[i], sorted[i + 1]));
        assert(sorted[i] != sorted[i + 1]);
    }
    lemma_pack_fields(sorted);
    let h = pack5(sorted);
    assert forall|i: int| 0 <= i < 5 implies valid_card_code(
        #[trigger] hand_cards(h)[i] as int,
    ) by {
        assert(hand_cards(h)[i] == sorted[i]);
    }
    assert forall|i: int| 0 <= i < 4 implies #[trigger] hand_cards(h)[i] < hand_cards(h)[i
        + 1] by {
        assert(hand_cards(h)[i] == sorted[i]);
        assert(hand_cards(h)[i + 1] == sorted[i + 1]);
    }
}

} // verus!
