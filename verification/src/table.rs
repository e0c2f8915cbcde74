//! The rank table: every distinct five-card hand, ordered by strength.
//!
//! The table is built once by enumerating all hand words, scoring each with
//! the reference evaluator, and sorting from weakest to strongest.  Its
//! position is a hand's absolute rank: zero for the weakest hand, the last
//! position for a royal flush.  The table also serializes to the flat
//! four-bytes-per-entry artifact form and back.

use vstd::prelude::*;
use vstd::seq_lib::group_to_multiset_ensures;
use std::collections::HashMap;
use crate::binomial::{binom, lemma_binom_52_5};
use crate::combos::{
    combos, combos_spec, is_subseq, lemma_combos_complete, lemma_combos_elems, lemma_combos_len,
    lemma_combos_no_dup, lemma_subseq_elems, lemma_subseq_sorted,
};
use crate::compact::{
    hand_cards, is_legal_hand, lemma_pack_fields, lemma_pack_injective, lemma_pack_unpack, pack5,
    pack_codes,
};
use crate::oracle::{new_evaluator, oracle_key, sort_by_oracle};

verus! {

/// How many distinct five-card hands a 52-card deck yields.
pub const N_HANDS: usize = 2598960;

/// Why a byte blob was rejected as a rank table artifact.
#[derive(Clone, Copy, Debug, PartialEq, Eq, Structural)]
pub enum TableError {
    /// The blob's length is not four bytes per hand over all hands.
    WrongLength,
    /// The blob has the right length but holds an illegal or repeated entry.
    InvalidContents,
}

/// The deck as card codes, ascending.
pub open spec fn deck_codes() -> Seq<u8> {
    Seq::new(52, |i: int| i as u8)
}

/// Every legal hand word, in ascending combination order.
pub open spec fn all_hands_seq() -> Seq<u32> {
    combos_spec(deck_codes(), 5).map_values(|t: Seq<u8>| pack5(t) as u32)
}

/// The i-th big-endian 32-bit word of a byte blob.
pub open spec fn word_at(bytes: Seq<u8>, i: int) -> u32 {
    (bytes[4 * i] * 0x100_0000 + bytes[4 * i + 1] * 0x1_0000 + bytes[4 * i + 2] * 0x100 + bytes[4
        * i + 3]) as u32
}

/// The hand-word enumeration lists exactly the legal hand words, each once.
pub proof fn lemma_all_hands_seq()
    ensures
        all_hands_seq().len() == N_HANDS,
        all_hands_seq().no_duplicates(),
        forall|h: u32| all_hands_seq().contains(h) <==> is_legal_hand(h as int),
{
    let deck = deck_codes();
    let cs = combos_spec(deck, 5);
    let packed = all_hands_seq();
    assert(deck.no_duplicates());
    assert(vstd::relations::sorted_by(deck, code_lt()));
    lemma_combos_len(deck, 5);
    lemma_binom_52_5();
    lemma_combos_elems(deck, 5);
    lemma_combos_no_dup(deck, 5);
    // Each enumerated combination is five ascending codes below 52, so each
    // packed word is legal.
    assert forall|i: int| 0 <= i < cs.len() implies is_legal_hand(packed[i] as int) && packed[i]
        == pack5(cs[i]) by {
        lemma_combo_legal(cs[i]);
    }
    // Distinct combinations pack to distinct words.
    assert forall|i: int, j: int|
        0 <= i < packed.len() && 0 <= j < packed.len() && i != j implies packed[i] != packed[
        j] by {
        if packed[i] == packed[j] {
            lemma_combo_codes(cs[i]);
            lemma_combo_codes(cs[j]);
            lemma_pack_injective(cs[i], cs[j]);
        }
    }
    // A word is listed exactly when it is legal.
    assert forall|h: u32| packed.contains(h) implies is_legal_hand(h as int) by {
        let i = choose|i: int| 0 <= i < packed.len() && packed[i] == h;
        assert(is_legal_hand(packed[i] as int));
    }
    assert forall|h: u32| is_legal_hand(h as int) implies packed.contains(h) by {
        let t = hand_cards(h as int);
        assert(t[0] < t[1] && t[1] < t[2] && t[2] < t[3] && t[3] < t[4]);
        assert forall|i: int, j: int| 0 <= i < j < t.len() implies t[i] < t[j] by {
            assert(t[0] < t[1] && t[1] < t[2] && t[2] < t[3] && t[3] < t[4]);
        }
        assert forall|i: int| 0 <= i < t.len() implies 0 <= #[trigger] t[i] < 52 by {
            assert(crate::compact::valid_card_code(hand_cards(h as int)[i] as int));
        }
        lemma_ascending_subseq(t, 0);
        assert(Seq::new((52 - 0) as nat, |i: int| (0 + i) as u8) =~= deck);
        lemma_combos_complete(deck, t);
        let i = choose|i: int| 0 <= i < cs.len() && cs[i] == t;
        lemma_pack_unpack(h as int);
        assert(packed[i] == h);
    }
}

/// The strict ascending order on card codes.
pub open spec fn code_lt() -> spec_fn(u8, u8) -> bool {
    |a: u8, b: u8| a < b
}

/// An enumerated combination holds five ascending codes below 52.
proof fn lemma_combo_codes(t: Seq<u8>)
    requires
        t.len() == 5,
        is_subseq(t, deck_codes()),
    ensures
        forall|i: int| 0 <= i < 5 ==> t[i] < 52,
        forall|i: int, j: int| 0 <= i < j < 5 ==> t[i] < t[j],
{
    lemma_subseq_elems(t, deck_codes());
    assert forall|i: int| 0 <= i < 5 implies t[i] < 52 by {
        let j = choose|j: int| 0 <= j < deck_codes().len() && deck_codes()[j] == t[i];
    }
    lemma_subseq_sorted(t, deck_codes(), code_lt());
    assert forall|i: int, j: int| 0 <= i < j < 5 implies t[i] < t[j] by {
        assert((code_lt())(t[i], t[j]));
    }
}

/// The word packed from an enumerated combination is legal.
proof fn lemma_combo_legal(t: Seq<u8>)
    requires
        t.len() == 5,
        is_subseq(t, deck_codes()),
    ensures
        is_legal_hand(pack5(t)),
{
    lemma_combo_codes(t);
    lemma_pack_fields(t);
    let h = pack5(t);
    assert forall|i: int| 0 <= i < 5 implies crate::compact::valid_card_code(
        #[trigger] hand_cards(h)[i] as int,
    ) by {
        assert(hand_cards(h)[i] == t[i]);
    }
    assert forall|i: int| 0 <= i < 4 implies #[trigger] hand_cards(h)[i] < hand_cards(h)[i
        + 1] by {
        assert(hand_cards(h)[i] == t[i]);
        assert(hand_cards(h)[i + 1] == t[i + 1]);
    }
}

/// Five strictly ascending codes, all at least c and below 52, occur in
/// order among the codes from c up.
proof fn lemma_ascending_subseq(t: Seq<u8>, c: int)
    requires
        0 <= c <= 52,
        forall|i: int| 0 <= i < t.len() ==> c <= #[trigger] t[i] < 52,
        forall|i: int, j: int| 0 <= i < j < t.len() ==> t[i] < t[j],
    ensures
        is_subseq(t, Seq::new((52 - c) as nat, |i: int| (c + i) as u8)),
    decreases 52 - c,
{
    let s = Seq::new((52 - c) as nat, |i: int| (c + i) as u8);
    if t.len() == 0 {
    } else {
        assert(c <= t[0] < 52);
        assert(c < 52);
        assert(s[0] == c);
        let s1 = Seq::new((52 - (c + 1)) as nat, |i: int| (c + 1 + i) as u8);
        assert(s.drop_first() =~= s1);
        if t[0] == c {
            let t1 = t.drop_first();
            assert forall|i: int| 0 <= i < t1.len() implies c + 1 <= #[trigger] t1[i] < 52 by {
                assert(t1[i] == t[i + 1]);
                assert(t[0] < t[i + 1]);
            }
            assert forall|i: int, j: int| 0 <= i < j < t1.len() implies t1[i] < t1[j] by {
                assert(t1[i] == t[i + 1]);
                assert(t1[j] == t[j + 1]);
            }
            lemma_ascending_subseq(t1, c + 1);
            assert(is_subseq(t, s));
        } else {
            assert forall|i: int| 0 <= i < t.len() implies c + 1 <= #[trigger] t[i] < 52 by {
                if i > 0 {
                    assert(t[0] < t[i]);
                }
            }
            lemma_ascending_subseq(t, c + 1);
            assert(is_subseq(t, s));
        }
    }
}

/// The rank table: all hand words, weakest first.
pub struct RankTable {
    hands: Vec<u32>,
}

impl View for RankTable {
    type V = Seq<u32>;

    closed spec fn view(&self) -> Seq<u32> {
        self.hands@
    }
}

impl RankTable {
    /// The table holds every legal hand word exactly once.
    pub open spec fn complete(&self) -> bool {
        &&& self@.len() == N_HANDS
        &&& self@.no_duplicates()
        &&& forall|h: u32| self@.contains(h) <==> is_legal_hand(h as int)
    }

    /// No entry outranks a later entry in the reference evaluator's order.
    pub open spec fn oracle_sorted(&self) -> bool {
        forall|i: int, j: int|
            #![trigger self@[i], self@[j]]
            0 <= i <= j < self@.len() ==> oracle_key(self@[i]) <= oracle_key(self@[j])
    }

    /// How many hands the table ranks.
    pub fn len(&self) -> (n: usize)
        ensures
            n == self@.len(),
    {
        self.hands.len()
    }

    /// The hand word at a given rank.
    pub fn hand_at(&self, rank: usize) -> (h: u32)
        requires
            rank < self@.len(),
        ensures
            h == self@[rank as int],
    {
        self.hands[rank]
    }

    /// Builds the table: enumerate every hand, then order the hands from
    /// weakest to strongest as the reference evaluator ranks them.
    pub fn build() -> (t: RankTable)
        ensures
            t.complete(),
            t.oracle_sorted(),
    {
        let ev = new_evaluator();
        let mut hands = all_hand_codes();
        proof {
            lemma_all_hands_seq();
            assert forall|i: int| 0 <= i < hands@.len() implies is_legal_hand(
                #[trigger] hands@[i] as int,
            ) by {
                assert(hands@.contains(hands@[i]));
            }
        }
        let ghost before = hands@;
        sort_by_oracle(&ev, &mut hands);
        proof {
            broadcast use group_to_multiset_ensures;

            assert(hands@.to_multiset().len() == hands@.len());
            assert(before.to_multiset().len() == before.len());
            assert(hands@.len() == before.len());
            assert forall|h: u32| hands@.contains(h) <==> is_legal_hand(h as int) by {
                assert(hands@.contains(h) <==> hands@.to_multiset().count(h) > 0);
                assert(before.contains(h) <==> before.to_multiset().count(h) > 0);
                assert(before.contains(h) <==> is_legal_hand(h as int));
            }
            before.lemma_multiset_has_no_duplicates();
            hands@.lemma_multiset_has_no_duplicates_conv();
        }
        RankTable { hands }
    }

    /// Serializes the table as four big-endian bytes per entry, weakest
    /// entry first.
    pub fn to_bytes(&self) -> (bytes: Vec<u8>)
        ensures
            bytes@.len() == 4 * self@.len(),
            forall|i: int| 0 <= i < self@.len() ==> word_at(bytes@, i) == self@[i],
    {
        let n = self.hands.len();
        let mut bytes: Vec<u8> = Vec::new();
        let mut i: usize = 0;
        while i < n
            invariant
                i <= n,
                n == self@.len(),
                bytes@.len() == 4 * i,
                forall|m: int| 0 <= m < i ==> word_at(bytes@, m) == self@[m],
            decreases n - i,
        {
            let h = self.hands[i];
            let ghost prefix = bytes@;
            bytes.push((h / 0x100_0000 % 0x100) as u8);
            bytes.push((h / 0x1_0000 % 0x100) as u8);
            bytes.push((h / 0x100 % 0x100) as u8);
            bytes.push((h % 0x100) as u8);
            proof {
                lemma_be_word(h as int);
                assert forall|m: int| 0 <= m < i + 1 implies word_at(bytes@, m) == self@[m] by {
                    if m < i {
                        assert(bytes@[4 * m] == prefix[4 * m]);
                        assert(bytes@[4 * m + 1] == prefix[4 * m + 1]);
                        assert(bytes@[4 * m + 2] == prefix[4 * m + 2]);
                        assert(bytes@[4 * m + 3] == prefix[4 * m + 3]);
                    } else {
                        assert(bytes@[4 * m] == h / 0x100_0000 % 0x100);
                        assert(bytes@[4 * m + 1] == h / 0x1_0000 % 0x100);
                        assert(bytes@[4 * m + 2] == h / 0x100 % 0x100);
                        assert(bytes@[4 * m + 3] == h % 0x100);
                    }
                }
            }
            i = i + 1;
        }
        bytes
    }
}

/// A 32-bit value equals its four big-endian bytes reassembled.
proof fn lemma_be_word(h: int)
    requires
        0 <= h < 0x1_0000_0000,
    ensures
        (h / 0x100_0000 % 0x100) * 0x100_0000 + (h / 0x1_0000 % 0x100) * 0x1_0000 + (h / 0x100
            % 0x100) * 0x100 + h % 0x100 == h,
{
    let b0 = h / 0x100_0000 % 0x100;
    let b1 = h / 0x1_0000 % 0x100;
    let b2 = h / 0x100 % 0x100;
    let b3 = h % 0x100;
    let q1 = h / 0x100;
    let q2 = h / 0x1_0000;
    let q3 = h / 0x100_0000;
    vstd::arithmetic::div_mod::lemma_fundamental_div_mod(h, 0x100);
    vstd::arithmetic::div_mod::lemma_fundamental_div_mod(q1, 0x100);
    vstd::arithmetic::div_mod::lemma_fundamental_div_mod(q2, 0x100);
    vstd::arithmetic::div_mod::lemma_fundamental_div_mod(q3, 0x100);
    assert(h == q2 * 0x1_0000 + (q1 % 0x100) * 0x100 + h % 0x100);
    assert(h == q3 * 0x100_0000 + (q2 % 0x100) * 0x1_0000 + (q1 % 0x100) * 0x100 + h % 0x100);
    assert(q3 < 0x100);
    vstd::arithmetic::div_mod::lemma_fundamental_div_mod_converse_div(q1, 0x100, q2, q1 % 0x100);
    vstd::arithmetic::div_mod::lemma_fundamental_div_mod_converse_div(q2, 0x100, q3, q2 % 0x100);
    vstd::arithmetic::div_mod::lemma_fundamental_div_mod_converse_mod(q3, 0x100, 0, q3);
}

/// Every legal hand word, as a vector, in ascending combination order.
fn all_hand_codes() -> (r: Vec<u32>)
    ensures
        r@ == all_hands_seq(),
{
    let mut deck: Vec<u8> = Vec::new();
    let mut code: u8 = 0;
    while code < 52
        invariant
            code <= 52,
            deck@.len() == code,
            forall|i: int| 0 <= i < deck@.len() ==> #[trigger] deck@[i] == i,
        decreases 52 - code,
    {
        deck.push(code);
        code = code + 1;
    }
    proof {
        assert(deck@ =~= deck_codes());
    }
    let tuples = combos(&deck, 5);
    let ghost cs = combos_spec(deck_codes(), 5);
    proof {
        lemma_combos_elems(deck_codes(), 5);
    }
    let n = tuples.len();
    let mut r: Vec<u32> = Vec::new();
    let mut i: usize = 0;
    while i < n
        invariant
            i <= n,
            n == tuples@.len(),
            tuples@.map_values(|v: Vec<u8>| v@) == cs,
            cs == combos_spec(deck_codes(), 5),
            forall|m: int|
                0 <= m < cs.len() ==> (#[trigger] cs[m]).len() == 5 && is_subseq(
                    cs[m],
                    deck_codes(),
                ),
            r@.len() == i,
            forall|m: int| 0 <= m < i ==> #[trigger] r@[m] == pack5(cs[m]) as u32,
        decreases n - i,
    {
        let t = &tuples[i];
        proof {
            assert(tuples@.map_values(|v: Vec<u8>| v@)[i as int] == cs[i as int]);
            assert(t@ == cs[i as int]);
            lemma_combo_codes(t@);
        }
        let h = pack_codes(t);
        r.push(h);
        i = i + 1;
    }
    proof {
        assert(r@ =~= all_hands_seq());
    }
    r
}


/// The words a rank-table artifact holds, in order.
pub open spec fn parsed_words(bytes: Seq<u8>) -> Seq<u32> {
    Seq::new(N_HANDS as nat, |i: int| word_at(bytes, i))
}

/// A blob of the right length is a well-formed artifact when its words are
/// all legal hand words and none repeats.
pub open spec fn words_wf(bytes: Seq<u8>) -> bool {
    &&& forall|i: int| 0 <= i < N_HANDS ==> is_legal_hand(#[trigger] parsed_words(bytes)[i] as int)
    &&& parsed_words(bytes).no_duplicates()
}

/// As many distinct legal hand words as there are hands must be all of them.
pub proof fn lemma_legal_entries_complete(entries: Seq<u32>)
    requires
        entries.no_duplicates(),
        entries.len() == N_HANDS,
        forall|i: int| 0 <= i < entries.len() ==> is_legal_hand(#[trigger] entries[i] as int),
    ensures
        forall|h: u32| entries.contains(h) <==> is_legal_hand(h as int),
{
    broadcast use vstd::seq_lib::seq_to_set_is_finite;

    lemma_all_hands_seq();
    let all = all_hands_seq();
    let es = entries.to_set();
    let ls = all.to_set();
    entries.unique_seq_to_set();
    all.unique_seq_to_set();
    assert(es.subset_of(ls)) by {
        assert forall|h: u32| es.contains(h) implies ls.contains(h) by {
            assert(entries.contains(h));
            let i = choose|i: int| 0 <= i < entries.len() && entries[i] == h;
            assert(is_legal_hand(h as int));
            assert(all.contains(h));
        }
    }
    vstd::set_lib::lemma_subset_equality(es, ls);
    assert forall|h: u32| entries.contains(h) implies is_legal_hand(h as int) by {
        let i = choose|i: int| 0 <= i < entries.len() && entries[i] == h;
    }
    assert forall|h: u32| is_legal_hand(h as int) implies entries.contains(h) by {
        assert(all.contains(h));
        assert(ls.contains(h));
        assert(es.contains(h));
    }
}

impl RankTable {
    /// Checked deserialization of the artifact form.  A blob of the wrong
    /// length is rejected outright; one of the right length is rejected when
    /// any entry is not a legal hand word or any word repeats.  What remains
    /// is a complete table.
    #[verifier::loop_isolation(false)]
    pub fn from_bytes(bytes: &Vec<u8>) -> (r: Result<RankTable, TableError>)
        ensures
            match r {
                Ok(t) => {
                    &&& bytes@.len() == 4 * N_HANDS
                    &&& words_wf(bytes@)
                    &&& t@ == parsed_words(bytes@)
                    &&& t.complete()
                },
                Err(TableError::WrongLength) => bytes@.len() != 4 * N_HANDS,
                Err(TableError::InvalidContents) => bytes@.len() == 4 * N_HANDS && !words_wf(
                    bytes@,
                ),
            },
    {
        broadcast use vstd::std_specs::hash::group_hash_axioms;

        if bytes.len() != 4 * N_HANDS {
            return Err(TableError::WrongLength);
        }
        let ghost words = parsed_words(bytes@);
        let mut hands: Vec<u32> = Vec::new();
        let mut seen: HashMap<u32, u32> = HashMap::new();
        let mut i: usize = 0;
        while i < N_HANDS
            invariant
                i <= N_HANDS,
                bytes@.len() == 4 * N_HANDS,
                words == parsed_words(bytes@),
                hands@.len() == i,
                forall|m: int| 0 <= m < i ==> hands@[m] == words[m],
                forall|m: int| 0 <= m < i ==> is_legal_hand(#[trigger] words[m] as int),
                forall|w: u32| seen@.contains_key(w) <==> hands@.contains(w),
                hands@.no_duplicates(),
            decreases N_HANDS - i,
        {
            let b0 = bytes[4 * i];
            let b1 = bytes[4 * i + 1];
            let b2 = bytes[4 * i + 2];
            let b3 = bytes[4 * i + 3];
            let h = (b0 as u32) * 0x100_0000 + (b1 as u32) * 0x1_0000 + (b2 as u32) * 0x100
                + (b3 as u32);
            proof {
                assert(h == word_at(bytes@, i as int));
            }
            match crate::compact::SHand::from_raw(h) {
                Ok(_) => {}
                Err(_) => {
                    proof {
                        assert(!is_legal_hand(parsed_words(bytes@)[i as int] as int));
                    }
                    return Err(TableError::InvalidContents);
                }
            }
            if seen.contains_key(&h) {
                proof {
                    assert(vstd::std_specs::hash::obeys_key_model::<u32>());
                    assert(vstd::std_specs::hash::builds_valid_hashers::<
                        std::collections::hash_map::RandomState,
                    >());
                    assert(seen@.contains_key(h));
                    assert(hands@.contains(h));
                    let m = choose|m: int| 0 <= m < i && hands@[m] == h;
                    assert(parsed_words(bytes@)[m] == parsed_words(bytes@)[i as int]);
                    assert(!parsed_words(bytes@).no_duplicates());
                }
                return Err(TableError::InvalidContents);
            }
            let ghost seen_before = seen@;
            let ghost hands_before = hands@;
            seen.insert(h, i as u32);
            hands.push(h);
            proof {
                assert(vstd::std_specs::hash::obeys_key_model::<u32>());
                assert(vstd::std_specs::hash::builds_valid_hashers::<
                    std::collections::hash_map::RandomState,
                >());
                assert(seen@ == seen_before.insert(h, i as u32));
                assert(hands@ == hands_before.push(h));
                assert(!hands_before.contains(h));
                assert forall|w: u32| seen@.contains_key(w) <==> hands@.contains(w) by {
                    if w == h {
                        assert(seen@.contains_key(h));
                        assert(hands@[i as int] == h);
                        assert(hands@.contains(h));
                    } else {
                        assert(seen@.contains_key(w) <==> seen_before.contains_key(w));
                        if hands_before.contains(w) {
                            let m = choose|m: int|
                                0 <= m < hands_before.len() && hands_before[m] == w;
                            assert(hands@[m] == w);
                            assert(hands@.contains(w));
                        } else if hands@.contains(w) {
                            let m = choose|m: int| 0 <= m < hands@.len() && hands@[m] == w;
                            assert(m < i);
                            assert(hands_before[m] == w);
                        }
                    }
                }
                assert forall|a: int, b: int|
                    0 <= a < hands@.len() && 0 <= b < hands@.len() && a != b implies hands@[a]
                    != hands@[b] by {
                    if a < i && b < i {
                        assert(hands@[a] == hands_before[a]);
                        assert(hands@[b] == hands_before[b]);
                    } else if a == i {
                        assert(hands@[b] == hands_before[b]);
                        assert(hands_before.contains(hands_before[b]));
                    } else {
                        assert(hands@[a] == hands_before[a]);
                        assert(hands_before.contains(hands_before[a]));
                    }
                }
            }
            i = i + 1;
        }
        proof {
            assert(hands@ =~= parsed_words(bytes@));
            lemma_legal_entries_complete(hands@);
        }
        Ok(RankTable { hands })
    }
}

} // verus!
