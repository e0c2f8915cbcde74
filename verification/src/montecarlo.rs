//! The equity simulator: complete a partial hand from the residual deck and
//! score each completion.
//!
//! Exhaustive mode walks every way the missing cards could fall; random mode
//! draws one completion per trial.  Either way, each completion's best five
//! cards are found by trying all five-card subsets against the rank index.

use vstd::prelude::*;
use crate::binomial::{binom, binomial, lemma_binom_pos};
use crate::combos::{
    combos, combos_spec, is_subseq, lemma_combos_elems, lemma_combos_len, lemma_subseq_elems,
    lemma_subseq_no_dup,
};
use crate::compact::{
    SCard, SHand, is_legal_hand, lemma_encode_legal, raws_of, spec_encode_hand, valid_card_code,
};
use crate::hand_lookup::HandLookup;
use crate::model::{HandVec, PartialHand, append_cards};
use crate::sampling::{choose_from, fresh_rng};

verus! {

/// One simulation's fixed inputs.
pub struct SimParams {
    /// The cards the player owns or can still come to own: drawn cards plus
    /// a count still to be drawn.
    pub player: PartialHand<HandVec>,
    /// The residual deck the missing cards are drawn from: every card not
    /// known to sit in some hand or discard.
    pub sample_deck: HandVec,
}

/// One completion of the partial hand, scored.
pub struct SimResult {
    /// The cards drawn to complete the hand.
    pub sampled_undrawn: HandVec,
    /// The best five-card hand the completed holding contains.
    pub best_hand: SHand,
    /// That hand's absolute rank.
    pub score: u32,
}

/// Cards that can take part in a simulation: all legal, none repeated.
pub open spec fn cards_ok(cards: Seq<SCard>) -> bool {
    &&& forall|i: int| 0 <= i < cards.len() ==> valid_card_code(#[trigger] cards[i]@ as int)
    &&& cards.no_duplicates()
}

/// The hand word five cards encode to.
pub open spec fn encode_of(cards: Seq<SCard>) -> u32 {
    spec_encode_hand(raws_of(cards)) as u32
}

/// The rank index keys exactly the legal hand words.
pub open spec fn lookup_complete(m: Map<u32, u32>) -> bool {
    forall|h: u32| #[trigger] m.contains_key(h) <==> is_legal_hand(h as int)
}

/// The pair (best, score) is what best-five selection owes for this holding:
/// score is the rank of the strongest five-card subset, and best is the
/// first subset reaching it, in enumeration order.
pub open spec fn is_best_of(cards: Seq<SCard>, m: Map<u32, u32>, best: SHand, score: u32) -> bool {
    let cs = combos_spec(cards, 5);
    &&& exists|i: int|
        #![auto]
        0 <= i < cs.len() && best@ == encode_of(cs[i]) && score == m[encode_of(cs[i])] && (forall|
            j: int,
        |
            #![auto]
            0 <= j < i ==> m[encode_of(cs[j])] < score)
    &&& forall|j: int| #![auto] 0 <= j < cs.len() ==> m[encode_of(cs[j])] <= score
}

impl SimParams {
    /// What the simulator asks of its inputs: legal distinct cards, a deck
    /// disjoint from the drawn cards and large enough to finish the hand,
    /// and a holding that will hold five to seven cards.
    pub open spec fn wf(&self) -> bool {
        &&& cards_ok(self.player.drawn@)
        &&& cards_ok(self.sample_deck@)
        &&& forall|i: int, j: int|
            #![trigger self.sample_deck@[i], self.player.drawn@[j]]
            0 <= i < self.sample_deck@.len() && 0 <= j < self.player.drawn@.len()
                ==> self.sample_deck@[i] != self.player.drawn@[j]
        &&& self.player.undrawn <= self.sample_deck@.len()
        &&& 5 <= self.player.drawn@.len() + self.player.undrawn <= 7
        &&& self.sample_deck@.len() <= 52
    }

    /// How many distinct completions the deck offers.
    pub fn n_possibilities(&self) -> (n: u64)
        requires
            self.wf(),
        ensures
            n == binom(self.sample_deck@.len(), self.player.undrawn as nat),
    {
        binomial(self.sample_deck.len() as u64, self.player.undrawn as u64)
    }

    /// One random trial: draw the missing cards from the deck, then score
    /// the completed holding.  Which cards are drawn is chance; everything
    /// after the draw is pinned down.
    pub fn run_sample(&self, lookup: &HandLookup) -> (r: SimResult)
        requires
            self.wf(),
            lookup_complete(lookup@),
        ensures
            r.sampled_undrawn@.len() == self.player.undrawn,
            forall|i: int|
                0 <= i < r.sampled_undrawn@.len() ==> self.sample_deck@.contains(
                    #[trigger] r.sampled_undrawn@[i],
                ),
            r.sampled_undrawn@.no_duplicates(),
            is_best_of(
                r.sampled_undrawn@ + self.player.drawn@,
                lookup@,
                r.best_hand,
                r.score,
            ),
    {
        let mut rng = fresh_rng();
        let sampled = choose_from(&self.sample_deck, &mut rng, self.player.undrawn as usize);
        let mut cards: Vec<SCard> = Vec::new();
        append_cards(&mut cards, &sampled);
        append_cards(&mut cards, &self.player.drawn);
        proof {
            lemma_completion_ok(sampled@, self.player.drawn@, self.sample_deck@);
        }
        let (best_hand, score) = score_superhand(&cards, lookup);
        SimResult { sampled_undrawn: sampled, best_hand, score }
    }

    /// Every completion, scored: the i-th result draws the i-th combination
    /// of the deck.  With nothing left to draw this is the single result of
    /// scoring the drawn cards themselves.
    pub fn run_exhaustive(&self, lookup: &HandLookup) -> (rs: Vec<SimResult>)
        requires
            self.wf(),
            lookup_complete(lookup@),
        ensures
            rs@.len() == combos_spec(self.sample_deck@, self.player.undrawn as nat).len(),
            forall|i: int|
                0 <= i < rs@.len() ==> (#[trigger] rs@[i]).sampled_undrawn@ == combos_spec(
                    self.sample_deck@,
                    self.player.undrawn as nat,
                )[i],
            forall|i: int|
                0 <= i < rs@.len() ==> is_best_of(
                    (#[trigger] rs@[i]).sampled_undrawn@ + self.player.drawn@,
                    lookup@,
                    rs@[i].best_hand,
                    rs@[i].score,
                ),
    {
        let draws = combos(&self.sample_deck, self.player.undrawn as usize);
        let ghost cs = combos_spec(self.sample_deck@, self.player.undrawn as nat);
        proof {
            lemma_combos_elems(self.sample_deck@, self.player.undrawn as nat);
        }
        let n = draws.len();
        let mut rs: Vec<SimResult> = Vec::new();
        let mut i: usize = 0;
        while i < n
            invariant
                i <= n,
                n == draws@.len(),
                draws@.map_values(|v: Vec<SCard>| v@) == cs,
                cs == combos_spec(self.sample_deck@, self.player.undrawn as nat),
                self.wf(),
                lookup_complete(lookup@),
                forall|m: int|
                    0 <= m < cs.len() ==> (#[trigger] cs[m]).len() == self.player.undrawn
                        && is_subseq(cs[m], self.sample_deck@),
                rs@.len() == i,
                forall|m: int|
                    0 <= m < i ==> (#[trigger] rs@[m]).sampled_undrawn@ == cs[m],
                forall|m: int|
                    0 <= m < i ==> is_best_of(
                        (#[trigger] rs@[m]).sampled_undrawn@ + self.player.drawn@,
                        lookup@,
                        rs@[m].best_hand,
                        rs@[m].score,
                    ),
            decreases n - i,
        {
            let draw = &draws[i];
            proof {
                assert(draws@.map_values(|v: Vec<SCard>| v@)[i as int] == cs[i as int]);
                assert(draw@ == cs[i as int]);
                lemma_subseq_elems(draw@, self.sample_deck@);
                lemma_subseq_no_dup(draw@, self.sample_deck@);
                lemma_completion_ok(draw@, self.player.drawn@, self.sample_deck@);
            }
            let mut sampled: Vec<SCard> = Vec::new();
            append_cards(&mut sampled, draw);
            let mut cards: Vec<SCard> = Vec::new();
            append_cards(&mut cards, &sampled);
            append_cards(&mut cards, &self.player.drawn);
            let (best_hand, score) = score_superhand(&cards, lookup);
            rs.push(SimResult { sampled_undrawn: sampled, best_hand, score });
            i = i + 1;
        }
        rs
    }
}

/// A drawn completion joined to the drawn cards is fit for scoring: all
/// cards legal and no card seen twice.
proof fn lemma_completion_ok(sampled: Seq<SCard>, drawn: Seq<SCard>, deck: Seq<SCard>)
    requires
        cards_ok(drawn),
        cards_ok(deck),
        forall|i: int| 0 <= i < sampled.len() ==> deck.contains(#[trigger] sampled[i]),
        sampled.no_duplicates(),
        forall|i: int, j: int|
            #![trigger deck[i], drawn[j]]
            0 <= i < deck.len() && 0 <= j < drawn.len() ==> deck[i] != drawn[j],
    ensures
        cards_ok(sampled + drawn),
        (sampled + drawn).len() == sampled.len() + drawn.len(),
{
    let all = sampled + drawn;
    assert forall|i: int| 0 <= i < all.len() implies valid_card_code(
        #[trigger] all[i]@ as int,
    ) by {
        if i < sampled.len() {
            assert(all[i] == sampled[i]);
            let m = choose|m: int| 0 <= m < deck.len() && deck[m] == sampled[i];
        } else {
            assert(all[i] == drawn[i - sampled.len()]);
        }
    }
    assert forall|i: int, j: int|
        0 <= i < all.len() && 0 <= j < all.len() && i != j implies all[i] != all[j] by {
        if i < sampled.len() && j < sampled.len() {
            assert(all[i] == sampled[i] && all[j] == sampled[j]);
        } else if i >= sampled.len() && j >= sampled.len() {
            assert(all[i] == drawn[i - sampled.len()] && all[j] == drawn[j - sampled.len()]);
        } else {
            let (si, dj) = if i < sampled.len() {
                (i, j - sampled.len())
            } else {
                (j, i - sampled.len())
            };
            assert(all.len() == sampled.len() + drawn.len());
            let m = choose|m: int| 0 <= m < deck.len() && deck[m] == sampled[si];
            assert(deck[m] != drawn[dj]);
        }
    }
}

/// Five cards taken from a fit holding are themselves fit for encoding.
proof fn lemma_subset_ok(cards: Seq<SCard>, t: Seq<SCard>)
    requires
        cards_ok(cards),
        t.len() == 5,
        is_subseq(t, cards),
    ensures
        cards_ok(t),
        raws_of(t).len() == 5,
        forall|i: int| 0 <= i < 5 ==> raws_of(t)[i] < 52,
        raws_of(t).no_duplicates(),
    {
    lemma_subseq_elems(t, cards);
    lemma_subseq_no_dup(t, cards);
    assert forall|i: int| 0 <= i < t.len() implies valid_card_code(#[trigger] t[i]@ as int) by {
        let m = choose|m: int| 0 <= m < cards.len() && cards[m] == t[i];
    }
    assert forall|i: int| 0 <= i < 5 implies raws_of(t)[i] < 52 by {
        assert(raws_of(t)[i] == t[i]@);
    }
    assert forall|i: int, j: int|
        0 <= i < raws_of(t).len() && 0 <= j < raws_of(t).len() && i != j implies raws_of(t)[i]
        != raws_of(t)[j] by {
        assert(raws_of(t)[i] == t[i]@ && raws_of(t)[j] == t[j]@);
        assert(t[i] != t[j]);
    }
}

/// Encodes one five-card subset and looks its rank up; the lookup cannot
/// miss, because five distinct legal cards encode to a legal word.
fn rank_of_five(sub: &Vec<SCard>, lookup: &HandLookup) -> (r: (SHand, u32))
    requires
        sub@.len() == 5,
        cards_ok(sub@),
        lookup_complete(lookup@),
    ensures
        r.0@ == encode_of(sub@),
        r.1 == lookup@[encode_of(sub@)],
        lookup@.contains_key(encode_of(sub@)),
{
    let arr = [sub[0], sub[1], sub[2], sub[3], sub[4]];
    proof {
        assert(raws_of(arr@) =~= raws_of(sub@));
        assert forall|i: int| 0 <= i < 5 implies raws_of(sub@)[i] < 52 by {
            assert(raws_of(sub@)[i] == sub@[i]@);
        }
        assert forall|i: int, j: int|
            0 <= i < 5 && 0 <= j < 5 && i != j implies raws_of(sub@)[i] != raws_of(sub@)[j] by {
            assert(raws_of(sub@)[i] == sub@[i]@ && raws_of(sub@)[j] == sub@[j]@);
            assert(sub@[i] != sub@[j]);
        }
        lemma_encode_legal(raws_of(sub@));
        assert forall|i: int| 0 <= i < 5 implies valid_card_code(
            #[trigger] arr@[i]@ as int,
        ) by {
            assert(arr@[i] == sub@[i]);
        }
    }
    let sh = SHand::from_cards(arr);
    match lookup.get(sh) {
        Some(rank) => (sh, rank),
        None => {
            proof {
                assert(false);
            }
            (sh, 0)
        }
    }
}

/// Finds the strongest five-card hand inside a five-to-seven-card holding:
/// every five-card subset is encoded and ranked, and the first subset with
/// the highest rank wins.
pub fn score_superhand(hand: &Vec<SCard>, lookup: &HandLookup) -> (r: (SHand, u32))
    requires
        5 <= hand@.len() <= 7,
        cards_ok(hand@),
        lookup_complete(lookup@),
    ensures
        is_best_of(hand@, lookup@, r.0, r.1),
{
    let subsets = combos(hand, 5);
    let ghost cs = combos_spec(hand@, 5);
    proof {
        lemma_combos_elems(hand@, 5);
        lemma_combos_len(hand@, 5);
        lemma_binom_pos(hand@.len(), 5);
    }
    let first = &subsets[0];
    proof {
        assert(subsets@.map_values(|v: Vec<SCard>| v@)[0] == cs[0]);
        lemma_subset_ok(hand@, cs[0]);
    }
    let (mut best_hand, mut best_score) = rank_of_five(first, lookup);
    let ghost mut best_i: int = 0;
    let n = subsets.len();
    let mut i: usize = 1;
    while i < n
        invariant
            1 <= i <= n,
            n == subsets@.len(),
            subsets@.map_values(|v: Vec<SCard>| v@) == cs,
            cs == combos_spec(hand@, 5),
            5 <= hand@.len() <= 7,
            cards_ok(hand@),
            lookup_complete(lookup@),
            forall|m: int|
                0 <= m < cs.len() ==> (#[trigger] cs[m]).len() == 5 && is_subseq(cs[m], hand@),
            0 <= best_i < i,
            best_hand@ == encode_of(cs[best_i]),
            best_score == lookup@[encode_of(cs[best_i])],
            forall|j: int| #![auto] 0 <= j < best_i ==> lookup@[encode_of(cs[j])] < best_score,
            forall|j: int| #![auto] 0 <= j < i ==> lookup@[encode_of(cs[j])] <= best_score,
        decreases n - i,
    {
        let sub = &subsets[i];
        proof {
            assert(subsets@.map_values(|v: Vec<SCard>| v@)[i as int] == cs[i as int]);
            lemma_subset_ok(hand@, cs[i as int]);
        }
        let (sh, score) = rank_of_five(sub, lookup);
        if score > best_score {
            best_hand = sh;
            best_score = score;
            proof {
                best_i = i as int;
            }
        }
        i = i + 1;
    }
    (best_hand, best_score)
}

} // verus!
