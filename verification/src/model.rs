//! The state a prediction works from: partially known hands and the table
//! of players.

use vstd::prelude::*;
use crate::compact::SCard;
use crate::game_repr::{Deal, spec_deal_sum};

verus! {

/// The cards one hand can come to hold; seven covers every variant here.
pub type HandVec = Vec<SCard>;

/// A hand while some of its cards are still to come: the cards drawn so
/// far, and how many are yet to be drawn.  Opponents' hidden cards are
/// tracked as a bare count, the player's own as the cards themselves.
#[derive(Debug, Clone, PartialEq, Eq)]
pub struct PartialHand<Drawn> {
    /// Cards drawn so far.
    pub drawn: Drawn,
    /// Cards yet to be drawn.
    pub undrawn: u8,
}

/// One player: hidden hole cards, cards exchanged away, and visible stud
/// cards.
#[derive(Debug, Clone, PartialEq, Eq)]
pub struct Player<Hole, Exchanged> {
    /// Cards unknown to the other players.
    pub hole: Hole,
    /// Cards exchanged with the deck.
    pub exchanged: Exchanged,
    /// Cards dealt face up.
    pub stud: PartialHand<HandVec>,
}

/// The player this prediction is for: their cards are known.
pub type ThisPlayer = Player<PartialHand<HandVec>, HandVec>;

/// Any other player: only counts of their hidden cards are known.
pub type OtherPlayer = Player<PartialHand<u8>, usize>;

impl PartialHand<HandVec> {
    /// A hand with nothing drawn and nothing to come.
    pub fn null() -> (h: Self)
        ensures
            h.drawn@ == Seq::<SCard>::empty(),
            h.undrawn == 0,
    {
        PartialHand { drawn: Vec::new(), undrawn: 0 }
    }

    /// A hand still waiting for all of its cards.
    pub fn undrawn(undrawn: u8) -> (h: Self)
        ensures
            h.drawn@ == Seq::<SCard>::empty(),
            h.undrawn == undrawn,
    {
        PartialHand { drawn: Vec::new(), undrawn }
    }

    /// Reveals cards: they move from undrawn to drawn, and the total number
    /// of cards the hand will hold stays the same.
    pub fn add_cards(&mut self, cards: &Vec<SCard>)
        requires
            cards@.len() <= old(self).undrawn,
        ensures
            final(self).drawn@ == old(self).drawn@ + cards@,
            final(self).undrawn == old(self).undrawn - cards@.len(),
            final(self).drawn@.len() + final(self).undrawn == old(self).drawn@.len() + old(
                self,
            ).undrawn,
    {
        let n = cards.len();
        let mut i: usize = 0;
        while i < n
            invariant
                i <= n,
                n == cards@.len(),
                self.drawn@ == old(self).drawn@ + cards@.subrange(0, i as int),
                self.undrawn == old(self).undrawn,
            decreases n - i,
        {
            self.drawn.push(cards[i]);
            proof {
                assert(old(self).drawn@ + cards@.subrange(0, i + 1) =~= (old(self).drawn@
                    + cards@.subrange(0, i as int)).push(cards@[i as int]));
            }
            i = i + 1;
        }
        proof {
            assert(cards@.subrange(0, n as int) =~= cards@);
        }
        self.undrawn = self.undrawn - n as u8;
    }
}

impl PartialHand<u8> {
    /// A counted hand with nothing drawn and nothing to come.
    pub fn null() -> (h: Self)
        ensures
            h.drawn == 0,
            h.undrawn == 0,
    {
        PartialHand { drawn: 0, undrawn: 0 }
    }

    /// A counted hand still waiting for all of its cards.
    pub fn undrawn(undrawn: u8) -> (h: Self)
        ensures
            h.drawn == 0,
            h.undrawn == undrawn,
    {
        PartialHand { drawn: 0, undrawn }
    }

    /// How many cards the hand will hold once fully drawn.
    pub fn total_cards(&self) -> (t: u8)
        requires
            self.drawn + self.undrawn <= u8::MAX,
        ensures
            t == self.drawn + self.undrawn,
    {
        self.drawn + self.undrawn
    }

    /// Reveals a count of cards: they move from undrawn to drawn, keeping
    /// the total the same.
    pub fn add_cards(&mut self, cards: u8)
        requires
            cards <= old(self).undrawn,
            old(self).drawn + cards <= u8::MAX,
        ensures
            final(self).drawn == old(self).drawn + cards,
            final(self).undrawn == old(self).undrawn - cards,
            final(self).drawn + final(self).undrawn == old(self).drawn + old(self).undrawn,
    {
        self.drawn = self.drawn + cards;
        self.undrawn = self.undrawn - cards;
    }
}

/// A whole game from the predicting player's point of view.
#[derive(Debug, Clone, PartialEq, Eq)]
pub struct Game {
    pub player: ThisPlayer,
    pub opponents: Vec<OtherPlayer>,
    pub community: PartialHand<HandVec>,
}

/// The visible stud cards of a roster of opponents, in roster order.
pub open spec fn spec_opponent_studs(ops: Seq<OtherPlayer>) -> Seq<SCard>
    decreases ops.len(),
{
    if ops.len() == 0 {
        Seq::<SCard>::empty()
    } else {
        spec_opponent_studs(ops.drop_last()) + ops.last().stud.drawn@
    }
}

impl Game {
    /// Sets up a game from its deals: everyone still waits for every card,
    /// and the deal counts say how many.
    pub fn from_deals(n_opponents: usize, deals: &Vec<Deal>) -> (g: Game)
        requires
            spec_deal_sum(deals@).0 <= u8::MAX,
            spec_deal_sum(deals@).1 <= u8::MAX,
            spec_deal_sum(deals@).2 <= u8::MAX,
        ensures
            g.player.hole.drawn@ == Seq::<SCard>::empty(),
            g.player.hole.undrawn == spec_deal_sum(deals@).1,
            g.player.exchanged@ == Seq::<SCard>::empty(),
            g.player.stud.drawn@ == Seq::<SCard>::empty(),
            g.player.stud.undrawn == spec_deal_sum(deals@).0,
            g.opponents@.len() == n_opponents,
            forall|i: int|
                0 <= i < n_opponents ==> {
                    let p = #[trigger] g.opponents@[i];
                    p.hole.drawn == 0 && p.hole.undrawn == spec_deal_sum(deals@).1 && p.exchanged
                        == 0 && p.stud.drawn@ == Seq::<SCard>::empty() && p.stud.undrawn
                        == spec_deal_sum(deals@).0
                },
            g.community.drawn@ == Seq::<SCard>::empty(),
            g.community.undrawn == spec_deal_sum(deals@).2,
    {
        let net = Deal::sum(deals);
        let mut opponents: Vec<OtherPlayer> = Vec::new();
        let mut i: usize = 0;
        while i < n_opponents
            invariant
                i <= n_opponents,
                opponents@.len() == i,
                forall|j: int|
                    0 <= j < i ==> {
                        let p = #[trigger] opponents@[j];
                        p.hole.drawn == 0 && p.hole.undrawn == net.hole && p.exchanged == 0
                            && p.stud.drawn@ == Seq::<SCard>::empty() && p.stud.undrawn
                            == net.stud
                    },
            decreases n_opponents - i,
        {
            opponents.push(
                Player {
                    hole: PartialHand::<u8>::undrawn(net.hole),
                    exchanged: 0,
                    stud: PartialHand::<HandVec>::undrawn(net.stud),
                },
            );
            i = i + 1;
        }
        Game {
            player: Player {
                hole: PartialHand::<HandVec>::undrawn(net.hole),
                exchanged: Vec::new(),
                stud: PartialHand::<HandVec>::undrawn(net.stud),
            },
            opponents,
            community: PartialHand::<HandVec>::undrawn(net.community),
        }
    }

    /// Every card whose place is known: the player's hole and stud cards,
    /// then each opponent's visible stud cards.
    pub fn known_existing_cards(&self) -> (r: Vec<SCard>)
        ensures
            r@ == self.player.hole.drawn@ + self.player.stud.drawn@ + spec_opponent_studs(
                self.opponents@,
            ),
    {
        let mut r: Vec<SCard> = Vec::new();
        append_cards(&mut r, &self.player.hole.drawn);
        append_cards(&mut r, &self.player.stud.drawn);
        let n = self.opponents.len();
        let mut i: usize = 0;
        while i < n
            invariant
                i <= n,
                n == self.opponents@.len(),
                r@ == self.player.hole.drawn@ + self.player.stud.drawn@ + spec_opponent_studs(
                    self.opponents@.subrange(0, i as int),
                ),
            decreases n - i,
        {
            append_cards(&mut r, &self.opponents[i].stud.drawn);
            proof {
                assert(self.opponents@.subrange(0, i + 1).drop_last() =~= self.opponents@.subrange(
                    0,
                    i as int,
                ));
                assert(self.opponents@.subrange(0, i + 1).last() == self.opponents@[i as int]);
            }
            i = i + 1;
        }
        proof {
            assert(self.opponents@.subrange(0, n as int) =~= self.opponents@);
        }
        r
    }
}

/// Appends every card of the second vector to the first.
pub(crate) fn append_cards(dst: &mut Vec<SCard>, src: &Vec<SCard>)
    ensures
        final(dst)@ == old(dst)@ + src@,
{
    let n = src.len();
    let mut i: usize = 0;
    while i < n
        invariant
            i <= n,
            n == src@.len(),
            dst@ == old(dst)@ + src@.subrange(0, i as int),
        decreases n - i,
    {
        dst.push(src[i]);
        proof {
            assert(old(dst)@ + src@.subrange(0, i + 1) =~= (old(dst)@ + src@.subrange(
                0,
                i as int,
            )).push(src@[i as int]));
        }
        i = i + 1;
    }
    proof {
        assert(src@.subrange(0, n as int) =~= src@);
    }
}

} // verus!
