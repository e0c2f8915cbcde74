//! Plain playing cards: ranks, suits, and the 52-card deck.

use vstd::prelude::*;

verus! {

/// The thirteen card ranks, deuce low and ace high.
#[derive(Clone, Copy, Debug, PartialEq, Eq, Hash, Structural)]
pub enum Rank {
    Two,
    Three,
    Four,
    Five,
    Six,
    Seven,
    Eight,
    Nine,
    Ten,
    Jack,
    Queen,
    King,
    Ace,
}

/// The four suits, in the order the compact encoding numbers them.
#[derive(Clone, Copy, Debug, PartialEq, Eq, Hash, Structural)]
pub enum Suit {
    Clubs,
    Diamonds,
    Hearts,
    Spades,
}

/// Position of a rank in the deuce-to-ace order.
pub open spec fn rank_index(r: Rank) -> int {
    match r {
        Rank::Two => 0,
        Rank::Three => 1,
        Rank::Four => 2,
        Rank::Five => 3,
        Rank::Six => 4,
        Rank::Seven => 5,
        Rank::Eight => 6,
        Rank::Nine => 7,
        Rank::Ten => 8,
        Rank::Jack => 9,
        Rank::Queen => 10,
        Rank::King => 11,
        Rank::Ace => 12,
    }
}

/// Position of a suit in the clubs-diamonds-hearts-spades order.
pub open spec fn suit_index(s: Suit) -> int {
    match s {
        Suit::Clubs => 0,
        Suit::Diamonds => 1,
        Suit::Hearts => 2,
        Suit::Spades => 3,
    }
}

/// The rank at a given position of the deuce-to-ace order; positions past
/// the last rank all give the ace.
pub open spec fn spec_rank_from_index(i: int) -> Rank {
    if i == 0 {
        Rank::Two
    } else if i == 1 {
        Rank::Three
    } else if i == 2 {
        Rank::Four
    } else if i == 3 {
        Rank::Five
    } else if i == 4 {
        Rank::Six
    } else if i == 5 {
        Rank::Seven
    } else if i == 6 {
        Rank::Eight
    } else if i == 7 {
        Rank::Nine
    } else if i == 8 {
        Rank::Ten
    } else if i == 9 {
        Rank::Jack
    } else if i == 10 {
        Rank::Queen
    } else if i == 11 {
        Rank::King
    } else {
        Rank::Ace
    }
}

/// The suit at a given position of the clubs-to-spades order; positions past
/// the last suit all give spades.
pub open spec fn spec_suit_from_index(i: int) -> Suit {
    if i == 0 {
        Suit::Clubs
    } else if i == 1 {
        Suit::Diamonds
    } else if i == 2 {
        Suit::Hearts
    } else {
        Suit::Spades
    }
}

impl Rank {
    /// Position of this rank in the deuce-to-ace order.
    pub fn index(self) -> (i: u8)
        ensures
            i == rank_index(self),
    {
        match self {
            Rank::Two => 0,
            Rank::Three => 1,
            Rank::Four => 2,
            Rank::Five => 3,
            Rank::Six => 4,
            Rank::Seven => 5,
            Rank::Eight => 6,
            Rank::Nine => 7,
            Rank::Ten => 8,
            Rank::Jack => 9,
            Rank::Queen => 10,
            Rank::King => 11,
            Rank::Ace => 12,
        }
    }

    /// The rank standing at a given position of the deuce-to-ace order.
    pub fn from_index(i: u8) -> (r: Rank)
        requires
            i < 13,
        ensures
            rank_index(r) == i,
            r == spec_rank_from_index(i as int),
    {
        if i == 0 {
            Rank::Two
        } else if i == 1 {
            Rank::Three
        } else if i == 2 {
            Rank::Four
        } else if i == 3 {
            Rank::Five
        } else if i == 4 {
            Rank::Six
        } else if i == 5 {
            Rank::Seven
        } else if i == 6 {
            Rank::Eight
        } else if i == 7 {
            Rank::Nine
        } else if i == 8 {
            Rank::Ten
        } else if i == 9 {
            Rank::Jack
        } else if i == 10 {
            Rank::Queen
        } else if i == 11 {
            Rank::King
        } else {
            Rank::Ace
        }
    }
}

impl Suit {
    /// Position of this suit in the clubs-diamonds-hearts-spades order.
    pub fn index(self) -> (i: u8)
        ensures
            i == suit_index(self),
    {
        match self {
            Suit::Clubs => 0,
            Suit::Diamonds => 1,
            Suit::Hearts => 2,
            Suit::Spades => 3,
        }
    }

    /// The suit standing at a given position of the clubs-to-spades order.
    pub fn from_index(i: u8) -> (s: Suit)
        requires
            i < 4,
        ensures
            suit_index(s) == i,
            s == spec_suit_from_index(i as int),
    {
        if i == 0 {
            Suit::Clubs
        } else if i == 1 {
            Suit::Diamonds
        } else if i == 2 {
            Suit::Hearts
        } else {
            Suit::Spades
        }
    }
}

/// A playing card: one of the 52 rank-and-suit pairs.
#[derive(Clone, Copy, Debug, PartialEq, Eq, Hash, Structural)]
pub struct Card {
    pub rank: Rank,
    pub suit: Suit,
}

/// Position of a card in the deck order: grouped by rank, suits in order
/// within each rank.
pub open spec fn card_index(c: Card) -> int {
    rank_index(c.rank) * 4 + suit_index(c.suit)
}

impl Card {
    /// The card's rank.
    pub fn rank(&self) -> (r: Rank)
        ensures
            r == self.rank,
    {
        self.rank
    }

    /// The card's suit.
    pub fn suit(&self) -> (s: Suit)
        ensures
            s == self.suit,
    {
        self.suit
    }
}

/// Every card of the deck, one of each rank-and-suit pair, in deck order.
pub fn all_cards() -> (cards: Vec<Card>)
    ensures
        cards@.len() == 52,
        forall|i: int| 0 <= i < 52 ==> card_index(#[trigger] cards@[i]) == i,
{
    let mut cards: Vec<Card> = Vec::new();
    let mut ri: u8 = 0;
    while ri < 13
        invariant
            ri <= 13,
            cards@.len() == ri * 4,
            forall|i: int| 0 <= i < cards@.len() ==> card_index(#[trigger] cards@[i]) == i,
        decreases 13 - ri,
    {
        let mut si: u8 = 0;
        while si < 4
            invariant
                ri < 13,
                si <= 4,
                cards@.len() == ri * 4 + si,
                forall|i: int| 0 <= i < cards@.len() ==> card_index(#[trigger] cards@[i]) == i,
            decreases 4 - si,
        {
            cards.push(Card { rank: Rank::from_index(ri), suit: Suit::from_index(si) });
            si = si + 1;
        }
        ri = ri + 1;
    }
    cards
}

} // verus!
