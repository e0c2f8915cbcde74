//! How a poker variant deals its cards: rounds, deals, and the stock
//! descriptions of the common variants.

use vstd::prelude::*;

verus! {

/// How many cards one deal gives: face-down stud cards, hidden hole cards,
/// and shared community cards.
#[derive(Debug, Clone, Copy, PartialEq, Eq, Structural)]
pub struct Deal {
    pub stud: u8,
    pub hole: u8,
    pub community: u8,
}

/// One stage of a game: a deal of cards, or an exchange of up to a given
/// number of cards.
#[derive(Debug, Clone, PartialEq, Eq)]
pub enum Round {
    Deal { name: Option<String>, counts: Deal },
    Exchange { name: Option<String>, max: u8 },
}

/// The stud, hole and community counts of a sequence of deals, added up.
pub open spec fn spec_deal_sum(deals: Seq<Deal>) -> (int, int, int)
    decreases deals.len(),
{
    if deals.len() == 0 {
        (0, 0, 0)
    } else {
        let (s, h, c) = spec_deal_sum(deals.drop_last());
        (s + deals.last().stud, h + deals.last().hole, c + deals.last().community)
    }
}

/// Every component of a partial sum of deals stays within the whole sum.
proof fn lemma_deal_sum_prefix(deals: Seq<Deal>, j: int)
    requires
        0 <= j <= deals.len(),
    ensures
        spec_deal_sum(deals.subrange(0, j)).0 <= spec_deal_sum(deals).0,
        spec_deal_sum(deals.subrange(0, j)).1 <= spec_deal_sum(deals).1,
        spec_deal_sum(deals.subrange(0, j)).2 <= spec_deal_sum(deals).2,
    decreases deals.len() - j,
{
    if j == deals.len() {
        assert(deals.subrange(0, j) =~= deals);
    } else {
        lemma_deal_sum_prefix(deals, j + 1);
        assert(deals.subrange(0, j + 1).drop_last() =~= deals.subrange(0, j));
    }
}

impl Round {
    /// The round's display name, if it was given one.
    pub fn name(&self) -> (r: Option<&str>)
        ensures
            match *self {
                Round::Deal { ref name, .. } => match (r, name) {
                    (Some(s), Some(n)) => s@ == n@,
                    (None, None) => true,
                    _ => false,
                },
                Round::Exchange { ref name, .. } => match (r, name) {
                    (Some(s), Some(n)) => s@ == n@,
                    (None, None) => true,
                    _ => false,
                },
            },
    {
        match self {
            Round::Deal { name, .. } => match name {
                Some(n) => Some(n.as_str()),
                None => None,
            },
            Round::Exchange { name, .. } => match name {
                Some(n) => Some(n.as_str()),
                None => None,
            },
        }
    }
}

impl Deal {
    /// Adds two deals, count by count.
    pub fn add(self, rhs: Deal) -> (r: Deal)
        requires
            self.stud + rhs.stud <= u8::MAX,
            self.hole + rhs.hole <= u8::MAX,
            self.community + rhs.community <= u8::MAX,
        ensures
            r.stud == self.stud + rhs.stud,
            r.hole == self.hole + rhs.hole,
            r.community == self.community + rhs.community,
    {
        Deal {
            stud: self.stud + rhs.stud,
            hole: self.hole + rhs.hole,
            community: self.community + rhs.community,
        }
    }

    /// Adds up a whole sequence of deals.
    pub fn sum(deals: &Vec<Deal>) -> (r: Deal)
        requires
            spec_deal_sum(deals@).0 <= u8::MAX,
            spec_deal_sum(deals@).1 <= u8::MAX,
            spec_deal_sum(deals@).2 <= u8::MAX,
        ensures
            r.stud == spec_deal_sum(deals@).0,
            r.hole == spec_deal_sum(deals@).1,
            r.community == spec_deal_sum(deals@).2,
    {
        let n = deals.len();
        let mut acc = Deal { stud: 0, hole: 0, community: 0 };
        let mut i: usize = 0;
        while i < n
            invariant
                i <= n,
                n == deals@.len(),
                spec_deal_sum(deals@).0 <= u8::MAX,
                spec_deal_sum(deals@).1 <= u8::MAX,
                spec_deal_sum(deals@).2 <= u8::MAX,
                acc.stud == spec_deal_sum(deals@.subrange(0, i as int)).0,
                acc.hole == spec_deal_sum(deals@.subrange(0, i as int)).1,
                acc.community == spec_deal_sum(deals@.subrange(0, i as int)).2,
            decreases n - i,
        {
            proof {
                lemma_deal_sum_prefix(deals@, i + 1);
                assert(deals@.subrange(0, i + 1).drop_last() =~= deals@.subrange(0, i as int));
                assert(deals@.subrange(0, i + 1).last() == deals@[i as int]);
            }
            let d = deals[i];
            acc = acc.add(d);
            i = i + 1;
        }
        proof {
            assert(deals@.subrange(0, n as int) =~= deals@);
        }
        acc
    }
}

/// The deals of a sequence of rounds, in order, counted.
pub open spec fn spec_deals(rounds: Seq<Round>) -> Seq<Deal>
    decreases rounds.len(),
{
    if rounds.len() == 0 {
        Seq::<Deal>::empty()
    } else {
        spec_deals(rounds.drop_last()) + (match rounds.last() {
            Round::Deal { counts, .. } => seq![counts],
            Round::Exchange { .. } => Seq::<Deal>::empty(),
        })
    }
}

/// Keeps the deal counts of the dealing rounds, dropping exchanges.
pub fn get_deals(rounds: &Vec<Round>) -> (r: Vec<Deal>)
    ensures
        r@ == spec_deals(rounds@),
{
    let n = rounds.len();
    let mut r: Vec<Deal> = Vec::new();
    let mut i: usize = 0;
    while i < n
        invariant
            i <= n,
            n == rounds@.len(),
            r@ == spec_deals(rounds@.subrange(0, i as int)),
        decreases n - i,
    {
        proof {
            assert(rounds@.subrange(0, i + 1).drop_last() =~= rounds@.subrange(0, i as int));
            assert(rounds@.subrange(0, i + 1).last() == rounds@[i as int]);
        }
        match &rounds[i] {
            Round::Deal { counts, .. } => {
                r.push(*counts);
                proof {
                    assert(r@ =~= spec_deals(rounds@.subrange(0, i + 1)));
                }
            }
            Round::Exchange { .. } => {
                proof {
                    assert(r@ =~= spec_deals(rounds@.subrange(0, i + 1)));
                }
            }
        }
        i = i + 1;
    }
    proof {
        assert(rounds@.subrange(0, n as int) =~= rounds@);
    }
    r
}

/// Five-card draw: one five-card deal, then an exchange of up to three.
pub fn five_card_draw() -> (r: Vec<Round>)
    ensures
        r@.len() == 2,
        r@[0] matches Round::Deal { name: Some(n), counts } && n@ == "Draw"@ && counts == (Deal {
            stud: 0,
            hole: 5,
            community: 0,
        }),
        r@[1] matches Round::Exchange { name: Some(n), max } && n@ == "Exchange"@ && max == 3,
{
    let mut r: Vec<Round> = Vec::new();
    r.push(
        Round::Deal {
            name: Some("Draw".to_owned()),
            counts: Deal { stud: 0, hole: 5, community: 0 },
        },
    );
    r.push(Round::Exchange { name: Some("Exchange".to_owned()), max: 3 });
    r
}

/// Texas hold'em: two hole cards, then a three-card flop, a turn and a
/// river on the table.
pub fn holdem() -> (r: Vec<Round>)
    ensures
        r@.len() == 4,
        r@[0] matches Round::Deal { name: Some(n), counts } && n@ == "Deal"@ && counts == (Deal {
            stud: 0,
            hole: 2,
            community: 0,
        }),
        r@[1] matches Round::Deal { name: Some(n), counts } && n@ == "Flop"@ && counts == (Deal {
            stud: 0,
            hole: 0,
            community: 3,
        }),
        r@[2] matches Round::Deal { name: Some(n), counts } && n@ == "Turn"@ && counts == (Deal {
            stud: 0,
            hole: 0,
            community: 1,
        }),
        r@[3] matches Round::Deal { name: Some(n), counts } && n@ == "River"@ && counts == (Deal {
            stud: 0,
            hole: 0,
            community: 1,
        }),
{
    let mut r: Vec<Round> = Vec::new();
    r.push(
        Round::Deal {
            name: Some("Deal".to_owned()),
            counts: Deal { stud: 0, hole: 2, community: 0 },
        },
    );
    r.push(
        Round::Deal {
            name: Some("Flop".to_owned()),
            counts: Deal { stud: 0, hole: 0, community: 3 },
        },
    );
    r.push(
        Round::Deal {
            name: Some("Turn".to_owned()),
            counts: Deal { stud: 0, hole: 0, community: 1 },
        },
    );
    r.push(
        Round::Deal {
            name: Some("River".to_owned()),
            counts: Deal { stud: 0, hole: 0, community: 1 },
        },
    );
    r
}

/// Five-card stud: a hole card and a stud card up front, then three more
/// stud cards street by street.
pub fn five_card_stud() -> (r: Vec<Round>)
    ensures
        r@.len() == 4,
        r@[0] matches Round::Deal { name: Some(n), counts } && n@ == "Deal"@ && counts == (Deal {
            stud: 1,
            hole: 1,
            community: 0,
        }),
        r@[1] matches Round::Deal { name: Some(n), counts } && n@ == "Third Street"@ && counts
            == (Deal { stud: 1, hole: 0, community: 0 }),
        r@[2] matches Round::Deal { name: Some(n), counts } && n@ == "Fourth Street"@ && counts
            == (Deal { stud: 1, hole: 0, community: 0 }),
        r@[3] matches Round::Deal { name: Some(n), counts } && n@ == "Fifth Street"@ && counts
            == (Deal { stud: 1, hole: 0, community: 0 }),
{
    let mut r: Vec<Round> = Vec::new();
    r.push(
        Round::Deal {
            name: Some("Deal".to_owned()),
            counts: Deal { stud: 1, hole: 1, community: 0 },
        },
    );
    r.push(
        Round::Deal {
            name: Some("Third Street".to_owned()),
            counts: Deal { stud: 1, hole: 0, community: 0 },
        },
    );
    r.push(
        Round::Deal {
            name: Some("Fourth Street".to_owned()),
            counts: Deal { stud: 1, hole: 0, community: 0 },
        },
    );
    r.push(
        Round::Deal {
            name: Some("Fifth Street".to_owned()),
            counts: Deal { stud: 1, hole: 0, community: 0 },
        },
    );
    r
}

} // verus!
