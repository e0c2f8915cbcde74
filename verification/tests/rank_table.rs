//! Tests of the rank table, its artifact form, and the lookup index.

use poker_assistant::card::{Card, Rank, Suit};
use poker_assistant::compact::{SCard, SHand};
use poker_assistant::hand_lookup::{HandLookup, Idx};
use poker_assistant::table::{RankTable, TableError, N_HANDS};

fn royal_flush(suit: Suit) -> [SCard; 5] {
    [
        SCard::new(Rank::Ace, suit),
        SCard::new(Rank::King, suit),
        SCard::new(Rank::Queen, suit),
        SCard::new(Rank::Jack, suit),
        SCard::new(Rank::Ten, suit),
    ]
}

#[test]
fn correct_number_of_hands() {
    assert_eq!(N_HANDS, 2598960);
    let table = RankTable::build();
    assert_eq!(table.len(), 2598960);
}

#[test]
fn correct_number_of_bytes() {
    let table = RankTable::build();
    assert_eq!(table.to_bytes().len(), 2598960 * 4);
}

#[test]
fn lookup_royal_flush() {
    let table = RankTable::build();
    let lookup = HandLookup::new(&table);

    let hand = royal_flush(Suit::Spades).to_vec();
    let hand = SHand::from_cards([hand[0], hand[1], hand[2], hand[3], hand[4]]);

    assert!(lookup.get(hand).unwrap() > 2598960 - 4);
}

#[test]
fn run_lookup() {
    let table = RankTable::build();
    let lookup = HandLookup::new(&table);

    let cards = vec![
        Card { rank: Rank::Eight, suit: Suit::Clubs },
        Card { rank: Rank::Queen, suit: Suit::Hearts },
        Card { rank: Rank::Two, suit: Suit::Diamonds },
        Card { rank: Rank::King, suit: Suit::Spades },
        Card { rank: Rank::Two, suit: Suit::Hearts },
    ];
    let packed = SHand::from_cards([
        SCard::from(cards[0]),
        SCard::from(cards[1]),
        SCard::from(cards[2]),
        SCard::from(cards[3]),
        SCard::from(cards[4]),
    ]);
    assert_eq!(cards.to_shand(), packed);

    assert_eq!(lookup.get(cards), lookup.get(packed));
    assert!(lookup.get(packed).is_some());
}

#[test]
fn lib_build_reverse_lookup_works() {
    let table = RankTable::build();
    HandLookup::new(&table);
}

#[test]
fn hand_lookup_build_reverse_lookup_works() {
    let table = RankTable::build();
    HandLookup::new(&table);
}

#[test]
fn top_four_ranks_are_the_royal_flushes() {
    let table = RankTable::build();
    let lookup = HandLookup::new(&table);

    // Exactly the four royal flushes take the top four ranks.
    let mut top: Vec<u32> = (N_HANDS - 4..N_HANDS)
        .map(|rank| table.hand_at(rank))
        .collect();
    let mut royals: Vec<u32> = [Suit::Clubs, Suit::Diamonds, Suit::Hearts, Suit::Spades]
        .into_iter()
        .map(|s| SHand::from_cards(royal_flush(s)).raw())
        .collect();
    top.sort();
    royals.sort();
    assert_eq!(top, royals);

    for s in [Suit::Clubs, Suit::Diamonds, Suit::Hearts, Suit::Spades] {
        let rank = lookup.get(SHand::from_cards(royal_flush(s))).unwrap();
        assert!(rank as usize >= N_HANDS - 4);
    }
}

#[test]
fn weakest_rank_is_an_unpaired_low_hand() {
    let table = RankTable::build();

    let weakest = SHand::from_raw(table.hand_at(0)).unwrap();
    let members = weakest.members();
    // No two cards share a rank, no five share a suit, and the high card is
    // as low as an unpaired non-straight hand can go: a seven.
    let mut ranks: Vec<u8> = members.iter().map(|c| c.raw() / 4).collect();
    let suits: Vec<u8> = members.iter().map(|c| c.raw() % 4).collect();
    ranks.sort();
    for w in ranks.windows(2) {
        assert!(w[0] < w[1]);
    }
    assert!(suits.iter().any(|&s| s != suits[0]));
    assert_eq!(ranks, vec![0, 1, 2, 3, 5]);
}

#[test]
fn artifact_round_trips() {
    let table = RankTable::build();
    let bytes = table.to_bytes();
    let back = RankTable::from_bytes(&bytes).unwrap();
    assert_eq!(back.len(), table.len());
    for rank in [0usize, 1, 500_000, N_HANDS - 2, N_HANDS - 1] {
        assert_eq!(back.hand_at(rank), table.hand_at(rank));
    }
}

#[test]
fn artifact_of_wrong_length_is_rejected() {
    assert!(matches!(
        RankTable::from_bytes(&vec![0u8; 8]),
        Err(TableError::WrongLength)
    ));
    assert!(matches!(
        RankTable::from_bytes(&Vec::new()),
        Err(TableError::WrongLength)
    ));
    assert!(matches!(
        RankTable::from_bytes(&vec![0u8; N_HANDS * 4 + 4]),
        Err(TableError::WrongLength)
    ));
}

#[test]
fn artifact_with_illegal_words_is_rejected() {
    // The right length, but every word is zero: not a hand at all.
    assert!(matches!(
        RankTable::from_bytes(&vec![0u8; N_HANDS * 4]),
        Err(TableError::InvalidContents)
    ));
}

#[test]
fn corrupted_artifact_is_rejected() {
    let table = RankTable::build();
    let mut bytes = table.to_bytes();
    // Overwrite the first entry with an out-of-range word.
    bytes[0] = 0xff;
    bytes[1] = 0xff;
    bytes[2] = 0xff;
    bytes[3] = 0xff;
    assert!(matches!(
        RankTable::from_bytes(&bytes),
        Err(TableError::InvalidContents)
    ));
}
