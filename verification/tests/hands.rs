//! Tests of plain-card hands: ordering, straights, flushes, rank counts.

use poker_assistant::card::{all_cards, Card, Rank, Suit};
use poker_assistant::hand::{all_hands, Hand, RankCounts};

fn card(rank: Rank, suit: Suit) -> Card {
    Card { rank, suit }
}

#[test]
fn hand_orders_cards_descending() {
    let h = Hand::new([
        card(Rank::Two, Suit::Hearts),
        card(Rank::Ace, Suit::Spades),
        card(Rank::Seven, Suit::Clubs),
        card(Rank::King, Suit::Diamonds),
        card(Rank::Nine, Suit::Hearts),
    ]);
    let ranks: Vec<Rank> = h.iter().into_iter().map(|c| c.rank()).collect();
    assert_eq!(
        ranks,
        vec![Rank::Ace, Rank::King, Rank::Nine, Rank::Seven, Rank::Two]
    );
}

#[test]
fn straight_is_recognized() {
    let h = Hand::new([
        card(Rank::Nine, Suit::Hearts),
        card(Rank::Eight, Suit::Clubs),
        card(Rank::Seven, Suit::Spades),
        card(Rank::Six, Suit::Diamonds),
        card(Rank::Five, Suit::Hearts),
    ]);
    assert_eq!(h.is_straight(), Some(Rank::Nine));

    let broken = Hand::new([
        card(Rank::Nine, Suit::Hearts),
        card(Rank::Eight, Suit::Clubs),
        card(Rank::Seven, Suit::Spades),
        card(Rank::Six, Suit::Diamonds),
        card(Rank::Four, Suit::Hearts),
    ]);
    assert_eq!(broken.is_straight(), None);
}

#[test]
fn flush_is_recognized() {
    let h = Hand::new([
        card(Rank::Two, Suit::Clubs),
        card(Rank::Nine, Suit::Clubs),
        card(Rank::Jack, Suit::Clubs),
        card(Rank::Five, Suit::Clubs),
        card(Rank::King, Suit::Clubs),
    ]);
    assert_eq!(h.is_flush(), Some(Suit::Clubs));

    let mixed = Hand::new([
        card(Rank::Two, Suit::Clubs),
        card(Rank::Nine, Suit::Clubs),
        card(Rank::Jack, Suit::Hearts),
        card(Rank::Five, Suit::Clubs),
        card(Rank::King, Suit::Clubs),
    ]);
    assert_eq!(mixed.is_flush(), None);
}

#[test]
fn rank_counts_tally_pairs() {
    let h = Hand::new([
        card(Rank::Queen, Suit::Hearts),
        card(Rank::Queen, Suit::Diamonds),
        card(Rank::Two, Suit::Hearts),
        card(Rank::Two, Suit::Diamonds),
        card(Rank::King, Suit::Spades),
    ]);
    let counts = h.rank_counts();
    assert_eq!(counts.get(Rank::Queen), 2);
    assert_eq!(counts.get(Rank::Two), 2);
    assert_eq!(counts.get(Rank::King), 1);
    assert_eq!(counts.get(Rank::Ace), 0);

    let empty = RankCounts::new();
    assert_eq!(empty.get(Rank::Five), 0);
}

#[test]
fn all_cards_covers_the_deck() {
    let cards = all_cards();
    assert_eq!(cards.len(), 52);
    let aces = cards.iter().filter(|c| c.rank() == Rank::Ace).count();
    assert_eq!(aces, 4);
    let spades = cards.iter().filter(|c| c.suit() == Suit::Spades).count();
    assert_eq!(spades, 13);
}

#[test]
fn all_hands_counts_every_hand() {
    let hands = all_hands();
    assert_eq!(hands.len(), 2598960);
}
