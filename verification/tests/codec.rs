//! Tests of the card and hand codecs.

use std::collections::HashSet;

use poker_assistant::card::{all_cards, Card, Rank, Suit};
use poker_assistant::compact::{CodecError, SCard, SHand};

#[test]
fn roundtrip_large_cards_to_scards() {
    for lc in all_cards() {
        assert_eq!(Card::from(SCard::from(lc)), lc)
    }
}

#[test]
fn scards_have_right_data() {
    for lc in all_cards() {
        let sc = SCard::from(lc);
        assert_eq!((sc.rank(), sc.suit()), (lc.rank(), lc.suit()));
    }
}

#[test]
fn scards_generate_correctly() {
    let lcs = all_cards()
        .into_iter()
        .map(SCard::from)
        .collect::<HashSet<_>>();
    let scs = SCard::deck().into_iter().collect::<HashSet<_>>();
    assert_eq!(lcs, scs);
}

#[test]
fn hand_roundtrip() {
    // Listed in ascending code order, so the members come back as given.
    let orig = [
        SCard::new(Rank::Two, Suit::Diamonds),
        SCard::new(Rank::Two, Suit::Hearts),
        SCard::new(Rank::Eight, Suit::Clubs),
        SCard::new(Rank::Queen, Suit::Hearts),
        SCard::new(Rank::King, Suit::Spades),
    ];

    let h = SHand::from_cards(orig);

    assert_eq!(h.members(), orig);
}

#[test]
fn hand_ignores_order() {
    let a = [
        SCard::new(Rank::Eight, Suit::Clubs),
        SCard::new(Rank::Two, Suit::Hearts),
        SCard::new(Rank::Queen, Suit::Hearts),
        SCard::new(Rank::King, Suit::Spades),
        SCard::new(Rank::Two, Suit::Diamonds),
    ];
    let b = [
        SCard::new(Rank::Eight, Suit::Clubs),
        SCard::new(Rank::Queen, Suit::Hearts),
        SCard::new(Rank::Two, Suit::Diamonds),
        SCard::new(Rank::King, Suit::Spades),
        SCard::new(Rank::Two, Suit::Hearts),
    ];

    let ha = SHand::from_cards(a);
    let hb = SHand::from_cards(b);

    assert_eq!(ha, hb);
    assert_eq!(ha.raw(), hb.raw());
}

#[test]
fn card_codes_are_distinct_and_decode_back() {
    let mut seen = HashSet::new();
    for c in all_cards() {
        let sc = SCard::from(c);
        assert!(sc.raw() < 52);
        assert!(seen.insert(sc.raw()));
        let back = SCard::from_raw(sc.raw()).unwrap();
        assert_eq!(back, sc);
        assert_eq!(Card::from(back), c);
    }
    assert_eq!(seen.len(), 52);
}

#[test]
fn illegal_card_codes_are_rejected() {
    for raw in 52..=255u8 {
        assert_eq!(SCard::from_raw(raw), Err(CodecError::InvalidEncoding));
    }
    for raw in 0..52u8 {
        assert!(SCard::from_raw(raw).is_ok());
    }
}

#[test]
fn illegal_hand_words_are_rejected() {
    // All five fields zero: the same card five times over.
    assert_eq!(SHand::from_raw(0), Err(CodecError::InvalidEncoding));
    // Too high for thirty bits.
    assert_eq!(
        SHand::from_raw(0x4000_0000),
        Err(CodecError::InvalidEncoding)
    );
    // A word the packer produced decodes fine.
    let h = SHand::from_cards([
        SCard::new(Rank::Two, Suit::Clubs),
        SCard::new(Rank::Five, Suit::Hearts),
        SCard::new(Rank::Nine, Suit::Spades),
        SCard::new(Rank::Jack, Suit::Diamonds),
        SCard::new(Rank::Ace, Suit::Spades),
    ]);
    assert_eq!(SHand::from_raw(h.raw()), Ok(h));
}
