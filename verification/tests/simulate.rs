//! Tests of the equity simulator: subset selection, the two modes, and the
//! concrete scenarios the design fixes.

use poker_assistant::card::{Rank, Suit};
use poker_assistant::combos::combos;
use poker_assistant::compact::{SCard, SHand};
use poker_assistant::hand_lookup::HandLookup;
use poker_assistant::model::PartialHand;
use poker_assistant::montecarlo::{score_superhand, SimParams};
use poker_assistant::table::RankTable;

fn sc(rank: Rank, suit: Suit) -> SCard {
    SCard::new(rank, suit)
}

fn deck_without(used: &[SCard]) -> Vec<SCard> {
    SCard::deck()
        .into_iter()
        .filter(|c| !used.contains(c))
        .collect()
}

fn pack(cards: &[SCard]) -> SHand {
    SHand::from_cards([cards[0], cards[1], cards[2], cards[3], cards[4]])
}

/// A seven-card holding with an embedded straight flush must score as that
/// straight flush, above every other five-card subset.
#[test]
fn best_hand_finds_embedded_straight_flush() {
    let table = RankTable::build();
    let lookup = HandLookup::new(&table);

    let sf = [
        sc(Rank::Five, Suit::Spades),
        sc(Rank::Six, Suit::Spades),
        sc(Rank::Seven, Suit::Spades),
        sc(Rank::Eight, Suit::Spades),
        sc(Rank::Nine, Suit::Spades),
    ];
    let holding = vec![
        sf[0],
        sc(Rank::Two, Suit::Hearts),
        sf[1],
        sf[2],
        sc(Rank::King, Suit::Diamonds),
        sf[3],
        sf[4],
    ];

    let (best, score) = score_superhand(&holding, &lookup);
    assert_eq!(best, pack(&sf));
    for subset in combos(&holding, 5) {
        let h = pack(&subset);
        if h != best {
            assert!(lookup.get(h).unwrap() < score);
        }
    }
}

/// The concrete two-pair scenario: sevens-queens against a paired board.
#[test]
fn two_pair_scenario_scores_queens_and_twos() {
    let table = RankTable::build();
    let lookup = HandLookup::new(&table);

    let hole = [sc(Rank::Seven, Suit::Hearts), sc(Rank::Queen, Suit::Diamonds)];
    let board = [
        sc(Rank::Two, Suit::Hearts),
        sc(Rank::Two, Suit::Diamonds),
        sc(Rank::Eight, Suit::Clubs),
        sc(Rank::King, Suit::Spades),
        sc(Rank::Queen, Suit::Hearts),
    ];
    let mut drawn = hole.to_vec();
    drawn.extend_from_slice(&board);

    let params = SimParams {
        player: PartialHand { drawn: drawn.clone(), undrawn: 0 },
        sample_deck: deck_without(&drawn),
    };
    let results = params.run_exhaustive(&lookup);
    assert_eq!(results.len(), 1);
    let r = &results[0];
    assert!(r.sampled_undrawn.is_empty());

    // Two pair, queens and twos, king kicker.
    let expected = pack(&[
        sc(Rank::Queen, Suit::Diamonds),
        sc(Rank::Queen, Suit::Hearts),
        sc(Rank::Two, Suit::Hearts),
        sc(Rank::Two, Suit::Diamonds),
        sc(Rank::King, Suit::Spades),
    ]);
    assert_eq!(r.best_hand, expected);

    // Any subset that leaves out the second pair ranks strictly below it.
    for subset in combos(&drawn, 5) {
        let twos = subset
            .iter()
            .filter(|c| c.raw() / 4 == 0)
            .count();
        let queens = subset
            .iter()
            .filter(|c| c.raw() / 4 == 10)
            .count();
        if twos < 2 || queens < 2 {
            assert!(lookup.get(pack(&subset)).unwrap() < r.score);
        }
    }
}

/// A random trial draws exactly the missing cards, all fresh ones from the
/// residual deck.
#[test]
fn random_trials_draw_from_the_residual_deck() {
    let table = RankTable::build();
    let lookup = HandLookup::new(&table);

    let drawn = vec![
        sc(Rank::Ace, Suit::Spades),
        sc(Rank::Ace, Suit::Hearts),
        sc(Rank::Ten, Suit::Clubs),
        sc(Rank::Four, Suit::Diamonds),
    ];
    let deck = deck_without(&drawn);
    let params = SimParams {
        player: PartialHand { drawn: drawn.clone(), undrawn: 2 },
        sample_deck: deck.clone(),
    };

    for _ in 0..200 {
        let r = params.run_sample(&lookup);
        assert_eq!(r.sampled_undrawn.len(), 2);
        assert_ne!(r.sampled_undrawn[0], r.sampled_undrawn[1]);
        for c in &r.sampled_undrawn {
            assert!(deck.contains(c));
            assert!(!drawn.contains(c));
        }
        assert!((r.score as usize) < 2598960);
    }
}

/// With one card to come, the exhaustive mean and a hundred-thousand-trial
/// random mean agree within standard-error bounds.
#[test]
fn exhaustive_and_random_means_agree() {
    let table = RankTable::build();
    let lookup = HandLookup::new(&table);

    let drawn = vec![
        sc(Rank::Seven, Suit::Hearts),
        sc(Rank::Queen, Suit::Diamonds),
        sc(Rank::Two, Suit::Hearts),
        sc(Rank::Nine, Suit::Clubs),
        sc(Rank::King, Suit::Spades),
    ];
    let deck = deck_without(&drawn);
    let params = SimParams {
        player: PartialHand { drawn: drawn.clone(), undrawn: 1 },
        sample_deck: deck.clone(),
    };

    let exact = params.run_exhaustive(&lookup);
    assert_eq!(exact.len() as u64, params.n_possibilities());
    assert_eq!(exact.len(), 47);
    let exact_scores: Vec<f64> = exact.iter().map(|r| r.score as f64).collect();
    let exact_mean = exact_scores.iter().sum::<f64>() / exact_scores.len() as f64;
    let variance = exact_scores
        .iter()
        .map(|s| (s - exact_mean) * (s - exact_mean))
        .sum::<f64>()
        / exact_scores.len() as f64;

    let trials = 100_000;
    let mut total = 0.0f64;
    for _ in 0..trials {
        total += params.run_sample(&lookup).score as f64;
    }
    let sampled_mean = total / trials as f64;

    // Five standard errors of headroom: far beyond any plausible noise.
    let standard_error = (variance / trials as f64).sqrt();
    assert!((sampled_mean - exact_mean).abs() < 5.0 * standard_error + 1.0);
}

/// Exhaustive mode lists one result per combination of the deck.
#[test]
fn exhaustive_mode_lists_every_completion() {
    let table = RankTable::build();
    let lookup = HandLookup::new(&table);

    let drawn = vec![
        sc(Rank::Three, Suit::Clubs),
        sc(Rank::Ten, Suit::Diamonds),
        sc(Rank::Jack, Suit::Spades),
        sc(Rank::Jack, Suit::Hearts),
        sc(Rank::Ace, Suit::Clubs),
    ];
    // A small residual deck keeps the combination count exact and tiny.
    let deck = vec![
        sc(Rank::Four, Suit::Hearts),
        sc(Rank::Five, Suit::Diamonds),
        sc(Rank::Six, Suit::Spades),
        sc(Rank::Ace, Suit::Diamonds),
    ];
    let params = SimParams {
        player: PartialHand { drawn: drawn.clone(), undrawn: 2 },
        sample_deck: deck.clone(),
    };

    assert_eq!(params.n_possibilities(), 6);
    let results = params.run_exhaustive(&lookup);
    assert_eq!(results.len(), 6);
    let expected_draws = combos(&deck, 2);
    for (r, d) in results.iter().zip(expected_draws.iter()) {
        assert_eq!(&r.sampled_undrawn, d);
        let mut full = d.clone();
        full.extend_from_slice(&drawn);
        let (best, score) = score_superhand(&full, &lookup);
        assert_eq!((r.best_hand, r.score), (best, score));
    }
}
