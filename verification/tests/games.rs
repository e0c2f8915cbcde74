//! Tests of the game descriptions, the prediction model, and the counting
//! helpers.

use poker_assistant::binomial::binomial;
use poker_assistant::combos::combos;
use poker_assistant::compact::SCard;
use poker_assistant::card::{Rank, Suit};
use poker_assistant::game_repr::{five_card_draw, five_card_stud, get_deals, holdem, Deal, Round};
use poker_assistant::model::{Game, HandVec, PartialHand, Player};

#[test]
fn montecarlo_get_possible_hands_works_equal_size() {
    let result = combos(&vec![1, 2], 2);

    let expected: Vec<Vec<i32>> = vec![vec![1, 2]];

    assert_eq!(result, expected);
}

#[test]
fn montecarlo_get_possible_hands_works() {
    let result = combos(&vec![10, 11, 12, 13, 14], 3);

    let expected: Vec<Vec<i32>> = vec![
        vec![10, 11, 12],
        vec![10, 11, 13],
        vec![10, 11, 14],
        vec![10, 12, 13],
        vec![10, 12, 14],
        vec![10, 13, 14],
        vec![11, 12, 13],
        vec![11, 12, 14],
        vec![11, 13, 14],
        vec![12, 13, 14],
    ];

    assert_eq!(result, expected);
}

#[test]
fn from_deals_works_for_holdem() {
    let game = Game::from_deals(2, &get_deals(&holdem()));

    assert_eq!(
        game,
        Game {
            player: Player {
                hole: PartialHand::<HandVec>::undrawn(2),
                exchanged: vec![],
                stud: PartialHand::<HandVec>::undrawn(0)
            },
            opponents: vec![
                Player {
                    hole: PartialHand::<u8>::undrawn(2),
                    exchanged: 0,
                    stud: PartialHand::<HandVec>::undrawn(0)
                };
                2
            ],
            community: PartialHand::<HandVec>::undrawn(5)
        }
    )
}

#[test]
fn holdem_deals_add_up() {
    let deals = get_deals(&holdem());
    assert_eq!(deals.len(), 4);
    let net = Deal::sum(&deals);
    assert_eq!((net.stud, net.hole, net.community), (0, 2, 5));
}

#[test]
fn five_card_stud_deals_add_up() {
    let deals = get_deals(&five_card_stud());
    assert_eq!(deals.len(), 4);
    let net = Deal::sum(&deals);
    assert_eq!((net.stud, net.hole, net.community), (4, 1, 0));
}

#[test]
fn five_card_draw_keeps_exchange_round() {
    let rounds = five_card_draw();
    assert_eq!(rounds.len(), 2);
    assert_eq!(rounds[0].name(), Some("Draw"));
    assert_eq!(rounds[1].name(), Some("Exchange"));
    assert!(matches!(rounds[1], Round::Exchange { max: 3, .. }));
    let deals = get_deals(&rounds);
    assert_eq!(deals.len(), 1);
    assert_eq!((deals[0].stud, deals[0].hole, deals[0].community), (0, 5, 0));
}

#[test]
fn round_without_name() {
    let r = Round::Exchange { name: None, max: 1 };
    assert_eq!(r.name(), None);
}

#[test]
fn add_cards_moves_undrawn_to_drawn() {
    let mut hand = PartialHand::<HandVec>::undrawn(5);
    let cards = vec![
        SCard::new(Rank::Ace, Suit::Spades),
        SCard::new(Rank::Two, Suit::Hearts),
    ];
    hand.add_cards(&cards);
    assert_eq!(hand.drawn, cards);
    assert_eq!(hand.undrawn, 3);
    assert_eq!(hand.drawn.len() + hand.undrawn as usize, 5);

    let mut counted = PartialHand::<u8>::undrawn(4);
    counted.add_cards(3);
    assert_eq!((counted.drawn, counted.undrawn), (3, 1));
    assert_eq!(counted.total_cards(), 4);
}

#[test]
fn known_existing_cards_lists_everything_in_order() {
    let mut game = Game::from_deals(1, &get_deals(&five_card_stud()));
    let hole = vec![SCard::new(Rank::Ace, Suit::Clubs)];
    let stud = vec![SCard::new(Rank::King, Suit::Clubs)];
    let opp_stud = vec![SCard::new(Rank::Queen, Suit::Clubs)];
    game.player.hole.add_cards(&hole);
    game.player.stud.add_cards(&stud);
    game.opponents[0].stud.add_cards(&opp_stud);

    let known = game.known_existing_cards();
    assert_eq!(known, vec![hole[0], stud[0], opp_stud[0]]);
}

#[test]
fn binomial_matches_known_values() {
    assert_eq!(binomial(52, 5), 2598960);
    assert_eq!(binomial(47, 2), 1081);
    assert_eq!(binomial(7, 5), 21);
    assert_eq!(binomial(5, 0), 1);
    assert_eq!(binomial(4, 5), 0);
}
