use std::collections::HashSet;

use holdem::{
    ActionMessage, Card, Deck, GameConfig, GameStateResource, HandRank, PokerRound, Rank, Suit,
    WinnerMessage,
};
use holdem::{
    check_game_flow, deal_community_card, deal_hole_card, determine_winner, evaluate_hand,
    evaluate_current_hand_strength, handle_showdown, perform_validated_action, place_bet,
    process_showdown_result, setup_game, split_pot, start_hand,
};

fn card(rank: Rank, suit: Suit) -> Card {
    Card::new(rank, suit)
}

fn placeholder() -> Card {
    Card::default()
}

// --- Deck: 52 distinct cards, each draw decrements the count by one. ---

#[test]
fn test_deck_has_52_distinct_cards() {
    let mut deck = Deck::new();
    let mut seen: HashSet<(Rank, Suit)> = HashSet::new();
    let mut drawn: usize = 0;
    while let Some(c) = deck.draw() {
        assert!(!c.is_placeholder);
        assert!(seen.insert((c.rank, c.suit)), "duplicate card in a fresh deck");
        drawn += 1;
    }
    assert_eq!(drawn, 52);
    assert_eq!(seen.len(), 52);
}

#[test]
fn test_each_draw_decrements_by_one() {
    let mut deck = Deck::new();
    for expected in (0..52).rev() {
        assert!(deck.draw().is_some());
        assert_eq!(deck.cards_remaining(), expected);
    }
    assert!(deck.draw().is_none());
    assert_eq!(deck.cards_remaining(), 0);
}

// --- Evaluation is invariant under permutation of the card list. ---

#[test]
fn test_evaluate_permutation_invariant() {
    let a = [
        card(Rank::Ace, Suit::Hearts),
        card(Rank::Ace, Suit::Spades),
        card(Rank::King, Suit::Diamonds),
        card(Rank::King, Suit::Clubs),
        card(Rank::Ten, Suit::Hearts),
        card(Rank::Two, Suit::Spades),
        card(Rank::Eight, Suit::Diamonds),
    ];
    let b = [
        card(Rank::Eight, Suit::Diamonds),
        card(Rank::King, Suit::Clubs),
        card(Rank::Two, Suit::Spades),
        card(Rank::Ace, Suit::Spades),
        card(Rank::Ten, Suit::Hearts),
        card(Rank::Ace, Suit::Hearts),
        card(Rank::King, Suit::Diamonds),
    ];
    let ea = evaluate_hand(&a);
    let eb = evaluate_hand(&b);
    assert_eq!(ea.hand_rank, eb.hand_rank);
    assert_eq!(ea.primary_values, eb.primary_values);
    assert_eq!(ea.kickers, eb.kickers);
}

// --- Named straight-flush scenarios. ---

#[test]
fn test_royal_flush_five_cards() {
    let hand = [
        card(Rank::Ace, Suit::Hearts),
        card(Rank::King, Suit::Hearts),
        card(Rank::Queen, Suit::Hearts),
        card(Rank::Jack, Suit::Hearts),
        card(Rank::Ten, Suit::Hearts),
    ];
    let eval = evaluate_hand(&hand);
    assert_eq!(eval.hand_rank, HandRank::StraightFlush);
    assert_eq!(eval.primary_values[0], Rank::Ace);
}

#[test]
fn test_wheel_straight_flush_all_hearts() {
    let hand = [
        card(Rank::Ace, Suit::Hearts),
        card(Rank::Two, Suit::Hearts),
        card(Rank::Three, Suit::Hearts),
        card(Rank::Four, Suit::Hearts),
        card(Rank::Five, Suit::Hearts),
    ];
    let eval = evaluate_hand(&hand);
    assert_eq!(eval.hand_rank, HandRank::StraightFlush);
    assert_eq!(eval.primary_values[0], Rank::Five);
}

#[test]
fn test_two_trips_make_a_full_house() {
    let hand = [
        card(Rank::Ace, Suit::Hearts),
        card(Rank::Ace, Suit::Spades),
        card(Rank::Ace, Suit::Diamonds),
        card(Rank::King, Suit::Clubs),
        card(Rank::King, Suit::Hearts),
        card(Rank::King, Suit::Spades),
        card(Rank::Queen, Suit::Diamonds),
    ];
    let eval = evaluate_hand(&hand);
    assert_eq!(eval.hand_rank, HandRank::FullHouse);
    assert_eq!(eval.primary_values[0], Rank::Ace);
    assert_eq!(eval.primary_values[1], Rank::King);
}

// --- A higher category always outranks a lower one. ---

#[test]
fn test_low_quads_beat_high_full_house() {
    let p1 = [card(Rank::Two, Suit::Hearts), card(Rank::Two, Suit::Diamonds)];
    let p2 = [card(Rank::Ace, Suit::Hearts), card(Rank::Ace, Suit::Diamonds)];
    let community = [
        card(Rank::Two, Suit::Spades),
        card(Rank::Two, Suit::Clubs),
        card(Rank::Ace, Suit::Spades),
        card(Rank::King, Suit::Hearts),
        card(Rank::King, Suit::Diamonds),
    ];
    assert_eq!(determine_winner(&p1, &p2, &community), 0);
}

// --- Winner determination flips under swapping the hole cards. ---

#[test]
fn test_determine_winner_antisymmetric() {
    let p1 = [card(Rank::Ace, Suit::Hearts), card(Rank::King, Suit::Spades)];
    let p2 = [card(Rank::King, Suit::Hearts), card(Rank::Queen, Suit::Spades)];
    let community = [
        card(Rank::Ten, Suit::Diamonds),
        card(Rank::Jack, Suit::Clubs),
        card(Rank::Two, Suit::Hearts),
        card(Rank::Five, Suit::Spades),
        card(Rank::Eight, Suit::Diamonds),
    ];
    assert_eq!(determine_winner(&p1, &p2, &community), 0);
    assert_eq!(determine_winner(&p2, &p1, &community), 1);
}

#[test]
fn test_determine_winner_tie_is_symmetric() {
    let p1 = [card(Rank::Ace, Suit::Hearts), card(Rank::King, Suit::Spades)];
    let p2 = [card(Rank::Ace, Suit::Spades), card(Rank::King, Suit::Hearts)];
    let community = [
        card(Rank::Ten, Suit::Diamonds),
        card(Rank::Jack, Suit::Clubs),
        card(Rank::Two, Suit::Hearts),
        card(Rank::Five, Suit::Spades),
        card(Rank::Eight, Suit::Diamonds),
    ];
    assert_eq!(determine_winner(&p1, &p2, &community), -1);
    assert_eq!(determine_winner(&p2, &p1, &community), -1);
}

// --- The end-to-end scenario, checked card by card. ---

#[test]
fn test_end_to_end_ace_high_wins() {
    let p1 = [card(Rank::Ace, Suit::Hearts), card(Rank::King, Suit::Diamonds)];
    let p2 = [card(Rank::King, Suit::Hearts), card(Rank::Queen, Suit::Spades)];
    let community = [
        card(Rank::Ten, Suit::Diamonds),
        card(Rank::Jack, Suit::Clubs),
        card(Rank::Two, Suit::Hearts),
        card(Rank::Five, Suit::Spades),
        card(Rank::Eight, Suit::Diamonds),
    ];
    let mut h1: Vec<Card> = p1.to_vec();
    h1.extend_from_slice(&community);
    let e1 = evaluate_hand(&h1);
    assert_eq!(e1.hand_rank, HandRank::HighCard);
    assert_eq!(e1.primary_values[0], Rank::Ace);
    let mut h2: Vec<Card> = p2.to_vec();
    h2.extend_from_slice(&community);
    let e2 = evaluate_hand(&h2);
    assert_eq!(e2.hand_rank, HandRank::HighCard);
    assert_eq!(e2.primary_values[0], Rank::King);
    assert_eq!(determine_winner(&p1, &p2, &community), 0);
}

// --- place_bet truncates to the stack; chips never go negative. ---

#[test]
fn test_place_bet_truncates_with_existing_bet() {
    let mut gs = GameStateResource::default();
    gs.player_chips = [30, 500];
    gs.player_bets = [10, 40];
    gs.pot = 50;
    gs.current_bet = 40;
    gs.current_player = 0;

    place_bet(&mut gs, 70, false, 0);

    assert_eq!(gs.player_chips[0], 0);
    assert_eq!(gs.player_bets[0], 40);
    assert_eq!(gs.pot, 80);
    assert_eq!(gs.current_bet, 40);
}

// --- Split pot: the dealer receives the ceiling half of an odd pot. ---

#[test]
fn test_split_pot_odd_chip_goes_to_dealer_zero() {
    let mut gs = GameStateResource::default();
    gs.player_chips = [100, 100];
    gs.pot = 100;
    gs.pot_remainder = 1;
    gs.dealer_position = 0;

    split_pot(&mut gs);

    assert_eq!(gs.player_chips[0], 151);
    assert_eq!(gs.player_chips[1], 150);
    assert_eq!(gs.pot, 0);
    assert_eq!(gs.pot_remainder, 0);
    assert_eq!(gs.last_winner_message, WinnerMessage::SplitPot);
}

#[test]
fn test_split_pot_odd_chip_goes_to_dealer_one() {
    let mut gs = GameStateResource::default();
    gs.player_chips = [100, 100];
    gs.pot = 101;
    gs.pot_remainder = 0;
    gs.dealer_position = 1;

    split_pot(&mut gs);

    assert_eq!(gs.player_chips[0], 150);
    assert_eq!(gs.player_chips[1], 151);
}

// --- Hand strength, exact fixed-point values (units of 1/260). ---

#[test]
fn test_strength_preflop_clamped_to_one() {
    let mut gs = GameStateResource::default();
    gs.current_player = 0;
    gs.p1_hole = [card(Rank::Ace, Suit::Hearts), card(Rank::King, Suit::Diamonds)];
    // 10 * (14 + 13) = 270, clamped to 260 (that is, to 1.0).
    assert_eq!(evaluate_current_hand_strength(&gs), 260);
}

#[test]
fn test_strength_preflop_low_cards() {
    let mut gs = GameStateResource::default();
    gs.current_player = 0;
    gs.p1_hole = [card(Rank::Two, Suit::Hearts), card(Rank::Three, Suit::Diamonds)];
    // (2 + 3) / 26 of 260 = 50.
    assert_eq!(evaluate_current_hand_strength(&gs), 50);
}

#[test]
fn test_strength_postflop_high_card() {
    let mut gs = GameStateResource::default();
    gs.current_player = 0;
    gs.p1_hole = [card(Rank::Ace, Suit::Hearts), card(Rank::King, Suit::Diamonds)];
    gs.community_cards = [
        card(Rank::Two, Suit::Clubs),
        card(Rank::Seven, Suit::Diamonds),
        card(Rank::Nine, Suit::Spades),
        placeholder(),
        placeholder(),
    ];
    // HighCard base 26 plus 2 * 14 for the ace.
    assert_eq!(evaluate_current_hand_strength(&gs), 54);
}

#[test]
fn test_strength_postflop_pair() {
    let mut gs = GameStateResource::default();
    gs.current_player = 0;
    gs.p1_hole = [card(Rank::Ace, Suit::Hearts), card(Rank::Ace, Suit::Diamonds)];
    gs.community_cards = [
        card(Rank::Two, Suit::Clubs),
        card(Rank::Seven, Suit::Diamonds),
        card(Rank::Nine, Suit::Spades),
        placeholder(),
        placeholder(),
    ];
    // Pair base 52 plus 2 * 14 for the aces.
    assert_eq!(evaluate_current_hand_strength(&gs), 80);
}

// --- The whole turn: fold, check and bet paths of the policy. ---

#[test]
fn test_perform_weak_hand_folds_to_a_bet() {
    let mut gs = GameStateResource::default();
    gs.current_player = 0;
    gs.dealer_position = 1;
    gs.player_chips = [1000, 950];
    gs.player_bets = [0, 50];
    gs.current_bet = 50;
    gs.pot = 50;
    gs.current_round = PokerRound::PreFlop;
    gs.p1_hole = [card(Rank::Two, Suit::Hearts), card(Rank::Seven, Suit::Diamonds)];
    gs.p2_hole = [card(Rank::Ace, Suit::Hearts), card(Rank::Ace, Suit::Diamonds)];
    let config = GameConfig::default();

    perform_validated_action(&mut gs, &config);

    assert_eq!(gs.winner, Some(1));
    assert_eq!(gs.player_chips, [1000, 1000]);
    assert_eq!(gs.pot, 0);
    assert_eq!(gs.current_round, PokerRound::Showdown);
    assert_eq!(gs.last_winner_message, WinnerMessage::FoldWin { folder: 0, winner: 1 });
    assert_eq!(gs.showdown_timer, config.fold_showdown_duration_ms);
}

#[test]
fn test_perform_medium_hand_checks_and_street_advances() {
    let mut gs = GameStateResource::default();
    gs.current_player = 0;
    gs.dealer_position = 0;
    gs.player_chips = [1000, 1000];
    gs.player_bets = [0, 0];
    gs.current_bet = 0;
    gs.pot = 100;
    gs.current_round = PokerRound::Flop;
    gs.p1_hole = [card(Rank::Ace, Suit::Hearts), card(Rank::Ace, Suit::Spades)];
    gs.community_cards = [
        card(Rank::Ace, Suit::Diamonds),
        card(Rank::Seven, Suit::Clubs),
        card(Rank::Two, Suit::Spades),
        placeholder(),
        placeholder(),
    ];
    let config = GameConfig::default();

    perform_validated_action(&mut gs, &config);

    assert_eq!(gs.last_action, ActionMessage::Checked { player: 0 });
    assert_eq!(gs.current_round, PokerRound::Turn);
    assert_eq!(gs.current_player, 0);
    assert_eq!(gs.pot, 100);
    assert_eq!(gs.player_chips, [1000, 1000]);
}

#[test]
fn test_perform_strong_hand_bets() {
    let mut gs = GameStateResource::default();
    gs.current_player = 0;
    gs.dealer_position = 1;
    gs.player_chips = [1000, 1000];
    gs.player_bets = [0, 0];
    gs.current_bet = 0;
    gs.pot = 0;
    gs.current_round = PokerRound::Flop;
    gs.p1_hole = [card(Rank::Ace, Suit::Hearts), card(Rank::King, Suit::Hearts)];
    gs.community_cards = [
        card(Rank::Queen, Suit::Hearts),
        card(Rank::Jack, Suit::Hearts),
        card(Rank::Ten, Suit::Hearts),
        placeholder(),
        placeholder(),
    ];
    let config = GameConfig::default();

    perform_validated_action(&mut gs, &config);

    assert_eq!(gs.last_action, ActionMessage::BetPlaced { player: 0, amount: 50 });
    assert_eq!(gs.player_chips, [950, 1000]);
    assert_eq!(gs.player_bets, [50, 0]);
    assert_eq!(gs.pot, 50);
    assert_eq!(gs.current_bet, 50);
    assert_eq!(gs.current_round, PokerRound::Flop);
    assert_eq!(gs.current_player, 1);
}

// --- Showdown resolution and the hand lifecycle. ---

#[test]
fn test_process_showdown_awards_pot_to_winner() {
    let mut gs = GameStateResource::default();
    gs.player_chips = [900, 900];
    gs.pot = 200;
    gs.dealer_position = 0;
    gs.p1_hole = [card(Rank::Ace, Suit::Hearts), card(Rank::Ace, Suit::Diamonds)];
    gs.p2_hole = [card(Rank::King, Suit::Hearts), card(Rank::Queen, Suit::Spades)];
    gs.community_cards = [
        card(Rank::Two, Suit::Clubs),
        card(Rank::Seven, Suit::Diamonds),
        card(Rank::Nine, Suit::Spades),
        card(Rank::Four, Suit::Hearts),
        card(Rank::Jack, Suit::Clubs),
    ];

    process_showdown_result(&mut gs);

    assert_eq!(gs.winner, Some(0));
    assert_eq!(gs.player_chips, [1100, 900]);
    assert_eq!(gs.pot, 0);
    assert_eq!(gs.last_winner_message, WinnerMessage::Wins { winner: 0 });
}

#[test]
fn test_process_showdown_splits_tie() {
    let mut gs = GameStateResource::default();
    gs.player_chips = [900, 900];
    gs.pot = 200;
    gs.pot_remainder = 1;
    gs.dealer_position = 1;
    gs.p1_hole = [card(Rank::Ace, Suit::Hearts), card(Rank::King, Suit::Spades)];
    gs.p2_hole = [card(Rank::Ace, Suit::Spades), card(Rank::King, Suit::Hearts)];
    gs.community_cards = [
        card(Rank::Two, Suit::Clubs),
        card(Rank::Seven, Suit::Diamonds),
        card(Rank::Nine, Suit::Spades),
        card(Rank::Four, Suit::Hearts),
        card(Rank::Jack, Suit::Clubs),
    ];

    process_showdown_result(&mut gs);

    assert_eq!(gs.winner, None);
    assert_eq!(gs.player_chips, [1000, 1001]);
    assert_eq!(gs.pot, 0);
    assert_eq!(gs.pot_remainder, 0);
    assert_eq!(gs.last_winner_message, WinnerMessage::SplitPot);
}

#[test]
fn test_handle_showdown_resolves_and_flags_restart() {
    let mut gs = GameStateResource::default();
    gs.current_round = PokerRound::Showdown;
    gs.showdown_timer = 0;
    gs.winner = None;
    gs.player_chips = [900, 900];
    gs.pot = 100;
    gs.dealer_position = 0;
    gs.p1_hole = [card(Rank::Ace, Suit::Hearts), card(Rank::Ace, Suit::Diamonds)];
    gs.p2_hole = [card(Rank::King, Suit::Hearts), card(Rank::Queen, Suit::Spades)];
    gs.community_cards = [
        card(Rank::Two, Suit::Clubs),
        card(Rank::Seven, Suit::Diamonds),
        card(Rank::Nine, Suit::Spades),
        card(Rank::Four, Suit::Hearts),
        card(Rank::Jack, Suit::Clubs),
    ];

    handle_showdown(&mut gs);

    assert_eq!(gs.current_round, PokerRound::PreFlop);
    assert_eq!(gs.showdown_timer, -1);
    assert!(gs.needs_hand_restart);
    assert_eq!(gs.player_chips, [1000, 900]);
}

#[test]
fn test_handle_showdown_waits_for_timer() {
    let mut gs = GameStateResource::default();
    gs.current_round = PokerRound::Showdown;
    gs.showdown_timer = 2000;
    gs.pot = 100;

    handle_showdown(&mut gs);

    assert_eq!(gs.current_round, PokerRound::Showdown);
    assert_eq!(gs.pot, 100);
    assert!(!gs.needs_hand_restart);
}

#[test]
fn test_check_game_flow_counts_down_in_showdown() {
    let mut gs = GameStateResource::default();
    gs.current_round = PokerRound::Showdown;
    gs.showdown_timer = 5000;

    check_game_flow(&mut gs, 1000);
    assert_eq!(gs.showdown_timer, 4000);

    gs.current_round = PokerRound::Flop;
    check_game_flow(&mut gs, 1000);
    assert_eq!(gs.showdown_timer, 4000);
}

#[test]
fn test_setup_game_gives_starting_stacks() {
    let mut gs = GameStateResource::default();
    let config = GameConfig::default();

    setup_game(&mut gs, &config);

    assert_eq!(gs.hand_number, 0);
    assert_eq!(gs.player_chips, [1000, 1000]);
    assert_eq!(gs.player_bets, [0, 0]);
    assert_eq!(gs.current_bet, 0);
    assert_eq!(gs.winner, None);
    assert_eq!(gs.dealer_position, 0);
    assert!(gs.needs_hand_restart);
}

#[test]
fn test_start_hand_resets_and_alternates_dealer() {
    let mut gs = GameStateResource::default();
    gs.pot = 77;
    gs.pot_remainder = 1;
    gs.hand_number = 3;
    gs.dealer_position = 0;
    gs.current_bet = 50;
    gs.player_bets = [50, 50];
    gs.winner = Some(1);
    gs.current_round = PokerRound::Showdown;
    let config = GameConfig::default();

    start_hand(&mut gs, &config);

    assert_eq!(gs.pot, 0);
    assert_eq!(gs.pot_remainder, 0);
    assert_eq!(gs.current_round, PokerRound::PreFlop);
    assert_eq!(gs.last_action, ActionMessage::NewHand);
    assert_eq!(gs.hand_number, 4);
    assert_eq!(gs.dealer_position, 1);
    assert_eq!(gs.current_player, 0);
    assert_eq!(gs.player_bets, [0, 0]);
    assert_eq!(gs.current_bet, 0);
    assert_eq!(gs.winner, None);
    assert_eq!(gs.last_winner_message, WinnerMessage::Empty);
}

#[test]
fn test_start_hand_reshuffles_short_deck() {
    let mut gs = GameStateResource::default();
    while gs.deck.cards_remaining() > 5 {
        gs.deck.draw();
    }
    let config = GameConfig::default();

    start_hand(&mut gs, &config);

    assert_eq!(gs.deck.cards_remaining(), 52);
}

#[test]
fn test_start_hand_keeps_big_deck() {
    let mut gs = GameStateResource::default();
    gs.deck.draw();
    let config = GameConfig::default();

    start_hand(&mut gs, &config);

    assert_eq!(gs.deck.cards_remaining(), 51);
}

// --- Dealing into hole and community slots. ---

#[test]
fn test_deal_hole_card_stores_real_card() {
    let mut gs = GameStateResource::default();
    assert!(gs.p1_hole[0].is_placeholder);

    deal_hole_card(&mut gs, 0, 0);
    deal_hole_card(&mut gs, 0, 1);
    deal_hole_card(&mut gs, 1, 0);
    deal_hole_card(&mut gs, 1, 1);

    assert!(!gs.p1_hole[0].is_placeholder);
    assert!(!gs.p1_hole[1].is_placeholder);
    assert!(!gs.p2_hole[0].is_placeholder);
    assert!(!gs.p2_hole[1].is_placeholder);
    assert_eq!(gs.deck.cards_remaining(), 48);
}

#[test]
fn test_deal_community_card_stores_real_card() {
    let mut gs = GameStateResource::default();

    for i in 0..5 {
        deal_community_card(&mut gs, i);
    }

    for i in 0..5 {
        assert!(!gs.community_cards[i].is_placeholder);
    }
    assert_eq!(gs.deck.cards_remaining(), 47);
}

// --- Small card helpers. ---

#[test]
fn test_card_display_helpers() {
    let c = card(Rank::Ten, Suit::Hearts);
    assert_eq!(c.rank_str(), "10");
    assert_eq!(c.suit_str(), "\u{2665}");
    assert!(c.is_red());
    let d = card(Rank::Ace, Suit::Spades);
    assert_eq!(d.rank_str(), "A");
    assert_eq!(d.suit_str(), "\u{2660}");
    assert!(!d.is_red());
}

#[test]
fn test_score_exposes_category_and_primaries() {
    let hand = [
        card(Rank::Ace, Suit::Hearts),
        card(Rank::Ace, Suit::Spades),
        card(Rank::King, Suit::Diamonds),
        card(Rank::Ten, Suit::Clubs),
        card(Rank::Five, Suit::Hearts),
    ];
    let eval = evaluate_hand(&hand);
    let (rank, primaries) = eval.score();
    assert_eq!(rank, HandRank::Pair);
    assert_eq!(primaries[0], Rank::Ace);
}
