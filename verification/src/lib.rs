//! Verified core of a heads-up Texas Hold'em simulation: cards and deck,
//! combinatorial hand evaluation, winner resolution, the betting state
//! machine, and the deterministic hand-strength decision policy.

pub mod cards;
pub mod hand;
pub mod winner;
pub mod game;
pub mod ai;

pub use cards::{Card, Deck, Rank, Suit};
pub use hand::{EvaluatedHand, HandRank, evaluate_hand, find_straight_high};
pub use winner::determine_winner;
pub use game::{
    ActionMessage, GameConfig, GameStateResource, PokerAction, PokerRound, WinnerMessage,
    INITIAL_HAND_NUMBER, advance_street, check_game_flow, deal_community_card, deal_hole_card,
    distribute_pot, draw_card, get_round_name, get_valid_actions, handle_showdown, place_bet,
    process_showdown_result, setup_game, split_pot, start_hand,
};
pub use ai::{choose_action_based_on_strength, evaluate_current_hand_strength,
    perform_validated_action};
