//! The decision policy: a hand-strength heuristic and the deterministic
//! action choice from strength, position and pot odds, driving the whole
//! betting turn.
//!
//! Strength is held in exact rational arithmetic, in units of 1/260 of
//! the interval [0, 1]: every quantity of the policy (category bases in
//! steps of 26/260, the primary-rank nudge of 2/260 per rank point, the
//! position bonuses of 26/260 and 13/260, and the thresholds) is an
//! integer in these units, so no rounding enters any comparison.

use vstd::prelude::*;
use crate::cards::{Card, rank_ord, rank_value};
use crate::hand::{evaluate_hand, hand_rank_ord, hand_rank_value, ranks_of, spec_category,
    spec_primary};
use crate::game::{ActionMessage, GameConfig, GameStateResource, PokerAction, PokerRound,
    WinnerMessage, advance_street, get_valid_actions, place_bet, spec_advance_street,
    spec_place_bet, spec_valid_actions, street_settled, total_money, upd2, wf};

verus! {

/// The real (non-placeholder) cards of `s`, in order.
pub open spec fn real_cards(s: Seq<Card>) -> Seq<Card>
    decreases s.len(),
{
    if s.len() == 0 {
        Seq::empty()
    } else {
        let rest = real_cards(s.drop_last());
        if !s.last().is_placeholder {
            rest.push(s.last())
        } else {
            rest
        }
    }
}

/// Step lemma for the loop that filters out placeholder cards.
proof fn lemma_real_cards_take_step(s: Seq<Card>, i: int)
    requires
        0 <= i < s.len(),
    ensures
        real_cards(s.take(i + 1)) == if !s[i].is_placeholder {
            real_cards(s.take(i)).push(s[i])
        } else {
            real_cards(s.take(i))
        },
{
    assert(s.take(i + 1).drop_last() =~= s.take(i));
    assert(s.take(i + 1).last() == s[i]);
}

/// Sum of the rank ordinals of all cards in the list, placeholders
/// included (a placeholder counts as its nominal Two).
pub open spec fn rank_sum(s: Seq<Card>) -> int
    decreases s.len(),
{
    if s.len() == 0 {
        0
    } else {
        rank_sum(s.drop_last()) + rank_ord(s.last().rank)
    }
}

proof fn lemma_rank_sum_take_step(s: Seq<Card>, i: int)
    requires
        0 <= i < s.len(),
    ensures
        rank_sum(s.take(i + 1)) == rank_sum(s.take(i)) + rank_ord(s[i].rank),
{
    assert(s.take(i + 1).drop_last() =~= s.take(i));
    assert(s.take(i + 1).last() == s[i]);
}

/// The cards the acting player sees: both hole cards as stored, plus the
/// community cards revealed so far.
pub open spec fn current_cards(s: GameStateResource) -> Seq<Card> {
    let hole = if s.current_player == 0 {
        s.p1_hole@
    } else {
        s.p2_hole@
    };
    hole + real_cards(s.community_cards@)
}

/// Hand strength in units of 1/260. Before the flop (fewer than five
/// visible cards) it is the average of the hole ranks normalised by 13,
/// clamped to 1; after the flop it is a category base stepping by 26
/// (0.1) per category plus a nudge of 2 (1/130) per point of the top
/// primary rank, so the category always dominates.
pub open spec fn spec_strength(s: GameStateResource) -> int {
    let cc = current_cards(s);
    if cc.len() < 5 {
        let raw = 10 * rank_sum(cc);
        if raw > 260 {
            260
        } else {
            raw
        }
    } else {
        let p0: int = if spec_primary(cc).len() > 0 {
            spec_primary(cc)[0]
        } else {
            2
        };
        26 * (hand_rank_ord(spec_category(cc)) + 1) + 2 * p0
    }
}

/// Evaluates the acting player's hand strength, in units of 1/260 of the
/// interval [0, 1] (so 260 is the strongest; a straight flush can nudge
/// slightly above).
pub fn evaluate_current_hand_strength(game_state: &GameStateResource) -> (st: u32)
    ensures
        st as int == spec_strength(*game_state),
{
    let ghost comm = game_state.community_cards@;
    let mut cards: Vec<Card> = Vec::new();
    if game_state.current_player == 0 {
        cards.push(game_state.p1_hole[0]);
        cards.push(game_state.p1_hole[1]);
    } else {
        cards.push(game_state.p2_hole[0]);
        cards.push(game_state.p2_hole[1]);
    }
    let ghost hole = cards@;
    let mut i: usize = 0;
    while i < 5
        invariant
            comm == game_state.community_cards@,
            comm.len() == 5,
            i <= 5,
            cards@ == hole + real_cards(comm.take(i as int)),
        decreases 5 - i,
    {
        let c = game_state.community_cards[i];
        proof {
            lemma_real_cards_take_step(comm, i as int);
        }
        if !c.is_placeholder {
            cards.push(c);
        }
        i = i + 1;
    }
    proof {
        assert(comm.take(5) =~= comm);
        assert(cards@ == current_cards(*game_state));
    }

    if cards.len() < 5 {
        // Pre-flop estimate: normalised average of the visible ranks.
        let ghost cc = cards@;
        let mut sum: u32 = 0;
        let mut j: usize = 0;
        while j < cards.len()
            invariant
                cc == cards@,
                j <= cc.len(),
                cc.len() < 5,
                sum == rank_sum(cc.take(j as int)),
                sum <= 14 * j,
            decreases cc.len() - j,
        {
            proof {
                lemma_rank_sum_take_step(cc, j as int);
            }
            sum = sum + rank_value(cards[j].rank) as u32;
            j = j + 1;
        }
        proof {
            assert(cc.take(cc.len() as int) =~= cc);
        }
        let raw = 10 * sum;
        if raw > 260 {
            260
        } else {
            raw
        }
    } else {
        let ev = evaluate_hand(cards.as_slice());
        let p0: u8 = if ev.primary_values.len() > 0 {
            proof {
                assert(ranks_of(ev.primary_values@)[0] == rank_ord(ev.primary_values@[0]));
            }
            rank_value(ev.primary_values[0])
        } else {
            2
        };
        let base = hand_rank_value(ev.hand_rank);
        26 * (base as u32 + 1) + 2 * (p0 as u32)
    }
}

/// What the acting player still owes to match the current bet.
pub open spec fn spec_to_call(s: GameStateResource) -> int {
    let bet = s.player_bets@[s.current_player as int] as int;
    if s.current_bet >= bet {
        s.current_bet - bet
    } else {
        0
    }
}

/// The decision ladder, in units of 1/260: the position bonus is 26
/// (0.1), the pre-flop dealer bonus 13 (0.05) and non-dealer penalty -13;
/// the fold, call and raise thresholds are 65 (0.25), 130 (0.5) and 182
/// (0.7), with 104 (0.4) and 78 (0.3) as secondary bounds. Pot-odds
/// comparisons against 0.3, 0.25 and 0.2 are exact cross-multiplications.
pub open spec fn spec_choose_action(
    actions: Seq<PokerAction>,
    strength: int,
    s: GameStateResource,
) -> PokerAction {
    let to_call = spec_to_call(s);
    let pot_size = s.pot + s.pot_remainder;
    let is_dealer = s.current_player == s.dealer_position;
    let with_bonus = strength + (if is_dealer { 26int } else { 0int });
    let adjusted: int = if with_bonus > 260 { 260 } else { with_bonus };
    let adj2: int = if s.current_round == PokerRound::PreFlop {
        adjusted + (if is_dealer { 13int } else { -13int })
    } else {
        adjusted
    };
    let final_strength: int = if adj2 < 0 { 0 } else if adj2 > 260 { 260 } else { adj2 };
    let odds_bad = to_call > 0 && 7 * to_call > 3 * pot_size;
    let odds_call_ok = to_call == 0 || 3 * to_call < pot_size;
    let odds_good = to_call == 0 || 4 * to_call < pot_size;
    if (final_strength < 65 || (final_strength < 104 && odds_bad))
        && actions.contains(PokerAction::Fold) && to_call > 0 {
        PokerAction::Fold
    } else if final_strength >= 182 && actions.contains(PokerAction::Raise) {
        PokerAction::Raise
    } else if final_strength >= 182 && actions.contains(PokerAction::Bet) {
        PokerAction::Bet
    } else if 130 <= final_strength && final_strength < 182 && actions.contains(
        PokerAction::Check,
    ) {
        PokerAction::Check
    } else if 130 <= final_strength && final_strength < 182 && actions.contains(PokerAction::Call)
        && odds_call_ok {
        PokerAction::Call
    } else if 78 <= final_strength && final_strength < 130 && actions.contains(
        PokerAction::Check,
    ) {
        PokerAction::Check
    } else if 78 <= final_strength && final_strength < 130 && actions.contains(PokerAction::Call)
        && odds_good {
        PokerAction::Call
    } else if actions.contains(PokerAction::Check) {
        PokerAction::Check
    } else {
        actions[0]
    }
}

/// The chosen action is always one of the offered actions.
pub proof fn lemma_choose_in_actions(actions: Seq<PokerAction>, strength: int, s: GameStateResource)
    requires
        actions.len() > 0,
    ensures
        actions.contains(spec_choose_action(actions, strength, s)),
{
    assert(actions.contains(actions[0]));
}

/// Whether `x` occurs in the action list.
fn contains_action(actions: &Vec<PokerAction>, x: PokerAction) -> (b: bool)
    ensures
        b == actions@.contains(x),
{
    let mut i: usize = 0;
    while i < actions.len()
        invariant
            i <= actions@.len(),
            forall|j: int| 0 <= j < i ==> actions@[j] != x,
        decreases actions@.len() - i,
    {
        if actions[i] == x {
            return true;
        }
        i = i + 1;
    }
    false
}

/// Chooses an action from the legal set using strength, position and pot
/// odds, by the deterministic decision ladder.
pub fn choose_action_based_on_strength(
    actions: &Vec<PokerAction>,
    strength: u32,
    game_state: &GameStateResource,
) -> (action: PokerAction)
    requires
        actions@.len() > 0,
        game_state.current_player < 2,
    ensures
        action == spec_choose_action(actions@, strength as int, *game_state),
{
    let current_bet = game_state.current_bet;
    let player_bet = game_state.player_bets[game_state.current_player];
    let to_call: u64 = if current_bet >= player_bet {
        (current_bet - player_bet) as u64
    } else {
        0
    };
    let pot_size: u64 = game_state.pot as u64 + game_state.pot_remainder as u64;

    let is_dealer = game_state.current_player == game_state.dealer_position;
    let with_bonus: u64 = strength as u64 + (if is_dealer { 26 } else { 0 });
    let adjusted: u64 = if with_bonus > 260 {
        260
    } else {
        with_bonus
    };
    let adj2: u64 = if matches!(game_state.current_round, PokerRound::PreFlop) {
        if is_dealer {
            adjusted + 13
        } else {
            if adjusted >= 13 {
                adjusted - 13
            } else {
                0
            }
        }
    } else {
        adjusted
    };
    let final_strength: u64 = if adj2 > 260 {
        260
    } else {
        adj2
    };

    let odds_bad = to_call > 0 && 7 * to_call > 3 * pot_size;
    let odds_call_ok = to_call == 0 || 3 * to_call < pot_size;
    let odds_good = to_call == 0 || 4 * to_call < pot_size;

    let has_fold = contains_action(actions, PokerAction::Fold);
    let has_raise = contains_action(actions, PokerAction::Raise);
    let has_bet = contains_action(actions, PokerAction::Bet);
    let has_check = contains_action(actions, PokerAction::Check);
    let has_call = contains_action(actions, PokerAction::Call);

    if (final_strength < 65 || (final_strength < 104 && odds_bad)) && has_fold && to_call > 0 {
        PokerAction::Fold
    } else if final_strength >= 182 && has_raise {
        PokerAction::Raise
    } else if final_strength >= 182 && has_bet {
        PokerAction::Bet
    } else if 130 <= final_strength && final_strength < 182 && has_check {
        PokerAction::Check
    } else if 130 <= final_strength && final_strength < 182 && has_call && odds_call_ok {
        PokerAction::Call
    } else if 78 <= final_strength && final_strength < 130 && has_check {
        PokerAction::Check
    } else if 78 <= final_strength && final_strength < 130 && has_call && odds_good {
        PokerAction::Call
    } else if has_check {
        PokerAction::Check
    } else {
        actions[0]
    }
}

// ---------------------------------------------------------------------------
// One whole betting turn.
// ---------------------------------------------------------------------------

/// `s` with the last-action record replaced.
pub open spec fn with_last_action(s: GameStateResource, m: ActionMessage) -> GameStateResource {
    GameStateResource { last_action: m, ..s }
}

/// `s` with the turn passed to the other player.
pub open spec fn advance_cur(s: GameStateResource) -> GameStateResource {
    GameStateResource { current_player: ((s.current_player + 1) % 2) as usize, ..s }
}

/// The state after carrying out `action` for the acting player: the
/// bet-placement effect plus the action record, with short stacks going
/// all-in, and a fold awarding the whole pot to the opponent and forcing
/// an early showdown.
pub open spec fn spec_apply_action(
    s: GameStateResource,
    config: GameConfig,
    action: PokerAction,
) -> GameStateResource {
    let player = s.current_player;
    let i = s.current_player as int;
    let chips = s.player_chips@[i];
    match action {
        PokerAction::Check => with_last_action(s, ActionMessage::Checked { player }),
        PokerAction::Bet => {
            if chips >= config.bet_amount {
                with_last_action(
                    spec_place_bet(s, config.bet_amount, true, config.bet_amount),
                    ActionMessage::BetPlaced { player, amount: config.bet_amount },
                )
            } else if chips > 0 {
                with_last_action(
                    spec_place_bet(s, chips, true, chips),
                    ActionMessage::WentAllIn { player },
                )
            } else {
                with_last_action(s, ActionMessage::CheckedNoChips { player })
            }
        },
        PokerAction::Call => {
            let call = spec_to_call(s);
            if call > 0 && chips >= call {
                with_last_action(
                    spec_place_bet(s, call as u32, false, 0),
                    ActionMessage::Called { player },
                )
            } else if call > 0 && chips > 0 {
                with_last_action(
                    spec_place_bet(s, chips, false, 0),
                    ActionMessage::CalledAllIn { player },
                )
            } else {
                s
            }
        },
        PokerAction::Raise => {
            let raise_to = (s.current_bet + config.raise_amount) as u32;
            let actual_raise = (raise_to - s.player_bets@[i]) as u32;
            if chips >= actual_raise {
                with_last_action(
                    spec_place_bet(s, actual_raise, true, raise_to),
                    ActionMessage::Raised { player, amount: config.raise_amount },
                )
            } else if chips > 0 {
                with_last_action(
                    spec_place_bet(s, chips, true, (s.player_bets@[i] + chips) as u32),
                    ActionMessage::WentAllIn { player },
                )
            } else {
                with_last_action(s, ActionMessage::CheckedNoChips { player })
            }
        },
        PokerAction::Fold => {
            let w = ((s.current_player + 1) % 2) as int;
            GameStateResource {
                winner: Some(((s.current_player + 1) % 2) as usize),
                player_chips: upd2(
                    s.player_chips,
                    w,
                    (s.player_chips@[w] + s.pot + s.pot_remainder) as u32,
                ),
                last_winner_message: WinnerMessage::FoldWin {
                    folder: s.current_player,
                    winner: ((s.current_player + 1) % 2) as usize,
                },
                pot: 0,
                pot_remainder: 0,
                current_round: PokerRound::Showdown,
                showdown_timer: config.fold_showdown_duration_ms,
                ..s
            }
        },
    }
}

/// The action the policy picks in state `s`.
pub open spec fn spec_chosen_action(s: GameStateResource, config: GameConfig) -> PokerAction {
    spec_choose_action(spec_valid_actions(s, config), spec_strength(s), s)
}

/// One whole betting turn: the chosen action is applied; unless it was a
/// fold, the turn passes to the other player and the street advances when
/// settled.
pub open spec fn spec_perform(s: GameStateResource, config: GameConfig) -> GameStateResource {
    let a = spec_chosen_action(s, config);
    if a == PokerAction::Fold {
        spec_apply_action(s, config, a)
    } else {
        spec_advance_street(advance_cur(spec_apply_action(s, config, a)), config)
    }
}

/// Membership in the legal-action list implies the affordability
/// condition under which the list admitted the action.
pub proof fn lemma_valid_action_conditions(
    s: GameStateResource,
    config: GameConfig,
    a: PokerAction,
)
    requires
        spec_valid_actions(s, config).contains(a),
    ensures
        ({
            let chips = s.player_chips@[s.current_player as int] as int;
            let bet = s.player_bets@[s.current_player as int] as int;
            let cb = s.current_bet as int;
            &&& a == PokerAction::Check ==> cb == 0
            &&& a == PokerAction::Call ==> cb > 0 && cb - bet > 0 && chips >= cb - bet
            &&& a == PokerAction::Raise ==> cb > 0 && chips >= cb - bet + config.raise_amount
            &&& a == PokerAction::Bet ==> cb == 0 && chips >= config.bet_amount
        }),
{
    broadcast use vstd::seq_lib::lemma_seq_contains_after_push;

    let chips = s.player_chips@[s.current_player as int] as int;
    let bet = s.player_bets@[s.current_player as int] as int;
    let cb = s.current_bet as int;
    let a0: Seq<PokerAction> = if cb == 0 { seq![PokerAction::Check] } else { Seq::empty() };
    assert(forall|x: PokerAction| #[trigger] a0.contains(x) ==> x == PokerAction::Check) by {
        assert forall|x: PokerAction| #[trigger] a0.contains(x) implies x == PokerAction::Check by {
            let j = choose|j: int| 0 <= j < a0.len() && a0[j] == x;
        }
    }
}

/// Performs the policy's betting action for the acting player: evaluates
/// hand strength, picks the action, applies it, and advances the street.
/// Chips in play never increase; only a street reset can discard an
/// odd-chip carry.
pub fn perform_validated_action(game_state: &mut GameStateResource, config: &GameConfig)
    requires
        wf(*old(game_state)),
    ensures
        *final(game_state) == spec_perform(*old(game_state), *config),
        total_money(*final(game_state)) <= total_money(*old(game_state)),
{
    let ghost s0 = *game_state;
    let actions = get_valid_actions(game_state, config);
    if actions.len() == 0 {
        proof {
            assert(false);
        }
        return;
    }

    let hand_strength = evaluate_current_hand_strength(game_state);
    let action = choose_action_based_on_strength(&actions, hand_strength, game_state);
    proof {
        lemma_choose_in_actions(actions@, hand_strength as int, s0);
        lemma_valid_action_conditions(s0, *config, action);
    }

    let player_idx = game_state.current_player;
    match action {
        PokerAction::Check => {
            game_state.last_action = ActionMessage::Checked { player: player_idx };
        },
        PokerAction::Bet => {
            let bet_amount = config.bet_amount;
            if game_state.player_chips[player_idx] >= bet_amount {
                place_bet(game_state, bet_amount, true, bet_amount);
                game_state.last_action = ActionMessage::BetPlaced {
                    player: player_idx,
                    amount: bet_amount,
                };
            } else if game_state.player_chips[player_idx] > 0 {
                let all_in_amount = game_state.player_chips[player_idx];
                place_bet(game_state, all_in_amount, true, all_in_amount);
                game_state.last_action = ActionMessage::WentAllIn { player: player_idx };
            } else {
                game_state.last_action = ActionMessage::CheckedNoChips { player: player_idx };
            }
        },
        PokerAction::Call => {
            let current_bet = game_state.current_bet;
            let player_bet = game_state.player_bets[game_state.current_player];
            let call_amount = if current_bet >= player_bet {
                current_bet - player_bet
            } else {
                0
            };
            if call_amount > 0 && game_state.player_chips[player_idx] >= call_amount {
                place_bet(game_state, call_amount, false, 0);
                game_state.last_action = ActionMessage::Called { player: player_idx };
            } else if call_amount > 0 && game_state.player_chips[player_idx] > 0 {
                let all_in_amount = game_state.player_chips[player_idx];
                place_bet(game_state, all_in_amount, false, 0);
                game_state.last_action = ActionMessage::CalledAllIn { player: player_idx };
            }
        },
        PokerAction::Raise => {
            proof {
                assert(s0.current_bet + config.raise_amount <= s0.player_chips@[
                    s0.current_player as int
                ] + s0.player_bets@[s0.current_player as int]);
            }
            let raise_to = game_state.current_bet + config.raise_amount;
            let actual_raise = raise_to - game_state.player_bets[game_state.current_player];
            if game_state.player_chips[player_idx] >= actual_raise {
                place_bet(game_state, actual_raise, true, raise_to);
                game_state.last_action = ActionMessage::Raised {
                    player: player_idx,
                    amount: config.raise_amount,
                };
            } else if game_state.player_chips[player_idx] > 0 {
                let all_in_amount = game_state.player_chips[player_idx];
                let player_bet = game_state.player_bets[game_state.current_player];
                place_bet(game_state, all_in_amount, true, player_bet + all_in_amount);
                game_state.last_action = ActionMessage::WentAllIn { player: player_idx };
            } else {
                game_state.last_action = ActionMessage::CheckedNoChips { player: player_idx };
            }
        },
        PokerAction::Fold => {
            let winner = (player_idx + 1) % 2;
            game_state.winner = Some(winner);
            let total_pot = game_state.pot + game_state.pot_remainder;
            let chips0 = game_state.player_chips[0];
            let chips1 = game_state.player_chips[1];
            if winner == 0 {
                game_state.player_chips = [chips0 + total_pot, chips1];
            } else {
                game_state.player_chips = [chips0, chips1 + total_pot];
            }
            game_state.last_winner_message = WinnerMessage::FoldWin {
                folder: player_idx,
                winner,
            };
            game_state.pot = 0;
            game_state.pot_remainder = 0;
            game_state.current_round = PokerRound::Showdown;
            game_state.showdown_timer = config.fold_showdown_duration_ms;
            proof {
                let sp = spec_apply_action(s0, *config, PokerAction::Fold);
                assert(game_state.player_chips@ =~= sp.player_chips@);
                assert(game_state.player_chips == sp.player_chips);
                assert(*game_state == spec_perform(s0, *config));
            }
            return;
        },
    }
    proof {
        assert(*game_state == spec_apply_action(s0, *config, spec_chosen_action(s0, *config)));
    }
    game_state.current_player = (game_state.current_player + 1) % 2;
    proof {
        assert(*game_state == advance_cur(
            spec_apply_action(s0, *config, spec_chosen_action(s0, *config)),
        ));
    }
    advance_street(game_state, config);
}

} // verus!
