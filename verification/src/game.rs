//! The betting state machine: game state, legal actions, bet placement,
//! street progression, pot distribution and showdown resolution.

use vstd::prelude::*;
use crate::cards::{Card, Deck};
use crate::winner::{determine_winner, spec_winner_code};

verus! {

/// The number that the first dealt hand carries.
pub const INITIAL_HAND_NUMBER: i32 = 1;

/// The betting rounds, in their fixed order of progression.
#[derive(Debug, Clone, Copy, PartialEq, Eq, Structural, Hash, Default)]
pub enum PokerRound {
    #[default]
    PreFlop,
    Flop,
    Turn,
    River,
    Showdown,
}

/// Display name of a betting round.
pub fn get_round_name(round: PokerRound) -> (s: &'static str)
    ensures
        round == PokerRound::PreFlop ==> s@ == "Pre-Flop"@,
        round == PokerRound::Flop ==> s@ == "Flop"@,
        round == PokerRound::Turn ==> s@ == "Turn"@,
        round == PokerRound::River ==> s@ == "River"@,
        round == PokerRound::Showdown ==> s@ == "Showdown"@,
{
    match round {
        PokerRound::PreFlop => "Pre-Flop",
        PokerRound::Flop => "Flop",
        PokerRound::Turn => "Turn",
        PokerRound::River => "River",
        PokerRound::Showdown => "Showdown",
    }
}

/// Every action a player can take during a betting round.
#[derive(Debug, Clone, Copy, PartialEq, Eq, Structural, PartialOrd, Ord)]
pub enum PokerAction {
    Check,
    Bet,
    Call,
    Raise,
    Fold,
}

/// A structured record of the last action taken, in place of free-form
/// text; the presentation layer renders it.
#[derive(Debug, Clone, Copy, PartialEq, Eq, Structural)]
pub enum ActionMessage {
    Empty,
    NewHand,
    Checked { player: usize },
    CheckedNoChips { player: usize },
    BetPlaced { player: usize, amount: u32 },
    Called { player: usize },
    CalledAllIn { player: usize },
    Raised { player: usize, amount: u32 },
    WentAllIn { player: usize },
}

/// A structured record of how the last pot was awarded.
#[derive(Debug, Clone, Copy, PartialEq, Eq, Structural)]
pub enum WinnerMessage {
    Empty,
    FoldWin { folder: usize, winner: usize },
    Wins { winner: usize },
    SplitPot,
}

/// Core game settings: chip amounts, the reshuffle threshold, and the
/// showdown timer durations in milliseconds.
#[derive(Debug, Clone, Copy, PartialEq, Eq, Structural)]
pub struct GameConfig {
    pub starting_chips: u32,
    pub bet_amount: u32,
    pub raise_amount: u32,
    pub showdown_duration_ms: i64,
    pub fold_showdown_duration_ms: i64,
    pub min_cards_for_reshuffle: usize,
}

impl Default for GameConfig {
    /// The default table stakes: 1000 starting chips, 50 bet, 100 raise,
    /// reshuffle under 9 cards, 5 s showdown and 3 s fold showdown.
    fn default() -> (c: GameConfig)
        ensures
            c.starting_chips == 1000,
            c.bet_amount == 50,
            c.raise_amount == 100,
            c.showdown_duration_ms == 5000,
            c.fold_showdown_duration_ms == 3000,
            c.min_cards_for_reshuffle == 9,
    {
        GameConfig {
            starting_chips: 1000,
            bet_amount: 50,
            raise_amount: 100,
            showdown_duration_ms: 5000,
            fold_showdown_duration_ms: 3000,
            min_cards_for_reshuffle: 9,
        }
    }
}

/// The whole game state: deck, pot accounting, betting round, per-player
/// chips and bets, hole and community cards, and the last-action records.
pub struct GameStateResource {
    pub deck: Deck,
    pub pot: u32,
    pub pot_remainder: u32,
    pub current_round: PokerRound,
    pub dealer_position: usize,
    pub current_player: usize,
    pub last_action: ActionMessage,
    pub showdown_timer: i64,
    pub hand_number: i32,
    pub player_chips: [u32; 2],
    pub player_bets: [u32; 2],
    pub current_bet: u32,
    pub winner: Option<usize>,
    pub last_winner_message: WinnerMessage,
    pub p1_hole: [Card; 2],
    pub p2_hole: [Card; 2],
    pub community_cards: [Card; 5],
    pub needs_hand_restart: bool,
}

impl Default for GameStateResource {
    /// A fresh state: full shuffled deck, empty pot, placeholder cards,
    /// everything zeroed.
    fn default() -> (s: GameStateResource)
        ensures
            s.deck.is_full(),
            s.deck.wf(),
            s.pot == 0,
            s.pot_remainder == 0,
            s.current_round == PokerRound::PreFlop,
            s.dealer_position == 0,
            s.current_player == 0,
            s.last_action == ActionMessage::Empty,
            s.showdown_timer == 0,
            s.hand_number == 0,
            s.player_chips@[0] == 0 && s.player_chips@[1] == 0,
            s.player_bets@[0] == 0 && s.player_bets@[1] == 0,
            s.current_bet == 0,
            s.winner is None,
            s.last_winner_message == WinnerMessage::Empty,
            forall|i: int| 0 <= i < 2 ==> (#[trigger] s.p1_hole@[i]).is_placeholder,
            forall|i: int| 0 <= i < 2 ==> (#[trigger] s.p2_hole@[i]).is_placeholder,
            forall|i: int| 0 <= i < 5 ==> (#[trigger] s.community_cards@[i]).is_placeholder,
            !s.needs_hand_restart,
            wf(s),
    {
        let ph = Card::default();
        GameStateResource {
            deck: Deck::new(),
            pot: 0,
            pot_remainder: 0,
            current_round: PokerRound::PreFlop,
            dealer_position: 0,
            current_player: 0,
            last_action: ActionMessage::Empty,
            showdown_timer: 0,
            hand_number: 0,
            player_chips: [0, 0],
            player_bets: [0, 0],
            current_bet: 0,
            winner: None,
            last_winner_message: WinnerMessage::Empty,
            p1_hole: [ph, ph],
            p2_hole: [ph, ph],
            community_cards: [ph, ph, ph, ph, ph],
            needs_hand_restart: false,
        }
    }
}

/// Total chips in play: both stacks plus pot and odd-chip carry. This sum
/// is conserved by every betting and award operation.
pub open spec fn total_money(s: GameStateResource) -> int {
    s.player_chips@[0] + s.player_chips@[1] + s.pot + s.pot_remainder
}

/// Well-formedness of a state between actions: player indices are valid,
/// all chips in play fit a u32, no bet exceeds the current bet to match,
/// and the pot covers both players' street bets.
pub open spec fn wf(s: GameStateResource) -> bool {
    &&& s.current_player < 2
    &&& s.dealer_position < 2
    &&& total_money(s) <= u32::MAX
    &&& s.player_bets@[0] <= s.current_bet
    &&& s.player_bets@[1] <= s.current_bet
    &&& s.player_bets@[0] + s.player_bets@[1] <= s.pot
}

/// The pair `a` with position `i` replaced by `v`.
pub open spec fn upd2(a: [u32; 2], i: int, v: u32) -> [u32; 2] {
    if i == 0 {
        [v, a[1]]
    } else {
        [a[0], v]
    }
}

// ---------------------------------------------------------------------------
// Bet placement.
// ---------------------------------------------------------------------------

/// The state after placing a bet: the transferred amount is capped at the
/// acting player's stack (an all-in truncation with no side pot); chips
/// fall and bet and pot rise by the capped amount; a raise installs the
/// new bet to match. An out-of-range player index leaves the state as is.
pub open spec fn spec_place_bet(
    s: GameStateResource,
    amount: u32,
    is_raise: bool,
    new_current_bet: u32,
) -> GameStateResource {
    if s.current_player >= 2 {
        s
    } else {
        let i = s.current_player as int;
        let available = s.player_chips@[i];
        let actual: int = if amount <= available { amount as int } else { available as int };
        GameStateResource {
            player_chips: upd2(s.player_chips, i, (available - actual) as u32),
            player_bets: upd2(s.player_bets, i, (s.player_bets@[i] + actual) as u32),
            pot: (s.pot + actual) as u32,
            current_bet: if is_raise {
                new_current_bet
            } else {
                s.current_bet
            },
            ..s
        }
    }
}

/// Places a bet for the current player. The amount actually moved is
/// `min(amount, available_chips)`, so chips never go negative; a raise
/// also installs `new_current_bet` as the bet to match.
pub fn place_bet(
    game_state: &mut GameStateResource,
    amount: u32,
    is_raise: bool,
    new_current_bet: u32,
)
    requires
        old(game_state).current_player < 2 ==> {
            let i = old(game_state).current_player as int;
            let available = old(game_state).player_chips@[i];
            let actual: int = if amount <= available { amount as int } else { available as int };
            &&& old(game_state).player_bets@[i] + actual <= u32::MAX
            &&& old(game_state).pot + actual <= u32::MAX
        },
    ensures
        *final(game_state) == spec_place_bet(*old(game_state), amount, is_raise, new_current_bet),
        old(game_state).current_player < 2 ==> {
            let i = old(game_state).current_player as int;
            let available = old(game_state).player_chips@[i];
            let actual: int = if amount <= available { amount as int } else { available as int };
            &&& final(game_state).player_chips@[i] == available - actual
            &&& final(game_state).player_bets@[i] == old(game_state).player_bets@[i] + actual
            &&& final(game_state).pot == old(game_state).pot + actual
        },
        total_money(*final(game_state)) == total_money(*old(game_state)),
{
    let player_idx = game_state.current_player;
    if player_idx >= 2 {
        return;
    }
    let available = game_state.player_chips[player_idx];
    let actual = if amount <= available {
        amount
    } else {
        available
    };
    let chips0 = game_state.player_chips[0];
    let chips1 = game_state.player_chips[1];
    let bets0 = game_state.player_bets[0];
    let bets1 = game_state.player_bets[1];
    if player_idx == 0 {
        game_state.player_chips = [available - actual, chips1];
        game_state.player_bets = [bets0 + actual, bets1];
    } else {
        game_state.player_chips = [chips0, available - actual];
        game_state.player_bets = [bets0, bets1 + actual];
    }
    game_state.pot = game_state.pot + actual;
    if is_raise {
        game_state.current_bet = new_current_bet;
    }
    proof {
        let sp = spec_place_bet(*old(game_state), amount, is_raise, new_current_bet);
        assert(game_state.player_chips@ =~= sp.player_chips@);
        assert(game_state.player_bets@ =~= sp.player_bets@);
        assert(game_state.player_chips == sp.player_chips);
        assert(game_state.player_bets == sp.player_bets);
    }
}

// ---------------------------------------------------------------------------
// Street progression.
// ---------------------------------------------------------------------------

/// Whether betting on the current street is settled: both players have
/// matched the current bet, or there is no bet to match.
pub open spec fn street_settled(s: GameStateResource) -> bool {
    (s.player_bets@[0] == s.current_bet && s.player_bets@[1] == s.current_bet)
        || s.current_bet == 0
}

/// The state after attempting to advance the street. When betting is not
/// settled nothing changes. Otherwise the round moves one step along
/// PreFlop, Flop, Turn, River, Showdown; entering a non-showdown street
/// resets the bets, the odd-chip carry and the acting player (to the
/// dealer, this machine's convention); reaching Showdown starts the
/// showdown timer instead.
pub open spec fn spec_advance_street(s: GameStateResource, config: GameConfig)
    -> GameStateResource {
    if !street_settled(s) {
        s
    } else {
        match s.current_round {
            PokerRound::PreFlop => street_reset(s, PokerRound::Flop),
            PokerRound::Flop => street_reset(s, PokerRound::Turn),
            PokerRound::Turn => street_reset(s, PokerRound::River),
            PokerRound::River => GameStateResource {
                current_round: PokerRound::Showdown,
                showdown_timer: config.showdown_duration_ms,
                ..s
            },
            PokerRound::Showdown => s,
        }
    }
}

/// A settled street rolled over into round `r`: bets and the odd-chip
/// carry are cleared and the dealer acts first.
pub open spec fn street_reset(s: GameStateResource, r: PokerRound) -> GameStateResource {
    GameStateResource {
        current_round: r,
        current_bet: 0,
        player_bets: [0, 0],
        current_player: s.dealer_position,
        pot_remainder: 0,
        ..s
    }
}

/// Advances to the next betting round when both players have matched the
/// current bet (or nothing was bet); otherwise a no-op.
pub fn advance_street(game_state: &mut GameStateResource, config: &GameConfig)
    ensures
        *final(game_state) == spec_advance_street(*old(game_state), *config),
        !street_settled(*old(game_state)) ==> *final(game_state) == *old(game_state),
        total_money(*final(game_state)) <= total_money(*old(game_state)),
{
    let both_players_matched_bet = game_state.player_bets[0] == game_state.current_bet
        && game_state.player_bets[1] == game_state.current_bet;
    let can_check = game_state.current_bet == 0;

    if both_players_matched_bet || can_check {
        match game_state.current_round {
            PokerRound::PreFlop => {
                game_state.current_round = PokerRound::Flop;
            },
            PokerRound::Flop => {
                game_state.current_round = PokerRound::Turn;
            },
            PokerRound::Turn => {
                game_state.current_round = PokerRound::River;
            },
            PokerRound::River => {
                game_state.current_round = PokerRound::Showdown;
                game_state.showdown_timer = config.showdown_duration_ms;
            },
            PokerRound::Showdown => {},
        }

        if !matches!(game_state.current_round, PokerRound::Showdown) {
            game_state.current_bet = 0;
            game_state.player_bets = [0, 0];
            game_state.current_player = game_state.dealer_position;
            game_state.pot_remainder = 0;
        }
        proof {
            let sp = spec_advance_street(*old(game_state), *config);
            assert(game_state.player_bets@ =~= sp.player_bets@);
            assert(game_state.player_bets == sp.player_bets);
        }
    }
}

/// Advancing an unsettled street changes nothing.
pub proof fn lemma_advance_street_noop(s: GameStateResource, config: GameConfig)
    requires
        !street_settled(s),
    ensures
        spec_advance_street(s, config) == s,
{
}

// ---------------------------------------------------------------------------
// Pot awards.
// ---------------------------------------------------------------------------

/// Awards the whole pot (including the odd-chip carry) to `winner` and
/// clears the pot fields.
pub fn distribute_pot(game_state: &mut GameStateResource, winner: usize)
    requires
        winner < 2,
        total_money(*old(game_state)) <= u32::MAX,
    ensures
        ({
            let w = winner as int;
            &&& final(game_state).player_chips@[w] == old(game_state).player_chips@[w]
                + old(game_state).pot + old(game_state).pot_remainder
            &&& final(game_state).player_chips@[1 - w] == old(game_state).player_chips@[1 - w]
        }),
        final(game_state).pot == 0,
        final(game_state).pot_remainder == 0,
        final(game_state).last_winner_message == (WinnerMessage::Wins { winner }),
        total_money(*final(game_state)) == total_money(*old(game_state)),
        unchanged_but_award(*old(game_state), *final(game_state)),
{
    let total_pot = game_state.pot + game_state.pot_remainder;
    let chips0 = game_state.player_chips[0];
    let chips1 = game_state.player_chips[1];
    if winner == 0 {
        game_state.player_chips = [chips0 + total_pot, chips1];
    } else {
        game_state.player_chips = [chips0, chips1 + total_pot];
    }
    game_state.last_winner_message = WinnerMessage::Wins { winner };
    game_state.pot = 0;
    game_state.pot_remainder = 0;
}

/// The fields that a pot award never touches.
pub open spec fn unchanged_but_award(a: GameStateResource, b: GameStateResource) -> bool {
    &&& b.deck == a.deck
    &&& b.current_round == a.current_round
    &&& b.dealer_position == a.dealer_position
    &&& b.current_player == a.current_player
    &&& b.last_action == a.last_action
    &&& b.showdown_timer == a.showdown_timer
    &&& b.hand_number == a.hand_number
    &&& b.player_bets == a.player_bets
    &&& b.current_bet == a.current_bet
    &&& b.winner == a.winner
    &&& b.p1_hole == a.p1_hole
    &&& b.p2_hole == a.p2_hole
    &&& b.community_cards == a.community_cards
    &&& b.needs_hand_restart == a.needs_hand_restart
}

/// Splits the pot on a tie: each player gets half, and the odd chip, if
/// any, goes to the player at the dealer position (the house rule).
pub fn split_pot(game_state: &mut GameStateResource)
    requires
        old(game_state).dealer_position < 2,
        total_money(*old(game_state)) <= u32::MAX,
    ensures
        ({
            let total = old(game_state).pot + old(game_state).pot_remainder;
            let dealer = old(game_state).dealer_position as int;
            let other = 1 - dealer;
            &&& final(game_state).player_chips@[dealer] == old(game_state).player_chips@[dealer]
                + total / 2 + total % 2
            &&& final(game_state).player_chips@[other] == old(game_state).player_chips@[other]
                + total / 2
            &&& final(game_state).player_chips@[dealer] + final(game_state).player_chips@[other]
                == old(game_state).player_chips@[dealer] + old(game_state).player_chips@[other]
                + total
        }),
        final(game_state).pot == 0,
        final(game_state).pot_remainder == 0,
        final(game_state).last_winner_message == WinnerMessage::SplitPot,
        total_money(*final(game_state)) == total_money(*old(game_state)),
        unchanged_but_award(*old(game_state), *final(game_state)),
{
    let total_pot = game_state.pot + game_state.pot_remainder;
    let split_amount = total_pot / 2;
    let remainder = total_pot % 2;
    let dealer = game_state.dealer_position;
    let chips0 = game_state.player_chips[0];
    let chips1 = game_state.player_chips[1];
    if dealer == 0 {
        game_state.player_chips = [chips0 + split_amount + remainder, chips1 + split_amount];
    } else {
        game_state.player_chips = [chips0 + split_amount, chips1 + split_amount + remainder];
    }
    game_state.pot = 0;
    game_state.pot_remainder = 0;
    game_state.last_winner_message = WinnerMessage::SplitPot;
}

// ---------------------------------------------------------------------------
// Drawing and dealing.
// ---------------------------------------------------------------------------

/// The fields that drawing a card never touches.
pub open spec fn unchanged_but_deck(a: GameStateResource, b: GameStateResource) -> bool {
    &&& b.pot == a.pot
    &&& b.pot_remainder == a.pot_remainder
    &&& b.current_round == a.current_round
    &&& b.dealer_position == a.dealer_position
    &&& b.current_player == a.current_player
    &&& b.last_action == a.last_action
    &&& b.showdown_timer == a.showdown_timer
    &&& b.hand_number == a.hand_number
    &&& b.player_chips == a.player_chips
    &&& b.player_bets == a.player_bets
    &&& b.current_bet == a.current_bet
    &&& b.winner == a.winner
    &&& b.last_winner_message == a.last_winner_message
    &&& b.p1_hole == a.p1_hole
    &&& b.p2_hole == a.p2_hole
    &&& b.community_cards == a.community_cards
    &&& b.needs_hand_restart == a.needs_hand_restart
}

/// What a successful draw guarantees: from a non-empty deck the top card
/// comes off the end; an empty deck is first replaced by a fresh shuffled
/// 52-card deck, so the draw always succeeds and the card is real
/// whenever the deck was well-formed (or empty).
pub open spec fn draw_card_post(
    a: GameStateResource,
    b: GameStateResource,
    c: Card,
) -> bool {
    &&& a.deck@.len() > 0 ==> c == a.deck@.last() && b.deck@ == a.deck@.drop_last()
    &&& a.deck@.len() == 0 ==> b.deck@.len() == 51 && b.deck.wf() && !c.is_placeholder
    &&& a.deck.wf() ==> b.deck.wf() && !c.is_placeholder
    &&& unchanged_but_deck(a, b)
}

/// Draws a card from the deck, building a fresh shuffled deck first when
/// it is empty; the empty deck therefore never surfaces as an error.
pub fn draw_card(game_state: &mut GameStateResource) -> (r: Result<Card, &'static str>)
    ensures
        r is Ok,
        match r {
            Ok(c) => draw_card_post(*old(game_state), *final(game_state), c),
            Err(_) => false,
        },
{
    proof {
        if old(game_state).deck.wf() && old(game_state).deck@.len() > 0 {
            let dv = old(game_state).deck@;
            assert(dv[dv.len() - 1] == dv.last());
            assert(!dv.last().is_placeholder);
        }
    }
    match game_state.deck.draw() {
        Some(c) => Ok(c),
        None => {
            game_state.deck = Deck::new();
            match game_state.deck.draw() {
                Some(c) => Ok(c),
                None => Err("Failed to draw from new deck"),
            }
        },
    }
}

/// Deals one card into slot `slot` of player `id`'s hole cards (player 0
/// when `id` is 0, player 1 otherwise), drawing with the same reshuffle
/// rule as `draw_card`.
pub fn deal_hole_card(game_state: &mut GameStateResource, id: usize, slot: usize)
    requires
        slot < 2,
    ensures
        ({
            let hole = if id == 0 { final(game_state).p1_hole } else { final(game_state).p2_hole };
            let other = if id == 0 { final(game_state).p2_hole } else { final(game_state).p1_hole };
            let old_hole = if id == 0 { old(game_state).p1_hole } else { old(game_state).p2_hole };
            let old_other = if id == 0 { old(game_state).p2_hole } else { old(game_state).p1_hole };
            &&& old(game_state).deck@.len() > 0 ==> hole@[slot as int]
                == old(game_state).deck@.last()
                && final(game_state).deck@ == old(game_state).deck@.drop_last()
            &&& old(game_state).deck@.len() == 0 ==> final(game_state).deck@.len() == 51
            &&& (old(game_state).deck.wf() || old(game_state).deck@.len() == 0)
                ==> !hole@[slot as int].is_placeholder
            &&& old(game_state).deck.wf() ==> final(game_state).deck.wf()
            &&& hole@[1 - slot as int] == old_hole@[1 - slot as int]
            &&& other == old_other
        }),
        final(game_state).pot == old(game_state).pot,
        final(game_state).community_cards == old(game_state).community_cards,
        final(game_state).player_chips == old(game_state).player_chips,
        final(game_state).player_bets == old(game_state).player_bets,
        final(game_state).current_bet == old(game_state).current_bet,
        final(game_state).current_round == old(game_state).current_round,
        final(game_state).current_player == old(game_state).current_player,
        final(game_state).dealer_position == old(game_state).dealer_position,
        final(game_state).pot_remainder == old(game_state).pot_remainder,
        final(game_state).winner == old(game_state).winner,
        final(game_state).hand_number == old(game_state).hand_number,
{
    let card = match draw_card(game_state) {
        Ok(c) => c,
        Err(_) => Card::default(),
    };
    if id == 0 {
        let h = game_state.p1_hole;
        game_state.p1_hole = if slot == 0 {
            [card, h[1]]
        } else {
            [h[0], card]
        };
        proof {
            assert(game_state.p1_hole@[slot as int] == card);
        }
    } else {
        let h = game_state.p2_hole;
        game_state.p2_hole = if slot == 0 {
            [card, h[1]]
        } else {
            [h[0], card]
        };
        proof {
            assert(game_state.p2_hole@[slot as int] == card);
        }
    }
}

/// Deals one card into community slot `i`, drawing with the same
/// reshuffle rule as `draw_card`.
pub fn deal_community_card(game_state: &mut GameStateResource, i: usize)
    requires
        i < 5,
    ensures
        old(game_state).deck@.len() > 0 ==> final(game_state).community_cards@[i as int]
            == old(game_state).deck@.last()
            && final(game_state).deck@ == old(game_state).deck@.drop_last(),
        old(game_state).deck@.len() == 0 ==> final(game_state).deck@.len() == 51,
        (old(game_state).deck.wf() || old(game_state).deck@.len() == 0)
            ==> !final(game_state).community_cards@[i as int].is_placeholder,
        old(game_state).deck.wf() ==> final(game_state).deck.wf(),
        forall|j: int| 0 <= j < 5 && j != i ==> final(game_state).community_cards@[j]
            == old(game_state).community_cards@[j],
        final(game_state).p1_hole == old(game_state).p1_hole,
        final(game_state).p2_hole == old(game_state).p2_hole,
        final(game_state).pot == old(game_state).pot,
        final(game_state).player_chips == old(game_state).player_chips,
        final(game_state).player_bets == old(game_state).player_bets,
        final(game_state).current_bet == old(game_state).current_bet,
        final(game_state).current_round == old(game_state).current_round,
        final(game_state).current_player == old(game_state).current_player,
        final(game_state).dealer_position == old(game_state).dealer_position,
        final(game_state).pot_remainder == old(game_state).pot_remainder,
        final(game_state).winner == old(game_state).winner,
        final(game_state).hand_number == old(game_state).hand_number,
{
    let card = match draw_card(game_state) {
        Ok(c) => c,
        Err(_) => Card::default(),
    };
    let cc = game_state.community_cards;
    game_state.community_cards = [
        if i == 0 { card } else { cc[0] },
        if i == 1 { card } else { cc[1] },
        if i == 2 { card } else { cc[2] },
        if i == 3 { card } else { cc[3] },
        if i == 4 { card } else { cc[4] },
    ];
    proof {
        assert(game_state.community_cards@[i as int] == card);
    }
}

// ---------------------------------------------------------------------------
// Legal actions.
// ---------------------------------------------------------------------------

/// The legal actions for the acting player: Check only when there is no
/// bet to match; Call when there is one, something is owed and the stack
/// covers it; Raise when the stack covers the call plus the configured
/// raise; Bet when there is no bet and the stack covers the configured
/// bet; Fold always.
pub open spec fn spec_valid_actions(s: GameStateResource, config: GameConfig)
    -> Seq<PokerAction> {
    let chips = s.player_chips@[s.current_player as int] as int;
    let bet = s.player_bets@[s.current_player as int] as int;
    let cb = s.current_bet as int;
    let a0: Seq<PokerAction> = if cb == 0 { seq![PokerAction::Check] } else { Seq::empty() };
    let a1: Seq<PokerAction> = if cb > 0 && cb - bet > 0 && chips >= cb - bet {
        a0.push(PokerAction::Call)
    } else {
        a0
    };
    let a2: Seq<PokerAction> = if cb > 0 && chips >= cb - bet + config.raise_amount {
        a1.push(PokerAction::Raise)
    } else {
        a1
    };
    let a3: Seq<PokerAction> = if cb == 0 && chips >= config.bet_amount {
        a2.push(PokerAction::Bet)
    } else {
        a2
    };
    a3.push(PokerAction::Fold)
}

/// Returns all valid actions for the current player. Fold is always
/// among them, so the result is never empty.
pub fn get_valid_actions(game_state: &GameStateResource, config: &GameConfig)
    -> (actions: Vec<PokerAction>)
    requires
        game_state.current_player < 2,
        game_state.player_bets@[game_state.current_player as int] <= game_state.current_bet,
    ensures
        actions@ == spec_valid_actions(*game_state, *config),
        actions@.len() >= 1,
        actions@.contains(PokerAction::Fold),
{
    let mut actions: Vec<PokerAction> = Vec::new();
    let player_idx = game_state.current_player;
    let player_chips = game_state.player_chips[player_idx];
    let player_bet = game_state.player_bets[player_idx];
    let current_bet = game_state.current_bet;

    if current_bet == 0 {
        actions.push(PokerAction::Check);
    }
    if current_bet > 0 {
        let call_amount = current_bet - player_bet;
        if player_chips >= call_amount && call_amount > 0 {
            actions.push(PokerAction::Call);
        }
        if player_chips as u64 >= call_amount as u64 + config.raise_amount as u64 {
            actions.push(PokerAction::Raise);
        }
    } else if player_chips >= config.bet_amount {
        actions.push(PokerAction::Bet);
    }
    actions.push(PokerAction::Fold);
    proof {
        assert(actions@ =~= spec_valid_actions(*game_state, *config));
        assert(actions@[actions@.len() - 1] == PokerAction::Fold);
    }
    actions
}

// ---------------------------------------------------------------------------
// Showdown resolution and hand lifecycle.
// ---------------------------------------------------------------------------

/// Resolves a natural showdown: evaluates both hands over the community
/// cards, awards the whole pot to a decisive winner, or splits it on a
/// tie with the odd chip going to the dealer.
pub fn process_showdown_result(game_state: &mut GameStateResource)
    requires
        old(game_state).dealer_position < 2,
        total_money(*old(game_state)) <= u32::MAX,
    ensures
        ({
            let code = spec_winner_code(
                old(game_state).p1_hole@ + old(game_state).community_cards@,
                old(game_state).p2_hole@ + old(game_state).community_cards@,
            );
            let total = old(game_state).pot + old(game_state).pot_remainder;
            let dealer = old(game_state).dealer_position as int;
            &&& code == 0 ==> final(game_state).winner == Some(0usize)
                && final(game_state).player_chips@[0] == old(game_state).player_chips@[0] + total
                && final(game_state).player_chips@[1] == old(game_state).player_chips@[1]
                && final(game_state).last_winner_message == (WinnerMessage::Wins { winner: 0 })
            &&& code == 1 ==> final(game_state).winner == Some(1usize)
                && final(game_state).player_chips@[1] == old(game_state).player_chips@[1] + total
                && final(game_state).player_chips@[0] == old(game_state).player_chips@[0]
                && final(game_state).last_winner_message == (WinnerMessage::Wins { winner: 1 })
            &&& code == -1 ==> final(game_state).winner == old(game_state).winner
                && final(game_state).player_chips@[dealer] == old(game_state).player_chips@[dealer]
                    + total / 2 + total % 2
                && final(game_state).player_chips@[1 - dealer]
                    == old(game_state).player_chips@[1 - dealer] + total / 2
                && final(game_state).last_winner_message == WinnerMessage::SplitPot
        }),
        final(game_state).pot == 0,
        final(game_state).pot_remainder == 0,
        total_money(*final(game_state)) == total_money(*old(game_state)),
        final(game_state).deck == old(game_state).deck,
        final(game_state).current_round == old(game_state).current_round,
        final(game_state).dealer_position == old(game_state).dealer_position,
        final(game_state).current_player == old(game_state).current_player,
        final(game_state).player_bets == old(game_state).player_bets,
        final(game_state).current_bet == old(game_state).current_bet,
        final(game_state).p1_hole == old(game_state).p1_hole,
        final(game_state).p2_hole == old(game_state).p2_hole,
        final(game_state).community_cards == old(game_state).community_cards,
        final(game_state).hand_number == old(game_state).hand_number,
        final(game_state).showdown_timer == old(game_state).showdown_timer,
{
    let result = determine_winner(
        &game_state.p1_hole,
        &game_state.p2_hole,
        &game_state.community_cards,
    );
    if result == 0 {
        game_state.winner = Some(0);
        distribute_pot(game_state, 0);
    } else if result == 1 {
        game_state.winner = Some(1);
        distribute_pot(game_state, 1);
    } else {
        split_pot(game_state);
    }
}

/// Starts a new hand: clears the pot and bets, moves back to PreFlop,
/// increments the hand number, alternates the dealer button, lets the
/// non-dealer act first pre-flop, and rebuilds the deck when it has
/// fallen under the reshuffle threshold (a full reset, never a re-shuffle
/// of used cards).
pub fn start_hand(game_state: &mut GameStateResource, config: &GameConfig)
    requires
        old(game_state).hand_number < i32::MAX,
        old(game_state).dealer_position < 2,
        total_money(*old(game_state)) <= u32::MAX,
    ensures
        final(game_state).pot == 0,
        final(game_state).pot_remainder == 0,
        final(game_state).current_round == PokerRound::PreFlop,
        final(game_state).last_action == ActionMessage::NewHand,
        final(game_state).hand_number == (if old(game_state).hand_number > 0 {
            old(game_state).hand_number + 1
        } else {
            1
        }),
        final(game_state).showdown_timer == 0,
        final(game_state).dealer_position == (old(game_state).dealer_position + 1) % 2,
        final(game_state).current_player == (final(game_state).dealer_position + 1) % 2,
        final(game_state).player_bets@[0] == 0 && final(game_state).player_bets@[1] == 0,
        final(game_state).current_bet == 0,
        final(game_state).winner is None,
        final(game_state).last_winner_message == WinnerMessage::Empty,
        old(game_state).deck@.len() < config.min_cards_for_reshuffle
            ==> final(game_state).deck.is_full() && final(game_state).deck.wf(),
        old(game_state).deck@.len() >= config.min_cards_for_reshuffle
            ==> final(game_state).deck == old(game_state).deck,
        final(game_state).player_chips == old(game_state).player_chips,
        final(game_state).p1_hole == old(game_state).p1_hole,
        final(game_state).p2_hole == old(game_state).p2_hole,
        final(game_state).community_cards == old(game_state).community_cards,
        final(game_state).needs_hand_restart == old(game_state).needs_hand_restart,
        wf(*final(game_state)),
{
    game_state.pot = 0;
    game_state.pot_remainder = 0;
    game_state.current_round = PokerRound::PreFlop;
    game_state.last_action = ActionMessage::NewHand;
    if game_state.hand_number > 0 {
        game_state.hand_number = game_state.hand_number + 1;
    } else {
        game_state.hand_number = 1;
    }
    game_state.showdown_timer = 0;
    game_state.dealer_position = (game_state.dealer_position + 1) % 2;
    game_state.current_player = (game_state.dealer_position + 1) % 2;
    game_state.player_bets = [0, 0];
    game_state.current_bet = 0;
    game_state.winner = None;
    game_state.last_winner_message = WinnerMessage::Empty;

    if game_state.deck.cards_remaining() < config.min_cards_for_reshuffle {
        game_state.deck = Deck::new();
    }
}

/// Initialises the game: both players get the configured starting stack,
/// player 0 holds the button, and the first hand is flagged to start.
pub fn setup_game(game_state: &mut GameStateResource, config: &GameConfig)
    requires
        old(game_state).pot + old(game_state).pot_remainder + 2 * config.starting_chips
            <= u32::MAX,
    ensures
        final(game_state).hand_number == 0,
        final(game_state).player_chips@[0] == config.starting_chips,
        final(game_state).player_chips@[1] == config.starting_chips,
        final(game_state).player_bets@[0] == 0 && final(game_state).player_bets@[1] == 0,
        final(game_state).current_bet == 0,
        final(game_state).winner is None,
        final(game_state).dealer_position == 0,
        final(game_state).needs_hand_restart,
        final(game_state).current_player == old(game_state).current_player,
        final(game_state).pot == old(game_state).pot,
        final(game_state).pot_remainder == old(game_state).pot_remainder,
        final(game_state).deck == old(game_state).deck,
        final(game_state).current_round == old(game_state).current_round,
        final(game_state).last_action == old(game_state).last_action,
        final(game_state).last_winner_message == old(game_state).last_winner_message,
        final(game_state).showdown_timer == old(game_state).showdown_timer,
        final(game_state).p1_hole == old(game_state).p1_hole,
        final(game_state).p2_hole == old(game_state).p2_hole,
        final(game_state).community_cards == old(game_state).community_cards,
        old(game_state).current_player < 2 ==> wf(*final(game_state)),
{
    game_state.hand_number = 0;
    game_state.player_chips = [config.starting_chips, config.starting_chips];
    game_state.player_bets = [0, 0];
    game_state.current_bet = 0;
    game_state.winner = None;
    game_state.dealer_position = 0;
    game_state.needs_hand_restart = true;
}

/// Counts the showdown timer down by `delta_ms` while a showdown is on
/// screen; outside a showdown nothing changes.
pub fn check_game_flow(game_state: &mut GameStateResource, delta_ms: i64)
    requires
        delta_ms >= 0,
        old(game_state).showdown_timer - delta_ms >= i64::MIN,
    ensures
        old(game_state).current_round == PokerRound::Showdown ==> *final(game_state)
            == (GameStateResource {
            showdown_timer: (old(game_state).showdown_timer - delta_ms) as i64,
            ..*old(game_state)
        }),
        old(game_state).current_round != PokerRound::Showdown ==> *final(game_state)
            == *old(game_state),
{
    if matches!(game_state.current_round, PokerRound::Showdown) {
        game_state.showdown_timer = game_state.showdown_timer - delta_ms;
    }
}

/// Resolves the hand once the showdown timer has run out: awards the pot
/// (unless a fold already did), then flags the next hand to start.
pub fn handle_showdown(game_state: &mut GameStateResource)
    requires
        old(game_state).dealer_position < 2,
        total_money(*old(game_state)) <= u32::MAX,
    ensures
        !(old(game_state).current_round == PokerRound::Showdown
            && old(game_state).showdown_timer <= 0) ==> *final(game_state) == *old(game_state),
        (old(game_state).current_round == PokerRound::Showdown
            && old(game_state).showdown_timer <= 0) ==> {
            &&& final(game_state).current_round == PokerRound::PreFlop
            &&& final(game_state).showdown_timer == -1
            &&& final(game_state).needs_hand_restart
            &&& final(game_state).deck == old(game_state).deck
            &&& final(game_state).p1_hole == old(game_state).p1_hole
            &&& final(game_state).p2_hole == old(game_state).p2_hole
            &&& final(game_state).community_cards == old(game_state).community_cards
            &&& old(game_state).winner is Some ==> final(game_state).pot == old(game_state).pot
                && final(game_state).pot_remainder == old(game_state).pot_remainder
                && final(game_state).player_chips == old(game_state).player_chips
                && final(game_state).winner == old(game_state).winner
                && final(game_state).last_winner_message
                    == old(game_state).last_winner_message
            &&& old(game_state).winner is None ==> {
                let code = spec_winner_code(
                    old(game_state).p1_hole@ + old(game_state).community_cards@,
                    old(game_state).p2_hole@ + old(game_state).community_cards@,
                );
                let total = old(game_state).pot + old(game_state).pot_remainder;
                let dealer = old(game_state).dealer_position as int;
                &&& final(game_state).pot == 0
                &&& final(game_state).pot_remainder == 0
                &&& code == 0 ==> final(game_state).winner == Some(0usize)
                    && final(game_state).player_chips@[0]
                        == old(game_state).player_chips@[0] + total
                    && final(game_state).player_chips@[1] == old(game_state).player_chips@[1]
                &&& code == 1 ==> final(game_state).winner == Some(1usize)
                    && final(game_state).player_chips@[1]
                        == old(game_state).player_chips@[1] + total
                    && final(game_state).player_chips@[0] == old(game_state).player_chips@[0]
                &&& code == -1 ==> final(game_state).winner is None
                    && final(game_state).player_chips@[dealer]
                        == old(game_state).player_chips@[dealer] + total / 2 + total % 2
                    && final(game_state).player_chips@[1 - dealer]
                        == old(game_state).player_chips@[1 - dealer] + total / 2
            }
        },
        total_money(*final(game_state)) == total_money(*old(game_state)),
{
    if matches!(game_state.current_round, PokerRound::Showdown)
        && game_state.showdown_timer <= 0 {
        if game_state.winner.is_none() {
            process_showdown_result(game_state);
        }
        game_state.current_round = PokerRound::PreFlop;
        game_state.showdown_timer = -1;
        game_state.needs_hand_restart = true;
    }
}

} // verus!
