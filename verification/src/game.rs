//! The round: a state machine from the bet to the settlement.
//!
//! A round goes through five phases. The player bets, the first cards are
//! dealt, the player plays each hand in turn, the dealer draws to 17, and the
//! hands are settled. What each command does is stated here as a function on
//! the plain values of the game; the methods of [`Game`] carry it out. A
//! command that does not belong to the phase the game is in leaves the game
//! as it is.

use vstd::prelude::*;
use vstd::std_specs::convert::FromSpecImpl;
use vstd::string::StringExecFns;
use crate::card::Card;
use crate::game_settings::GameSettings;
use crate::hand::{best_total, is_bust, is_natural, is_pair, Hand, HandOutcome, HandView};
use crate::player::{empty_hand, Player, PlayerView};
use crate::shoe::{lemma_after_draws, lemma_new_shoe_is_complete, Shoe, ShoeView};
use crate::text::{lowercase, to_lowercase, trim, trimmed};

verus! {

/// What a player may do with the hand that is being played.
#[derive(Debug, Clone, Copy, PartialEq, Eq, Structural)]
pub enum GameAction {
    Hit,
    Stand,
    Double,
    Split,
}

/// The action that a token names: `h` or `hit`, `s` or `stand`, `d` or
/// `double`, `p` or `split`. Any other token names none.
pub open spec fn action_of_token(token: Seq<char>) -> Option<GameAction> {
    if token == "h"@ || token == "hit"@ {
        Some(GameAction::Hit)
    } else if token == "s"@ || token == "stand"@ {
        Some(GameAction::Stand)
    } else if token == "d"@ || token == "double"@ {
        Some(GameAction::Double)
    } else if token == "p"@ || token == "split"@ {
        Some(GameAction::Split)
    } else {
        None
    }
}

/// Whether two texts are the same.
fn same_text(a: &str, b: &str) -> (same: bool)
    ensures
        same == (a@ == b@),
{
    String::from_str(a) == String::from_str(b)
}

impl GameAction {
    /// The text of this action, in capitals.
    pub open spec fn text(self) -> Seq<char> {
        match self {
            GameAction::Hit => "HIT"@,
            GameAction::Stand => "STAND"@,
            GameAction::Double => "DOUBLE"@,
            GameAction::Split => "SPLIT"@,
        }
    }

    /// Reads an action from a token that is already in lower case and
    /// trimmed. Returns `None` for a token that names no action.
    pub fn from_token(token: &str) -> (action: Option<GameAction>)
        ensures
            action == action_of_token(token@),
    {
        if same_text(token, "h") || same_text(token, "hit") {
            Some(GameAction::Hit)
        } else if same_text(token, "s") || same_text(token, "stand") {
            Some(GameAction::Stand)
        } else if same_text(token, "d") || same_text(token, "double") {
            Some(GameAction::Double)
        } else if same_text(token, "p") || same_text(token, "split") {
            Some(GameAction::Split)
        } else {
            None
        }
    }

    /// Reads an action from what the player typed: the text is put in lower
    /// case and trimmed, and the token that is left names the action.
    /// Returns `None` if it names none.
    pub fn from_string(value: &str) -> (action: Option<GameAction>)
        ensures
            action == action_of_token(trimmed(lowercase(value@))),
    {
        let lowered = to_lowercase(value);
        GameAction::from_token(trim(lowered.as_str()))
    }

    /// Returns the text of this action.
    pub fn to_string(&self) -> (r: String)
        ensures
            r@ == self.text(),
    {
        match self {
            GameAction::Hit => String::from_str("HIT"),
            GameAction::Stand => String::from_str("STAND"),
            GameAction::Double => String::from_str("DOUBLE"),
            GameAction::Split => String::from_str("SPLIT"),
        }
    }
}

/// The phase a round is in.
#[derive(Debug, Clone, Copy, PartialEq, Eq, Structural)]
pub enum GamePhase {
    WaitingForBet,
    WaitingToDeal,
    PlayerTurn,
    DealerTurn,
    RoundComplete,
}

/// The state of a round: its phase, with what there is to see in that phase.
#[derive(Debug, Clone, PartialEq)]
pub enum GameState {
    /// No bet was placed yet.
    WaitingForBet { player_bankroll: i64 },
    /// The bet was placed; no card was dealt yet.
    WaitingToDeal { player_bet: u64, player_bankroll: i64 },
    /// The player plays the hand at `active_hand_index`.
    PlayerTurn {
        dealer_hand: Hand,
        player_hands: Vec<Hand>,
        player_bankroll: i64,
        active_hand_index: usize,
    },
    /// The dealer draws.
    DealerTurn { dealer_hand: Hand, player_hands: Vec<Hand>, player_bankroll: i64 },
    /// The round is over.
    RoundComplete { dealer_hand: Hand, player_hands: Vec<Hand>, player_bankroll: i64 },
}

/// The state of a round laid out flat, for showing or sending it: the phase,
/// the bankroll, and what else there is in that phase.
#[derive(Debug, Clone)]
pub struct GameStateDto {
    /// The phase of the round.
    pub phase: GamePhase,
    /// The player's bankroll.
    pub player_bankroll: i64,
    /// The bet: before the deal the bet that was placed, after it the bet on
    /// the player's first hand.
    pub player_bet: Option<u64>,
    /// The dealer's hand, once cards are dealt.
    pub dealer_hand: Option<Hand>,
    /// The player's hands, once cards are dealt.
    pub player_hands: Option<Vec<Hand>>,
    /// The hand that is being played, in the player's turn.
    pub active_hand_index: Option<usize>,
}

/// The bet on the first of the hands, if there is one.
pub open spec fn first_bet(hands: Vec<Hand>) -> Option<u64> {
    if hands@.len() > 0 {
        Some(hands@[0].bet)
    } else {
        None
    }
}

/// Returns the bet on the first of the hands, if there is one.
fn bet_of_first(hands: &Vec<Hand>) -> (bet: Option<u64>)
    ensures
        bet == first_bet(*hands),
{
    if hands.len() > 0 {
        Some(hands[0].bet)
    } else {
        None
    }
}

impl FromSpecImpl<GameState> for GameStateDto {
    open spec fn obeys_from_spec() -> bool {
        true
    }

    /// The state laid out flat. Before the deal there are no hands; the bet
    /// is there once it is placed. From the deal on the hands are there, and
    /// the bet is the one on the player's first hand. The hand that is being
    /// played is there in the player's turn only.
    open spec fn from_spec(state: GameState) -> GameStateDto {
        match state {
            GameState::WaitingForBet { player_bankroll } => GameStateDto {
                phase: GamePhase::WaitingForBet,
                player_bankroll,
                player_bet: None,
                dealer_hand: None,
                player_hands: None,
                active_hand_index: None,
            },
            GameState::WaitingToDeal { player_bet, player_bankroll } => GameStateDto {
                phase: GamePhase::WaitingToDeal,
                player_bankroll,
                player_bet: Some(player_bet),
                dealer_hand: None,
                player_hands: None,
                active_hand_index: None,
            },
            GameState::PlayerTurn {
                dealer_hand,
                player_hands,
                player_bankroll,
                active_hand_index,
            } => GameStateDto {
                phase: GamePhase::PlayerTurn,
                player_bankroll,
                player_bet: first_bet(player_hands),
                dealer_hand: Some(dealer_hand),
                player_hands: Some(player_hands),
                active_hand_index: Some(active_hand_index),
            },
            GameState::DealerTurn { dealer_hand, player_hands, player_bankroll } => GameStateDto {
                phase: GamePhase::DealerTurn,
                player_bankroll,
                player_bet: first_bet(player_hands),
                dealer_hand: Some(dealer_hand),
                player_hands: Some(player_hands),
                active_hand_index: None,
            },
            GameState::RoundComplete { dealer_hand, player_hands, player_bankroll } => GameStateDto {
                phase: GamePhase::RoundComplete,
                player_bankroll,
                player_bet: first_bet(player_hands),
                dealer_hand: Some(dealer_hand),
                player_hands: Some(player_hands),
                active_hand_index: None,
            },
        }
    }
}

impl From<GameState> for GameStateDto {
    /// Lays the state out flat.
    fn from(state: GameState) -> (dto: GameStateDto) {
        match state {
            GameState::WaitingForBet { player_bankroll } => GameStateDto {
                phase: GamePhase::WaitingForBet,
                player_bankroll,
                player_bet: None,
                dealer_hand: None,
                player_hands: None,
                active_hand_index: None,
            },
            GameState::WaitingToDeal { player_bet, player_bankroll } => GameStateDto {
                phase: GamePhase::WaitingToDeal,
                player_bankroll,
                player_bet: Some(player_bet),
                dealer_hand: None,
                player_hands: None,
                active_hand_index: None,
            },
            GameState::PlayerTurn {
                dealer_hand,
                player_hands,
                player_bankroll,
                active_hand_index,
            } => GameStateDto {
                phase: GamePhase::PlayerTurn,
                player_bankroll,
                player_bet: bet_of_first(&player_hands),
                dealer_hand: Some(dealer_hand),
                player_hands: Some(player_hands),
                active_hand_index: Some(active_hand_index),
            },
            GameState::DealerTurn { dealer_hand, player_hands, player_bankroll } => GameStateDto {
                phase: GamePhase::DealerTurn,
                player_bankroll,
                player_bet: bet_of_first(&player_hands),
                dealer_hand: Some(dealer_hand),
                player_hands: Some(player_hands),
                active_hand_index: None,
            },
            GameState::RoundComplete { dealer_hand, player_hands, player_bankroll } => GameStateDto {
                phase: GamePhase::RoundComplete,
                player_bankroll,
                player_bet: bet_of_first(&player_hands),
                dealer_hand: Some(dealer_hand),
                player_hands: Some(player_hands),
                active_hand_index: None,
            },
        }
    }
}

/// The state of a round, as plain values.
pub enum GameStateView {
    WaitingForBet { player_bankroll: int },
    WaitingToDeal { player_bet: nat, player_bankroll: int },
    PlayerTurn {
        dealer_hand: HandView,
        player_hands: Seq<HandView>,
        player_bankroll: int,
        active_hand_index: int,
    },
    DealerTurn { dealer_hand: HandView, player_hands: Seq<HandView>, player_bankroll: int },
    RoundComplete { dealer_hand: HandView, player_hands: Seq<HandView>, player_bankroll: int },
}

impl View for GameState {
    type V = GameStateView;

    open spec fn view(&self) -> GameStateView {
        match *self {
            GameState::WaitingForBet { player_bankroll } => GameStateView::WaitingForBet {
                player_bankroll: player_bankroll as int,
            },
            GameState::WaitingToDeal { player_bet, player_bankroll } => GameStateView::WaitingToDeal {
                player_bet: player_bet as nat,
                player_bankroll: player_bankroll as int,
            },
            GameState::PlayerTurn {
                dealer_hand,
                player_hands,
                player_bankroll,
                active_hand_index,
            } => GameStateView::PlayerTurn {
                dealer_hand: dealer_hand@,
                player_hands: player_hands.deep_view(),
                player_bankroll: player_bankroll as int,
                active_hand_index: active_hand_index as int,
            },
            GameState::DealerTurn { dealer_hand, player_hands, player_bankroll } => GameStateView::DealerTurn {
                dealer_hand: dealer_hand@,
                player_hands: player_hands.deep_view(),
                player_bankroll: player_bankroll as int,
            },
            GameState::RoundComplete { dealer_hand, player_hands, player_bankroll } => GameStateView::RoundComplete {
                dealer_hand: dealer_hand@,
                player_hands: player_hands.deep_view(),
                player_bankroll: player_bankroll as int,
            },
        }
    }
}

/// What the bankroll is credited for a hand that ended with `outcome` and
/// carried `bet`: twice the bet for a win, the bet itself for a push, nothing
/// for a loss, and two and a half times the bet for a blackjack. Money comes
/// in whole units, so the half unit of an odd bet is not paid.
pub open spec fn payout(outcome: HandOutcome, bet: nat) -> int {
    match outcome {
        HandOutcome::Win => 2 * (bet as int),
        HandOutcome::Push => bet as int,
        HandOutcome::Loss => 0,
        HandOutcome::Blackjack => (5 * (bet as int)) / 2,
    }
}

/// How a hand of `cards` ends against the dealer's cards at the settlement:
/// a bust hand loses; against a bust dealer every other hand wins; else the
/// higher best total wins, and equal totals push.
pub open spec fn settle_outcome(cards: Seq<Card>, dealer: Seq<Card>) -> HandOutcome {
    if is_bust(cards) {
        HandOutcome::Loss
    } else if is_bust(dealer) {
        HandOutcome::Win
    } else if best_total(dealer) > best_total(cards) {
        HandOutcome::Loss
    } else if best_total(cards) > best_total(dealer) {
        HandOutcome::Win
    } else {
        HandOutcome::Push
    }
}

/// The hand with the outcome it has at the settlement.
pub open spec fn settle_hand(hand: HandView, dealer: Seq<Card>) -> HandView {
    HandView { outcome: Some(settle_outcome(hand.cards, dealer)), ..hand }
}

/// What the settlement credits for all the hands together.
pub open spec fn settle_credit(hands: Seq<HandView>, dealer: Seq<Card>) -> int
    decreases hands.len(),
{
    if hands.len() == 0 {
        0
    } else {
        settle_credit(hands.drop_last(), dealer) + payout(
            settle_outcome(hands.last().cards, dealer),
            hands.last().bet,
        )
    }
}

/// A game, as plain values.
pub struct GameView {
    pub shoe: ShoeView,
    pub player: PlayerView,
    pub dealer: PlayerView,
    pub state: GameStateView,
}

impl GameView {
    /// Whether the state shows the game as it is: the bankroll and, once
    /// cards are dealt, the hands. Before the deal the hands are empty, and
    /// the player's hand carries the bet once it is placed. In the player's
    /// turn the hand that is played is one of the player's hands.
    pub open spec fn state_fits(self) -> bool {
        match self.state {
            GameStateView::WaitingForBet { player_bankroll } => {
                &&& player_bankroll == self.player.bank_roll
                &&& self.player.hands == seq![empty_hand()]
                &&& self.dealer.hands == seq![empty_hand()]
            },
            GameStateView::WaitingToDeal { player_bet, player_bankroll } => {
                &&& player_bankroll == self.player.bank_roll
                &&& self.player.hands == seq![HandView { bet: player_bet, ..empty_hand() }]
                &&& self.dealer.hands == seq![empty_hand()]
            },
            GameStateView::PlayerTurn {
                dealer_hand,
                player_hands,
                player_bankroll,
                active_hand_index,
            } => {
                &&& dealer_hand == self.dealer.hands[0]
                &&& player_hands == self.player.hands
                &&& player_bankroll == self.player.bank_roll
                &&& 0 <= active_hand_index < self.player.hands.len()
            },
            GameStateView::DealerTurn { dealer_hand, player_hands, player_bankroll } => {
                &&& dealer_hand == self.dealer.hands[0]
                &&& player_hands == self.player.hands
                &&& player_bankroll == self.player.bank_roll
            },
            GameStateView::RoundComplete { dealer_hand, player_hands, player_bankroll } => {
                &&& dealer_hand == self.dealer.hands[0]
                &&& player_hands == self.player.hands
                &&& player_bankroll == self.player.bank_roll
            },
        }
    }

    /// Whether the parts of the game fit together: the dealer has one hand,
    /// the player at least one, and the state shows the game as it is.
    pub open spec fn wf(self) -> bool {
        &&& self.dealer.hands.len() == 1
        &&& self.player.hands.len() >= 1
        &&& self.state_fits()
    }

    /// Whether the amounts of money fit the integers that hold them.
    pub open spec fn amounts_fit(self) -> bool {
        &&& i64::MIN <= self.player.bank_roll <= i64::MAX
        &&& forall|i: int|
            0 <= i < self.player.hands.len() ==> (#[trigger] self.player.hands[i]).bet <= u64::MAX
    }

    /// Whether the totals of every hand fit the numbers they are counted in,
    /// also when the hand gets `more` cards: a card counts at most 11.
    pub open spec fn hands_fit(self, more: nat) -> bool {
        &&& forall|i: int|
            0 <= i < self.dealer.hands.len() ==> 11 * ((#[trigger] self.dealer.hands[i]).cards.len()
                + more) <= u32::MAX
        &&& forall|i: int|
            0 <= i < self.player.hands.len() ==> 11 * ((#[trigger] self.player.hands[i]).cards.len()
                + more) <= u32::MAX
    }

    /// What the machine asks of a game before the deal: while the game waits
    /// for the deal, the cards of the shoe's decks can be counted, and the
    /// bankroll can take what a blackjack pays.
    pub open spec fn deal_fits(self) -> bool {
        self.state is WaitingToDeal ==> self.shoe.decks_fit() && self.can_pay_blackjack()
    }

    /// What the machine asks of a game before `action` on the hand at
    /// `index`: every hand can take one more card and still be counted, and
    /// the amounts of money fit after the action.
    pub open spec fn action_fits(self, action: GameAction, index: int) -> bool {
        self.hands_fit(1) && self.after_action(action, index).amounts_fit()
    }

    /// What the machine asks of a game before a step of the dealer: every
    /// hand can take one more card and still be counted, and the amounts of
    /// money fit after the step.
    pub open spec fn dealer_step_fits(self) -> bool {
        self.hands_fit(1) && self.after_dealer_step().amounts_fit()
    }

    /// What the machine asks of a game before the settlement: every hand can
    /// be counted, and the amounts of money fit after the settlement.
    pub open spec fn settlement_fits(self) -> bool {
        self.hands_fit(0) && self.after_settlement().amounts_fit()
    }

    /// The game with another shoe.
    pub open spec fn with_shoe(self, shoe: ShoeView) -> GameView {
        GameView { shoe, ..self }
    }

    /// The game in the player's turn on the hand at `active`, showing the
    /// hands and the bankroll as they are.
    pub open spec fn player_turn(self, active: int) -> GameView {
        GameView {
            state: GameStateView::PlayerTurn {
                dealer_hand: self.dealer.hands[0],
                player_hands: self.player.hands,
                player_bankroll: self.player.bank_roll,
                active_hand_index: active,
            },
            ..self
        }
    }

    /// The game in the dealer's turn, showing the hands and the bankroll as
    /// they are.
    pub open spec fn dealer_turn(self) -> GameView {
        GameView {
            state: GameStateView::DealerTurn {
                dealer_hand: self.dealer.hands[0],
                player_hands: self.player.hands,
                player_bankroll: self.player.bank_roll,
            },
            ..self
        }
    }

    /// The game with the round over, showing the hands and the bankroll as
    /// they are.
    pub open spec fn round_complete(self) -> GameView {
        GameView {
            state: GameStateView::RoundComplete {
                dealer_hand: self.dealer.hands[0],
                player_hands: self.player.hands,
                player_bankroll: self.player.bank_roll,
            },
            ..self
        }
    }

    /// The game after a card was drawn for the player's hand at `index`.
    /// With no card left in the shoe nothing changes.
    pub open spec fn deal_to_player(self, index: int) -> GameView {
        match self.shoe.top() {
            Some(card) => GameView {
                shoe: self.shoe.after_draw(),
                player: self.player.with_card(card, index),
                ..self
            },
            None => self,
        }
    }

    /// The game after a card was drawn for the dealer. With no card left in
    /// the shoe nothing changes.
    pub open spec fn deal_to_dealer(self) -> GameView {
        match self.shoe.top() {
            Some(card) => GameView {
                shoe: self.shoe.after_draw(),
                dealer: self.dealer.with_card(card, 0),
                ..self
            },
            None => self,
        }
    }

    /// The game with `outcome` on the player's hand at `index`.
    pub open spec fn with_outcome(self, index: int, outcome: HandOutcome) -> GameView {
        let hand = self.player.hands[index];
        GameView {
            player: PlayerView {
                hands: self.player.hands.update(index, HandView { outcome: Some(outcome), ..hand }),
                ..self.player
            },
            ..self
        }
    }

    /// Whether a bet of `bet` is accepted: no bet was placed yet, and the
    /// bankroll covers it.
    pub open spec fn accepts_bet(self, bet: nat) -> bool {
        self.state is WaitingForBet && bet <= self.player.bank_roll
    }

    /// The game after a bet of `bet` was offered. An accepted bet leaves the
    /// bankroll and goes on the player's hand, and the game waits for the
    /// deal. A bet that is not accepted changes nothing.
    pub open spec fn after_bet(self, bet: nat) -> GameView {
        if self.accepts_bet(bet) {
            let hand = self.player.hands[0];
            GameView {
                player: PlayerView {
                    hands: self.player.hands.update(0, HandView { bet, ..hand }),
                    bank_roll: self.player.bank_roll - bet,
                },
                state: GameStateView::WaitingToDeal {
                    player_bet: bet,
                    player_bankroll: self.player.bank_roll - bet,
                },
                ..self
            }
        } else {
            self
        }
    }

    /// The game with the round over at the deal: the player's first hand has
    /// `outcome`, and the bankroll is credited what that outcome pays.
    pub open spec fn complete_at_deal(self, outcome: HandOutcome) -> GameView {
        let hand = self.player.hands[0];
        GameView {
            player: PlayerView {
                hands: self.player.hands.update(0, HandView { outcome: Some(outcome), ..hand }),
                bank_roll: self.player.bank_roll + payout(outcome, hand.bet),
            },
            ..self
        }.round_complete()
    }

    /// The game after the first cards were dealt from the shoe as it is: one
    /// to the player, one to the dealer, and both once more. Two cards that
    /// count 21 end the round at once: for both sides a push, for the player
    /// alone a blackjack, for the dealer alone a loss. Else the player's turn
    /// begins on the first hand.
    pub open spec fn after_first_cards(self) -> GameView {
        let dealt = self.deal_to_player(0).deal_to_dealer().deal_to_player(0).deal_to_dealer();
        let player_natural = is_natural(dealt.player.hands[0].cards);
        let dealer_natural = is_natural(dealt.dealer.hands[0].cards);
        if player_natural && dealer_natural {
            dealt.complete_at_deal(HandOutcome::Push)
        } else if player_natural {
            dealt.complete_at_deal(HandOutcome::Blackjack)
        } else if dealer_natural {
            dealt.complete_at_deal(HandOutcome::Loss)
        } else {
            dealt.player_turn(0)
        }
    }

    /// Whether the bankroll can take what a blackjack on the first hand
    /// pays, the most that a deal can pay.
    pub open spec fn can_pay_blackjack(self) -> bool {
        self.player.bank_roll + payout(HandOutcome::Blackjack, self.player.hands[0].bet)
            <= i64::MAX
    }

    /// The game after the deal was asked for, `ready` being the shoe that the
    /// cards are dealt from. While the game waits for the deal, the first
    /// cards are dealt; in any other phase nothing changes.
    pub open spec fn after_deal(self, ready: ShoeView) -> GameView {
        if self.state is WaitingToDeal {
            self.with_shoe(ready).after_first_cards()
        } else {
            self
        }
    }

    /// Whether an action on the hand at `index` is taken up: it is the
    /// player's turn, on that hand.
    pub open spec fn accepts_action(self, index: int) -> bool {
        match self.state {
            GameStateView::PlayerTurn { active_hand_index, .. } => active_hand_index == index,
            _ => false,
        }
    }

    /// The game after the hand at `index` is done: the next hand, if there
    /// is one, gets a card and is played; else the dealer's turn begins.
    pub open spec fn move_on(self, index: int) -> GameView {
        if index + 1 < self.player.hands.len() {
            self.deal_to_player(index + 1).player_turn(index + 1)
        } else {
            self.dealer_turn()
        }
    }

    /// The game after a hit on the hand at `index`: the hand gets a card. A
    /// bust hand has lost, and the next hand is played, or the round is over
    /// if there is none. A hand that counts 21 is done. Else the hand is
    /// played on. With no card left in the shoe nothing changes.
    pub open spec fn after_hit(self, index: int) -> GameView {
        if self.shoe.top() is None {
            self
        } else {
            let drawn = self.deal_to_player(index);
            let cards = drawn.player.hands[index].cards;
            if is_bust(cards) {
                let lost = drawn.with_outcome(index, HandOutcome::Loss);
                if index + 1 < lost.player.hands.len() {
                    lost.deal_to_player(index + 1).player_turn(index + 1)
                } else {
                    lost.round_complete()
                }
            } else if best_total(cards) == 21 {
                drawn.move_on(index)
            } else {
                drawn.player_turn(index)
            }
        }
    }

    /// The game after a double on the hand at `index`: the hand gets one
    /// card, its bet leaves the bankroll once more and is doubled, and the
    /// hand is done. With no card left in the shoe nothing changes.
    pub open spec fn after_double(self, index: int) -> GameView {
        if self.shoe.top() is None {
            self
        } else {
            let drawn = self.deal_to_player(index);
            let hand = drawn.player.hands[index];
            GameView {
                player: PlayerView {
                    hands: drawn.player.hands.update(
                        index,
                        HandView { bet: 2 * hand.bet, ..hand },
                    ),
                    bank_roll: drawn.player.bank_roll - hand.bet,
                },
                ..drawn
            }.move_on(index)
        }
    }

    /// The game after a split of the hand at `index`. Two cards of one rank
    /// part: the second becomes a new hand behind this one, with the same
    /// bet, which leaves the bankroll once more. This hand gets a card and is
    /// played on. Any other hand cannot be split, and nothing changes.
    pub open spec fn after_split(self, index: int) -> GameView {
        let hand = self.player.hands[index];
        if is_pair(hand.cards) {
            let kept = HandView { cards: seq![hand.cards[0]], ..hand };
            let parted = HandView { bet: hand.bet, cards: seq![hand.cards[1]], outcome: None };
            GameView {
                player: PlayerView {
                    hands: self.player.hands.update(index, kept).insert(index + 1, parted),
                    bank_roll: self.player.bank_roll - hand.bet,
                },
                ..self
            }.deal_to_player(index).player_turn(index)
        } else {
            self
        }
    }

    /// The game after `action` on the hand at `index`. An action that is not
    /// taken up changes nothing.
    pub open spec fn after_action(self, action: GameAction, index: int) -> GameView {
        if self.accepts_action(index) {
            match action {
                GameAction::Hit => self.after_hit(index),
                GameAction::Stand => self.move_on(index),
                GameAction::Double => self.after_double(index),
                GameAction::Split => self.after_split(index),
            }
        } else {
            self
        }
    }

    /// The game settled: every hand of the player has its outcome against
    /// the dealer's hand, the bankroll is credited what the outcomes pay, and
    /// the round is over.
    pub open spec fn settled(self) -> GameView {
        let dealer = self.dealer.hands[0].cards;
        GameView {
            player: PlayerView {
                hands: self.player.hands.map_values(|hand: HandView| settle_hand(hand, dealer)),
                bank_roll: self.player.bank_roll + settle_credit(self.player.hands, dealer),
            },
            ..self
        }.round_complete()
    }

    /// The game after the settlement was asked for: in the dealer's turn the
    /// game is settled; in any other phase nothing changes.
    pub open spec fn after_settlement(self) -> GameView {
        if self.state is DealerTurn {
            self.settled()
        } else {
            self
        }
    }

    /// The game after one step of the dealer. With a best total of 16 or
    /// less the dealer draws a card; a bust dealer settles the game, and else
    /// the dealer's turn goes on. With 17 or more the game is settled. With
    /// no card left to draw, or in another phase, nothing changes.
    pub open spec fn after_dealer_step(self) -> GameView {
        if self.state is DealerTurn {
            if best_total(self.dealer.hands[0].cards) <= 16 {
                if self.shoe.top() is None {
                    self
                } else {
                    let drawn = self.deal_to_dealer();
                    if is_bust(drawn.dealer.hands[0].cards) {
                        drawn.settled()
                    } else {
                        drawn.dealer_turn()
                    }
                }
            } else {
                self.settled()
            }
        } else {
            self
        }
    }

    /// The game after the next round was asked for: once the round is over,
    /// player and dealer have one empty hand each, the bankroll stays, and
    /// the game waits for a bet. In any other phase nothing changes.
    pub open spec fn after_next_round(self) -> GameView {
        if self.state is RoundComplete {
            GameView {
                player: self.player.with_fresh_hand(),
                dealer: self.dealer.with_fresh_hand(),
                state: GameStateView::WaitingForBet { player_bankroll: self.player.bank_roll },
                ..self
            }
        } else {
            self
        }
    }
}

/// A game of Blackjack for one player against the dealer.
pub struct Game {
    /// The settings the game was made from.
    pub settings: GameSettings,
    /// The shoe the cards are drawn from.
    pub shoe: Shoe,
    /// The player.
    pub player: Player,
    /// The dealer.
    pub dealer: Player,
    /// The state of the round.
    pub state: GameState,
}

impl View for Game {
    type V = GameView;

    open spec fn view(&self) -> GameView {
        GameView {
            shoe: self.shoe@,
            player: self.player@,
            dealer: self.dealer@,
            state: self.state@,
        }
    }
}

impl Game {
    /// Whether the parts of the game fit together.
    pub open spec fn wf(&self) -> bool {
        self@.wf()
    }

    /// Makes a game from its settings: an unshuffled shoe of as many decks as
    /// the settings say, a player with a bankroll of 10,000, and a dealer,
    /// each with one empty hand. The game waits for a bet.
    pub fn new(settings: GameSettings) -> (game: Game)
        ensures
            game.settings == settings,
            game.shoe@ == (ShoeView {
                cards: crate::shoe::full_shoe(settings.deck_count as nat),
                discarded: Seq::empty(),
                decks: settings.deck_count as nat,
            }),
            game.player@ == (PlayerView { hands: seq![empty_hand()], bank_roll: 10_000 }),
            game.dealer@ == (PlayerView { hands: seq![empty_hand()], bank_roll: 10_000 }),
            game.state@ == (GameStateView::WaitingForBet { player_bankroll: 10_000 }),
            game@.shoe.is_complete(),
            game.wf(),
    {
        let player = Player::new();
        let bankroll = player.bank_roll;
        Game {
            player,
            dealer: Player::new(),
            shoe: Shoe::new(settings.deck_count as usize),
            settings,
            state: GameState::WaitingForBet { player_bankroll: bankroll },
        }
    }

    /// Returns the state of the round.
    pub fn get_state(&self) -> (state: &GameState)
        ensures
            *state == self.state,
    {
        &self.state
    }

    /// Shuffles the cards that are left in the shoe. Nothing else changes.
    pub fn shuffle_shoe(&mut self)
        ensures
            final(self)@.shoe.cards.to_multiset() == old(self)@.shoe.cards.to_multiset(),
            final(self)@ == old(self)@.with_shoe(final(self)@.shoe),
            final(self)@.shoe.discarded == old(self)@.shoe.discarded,
            final(self)@.shoe.decks == old(self)@.shoe.decks,
            final(self).settings == old(self).settings,
            old(self)@.shoe.is_complete() ==> final(self)@.shoe.is_complete(),
            old(self).wf() ==> final(self).wf(),
    {
        self.shoe.shuffle();
    }

    /// Takes a bet. The bet is accepted if no bet was placed yet in this
    /// round and the bankroll covers it: it then leaves the bankroll and goes
    /// on the player's hand, and the game waits for the deal. Else nothing
    /// changes. Returns whether the bet was accepted.
    pub fn accept_user_bet(&mut self, bet: u64) -> (accepted: bool)
        requires
            old(self).wf(),
        ensures
            accepted == old(self)@.accepts_bet(bet as nat),
            final(self)@ == old(self)@.after_bet(bet as nat),
            final(self).settings == old(self).settings,
            final(self).wf(),
    {
        let waiting = matches!(self.state, GameState::WaitingForBet { .. });
        if !waiting || self.player.bank_roll < 0 || bet > self.player.bank_roll as u64 {
            return false;
        }
        self.player.bank_roll = self.player.bank_roll - bet as i64;
        self.player.hands[0].bet = bet;
        self.state = GameState::WaitingToDeal {
            player_bet: bet,
            player_bankroll: self.player.bank_roll,
        };
        proof {
            assert(self@.player.hands =~= old(self)@.after_bet(bet as nat).player.hands);
            assert(self@.player.hands =~= seq![HandView { bet: bet as nat, ..empty_hand() }]);
        }
        true
    }

    /// Draws a card for the player's hand at `index`, if a card is left.
    fn draw_for_player(&mut self, index: usize)
        ensures
            final(self)@ == old(self)@.deal_to_player(index as int),
            final(self).settings == old(self).settings,
            old(self)@.shoe.is_complete() ==> final(self)@.shoe.is_complete(),
    {
        match self.shoe.draw_card() {
            Some(card) => {
                self.player.add_card_to_hand(card, index);
            },
            None => {},
        }
    }

    /// Draws a card for the dealer, if a card is left.
    fn draw_for_dealer(&mut self)
        ensures
            final(self)@ == old(self)@.deal_to_dealer(),
            final(self).settings == old(self).settings,
            old(self)@.shoe.is_complete() ==> final(self)@.shoe.is_complete(),
    {
        match self.shoe.draw_card() {
            Some(card) => {
                self.dealer.add_card_to_hand(card, 0);
            },
            None => {},
        }
    }

    /// Puts the game in the player's turn on the hand at `active`.
    fn show_player_turn(&mut self, active: usize)
        requires
            old(self)@.dealer.hands.len() >= 1,
        ensures
            final(self)@ == old(self)@.player_turn(active as int),
            final(self).settings == old(self).settings,
    {
        let player_hands = self.player.hands.clone();
        assert(player_hands.deep_view() =~= self.player.hands.deep_view());
        self.state = GameState::PlayerTurn {
            dealer_hand: self.dealer.hands[0].clone(),
            player_hands,
            player_bankroll: self.player.bank_roll,
            active_hand_index: active,
        };
    }

    /// Puts the game in the dealer's turn.
    fn show_dealer_turn(&mut self)
        requires
            old(self)@.dealer.hands.len() >= 1,
        ensures
            final(self)@ == old(self)@.dealer_turn(),
            final(self).settings == old(self).settings,
    {
        let player_hands = self.player.hands.clone();
        assert(player_hands.deep_view() =~= self.player.hands.deep_view());
        self.state = GameState::DealerTurn {
            dealer_hand: self.dealer.hands[0].clone(),
            player_hands,
            player_bankroll: self.player.bank_roll,
        };
    }

    /// Ends the round.
    fn show_round_complete(&mut self)
        requires
            old(self)@.dealer.hands.len() >= 1,
        ensures
            final(self)@ == old(self)@.round_complete(),
            final(self).settings == old(self).settings,
    {
        let player_hands = self.player.hands.clone();
        assert(player_hands.deep_view() =~= self.player.hands.deep_view());
        self.state = GameState::RoundComplete {
            dealer_hand: self.dealer.hands[0].clone(),
            player_hands,
            player_bankroll: self.player.bank_roll,
        };
    }

    /// Ends the round at the deal with `outcome` on the first hand.
    fn finish_at_deal(&mut self, outcome: HandOutcome)
        requires
            old(self)@.dealer.hands.len() >= 1,
            old(self).player.hands.len() >= 1,
            old(self)@.can_pay_blackjack(),
        ensures
            final(self)@ == old(self)@.complete_at_deal(outcome),
            final(self).settings == old(self).settings,
    {
        let credit = credit_for(outcome, self.player.hands[0].bet);
        self.player.bank_roll = (self.player.bank_roll as i128 + credit) as i64;
        self.player.hands[0].outcome = Some(outcome);
        proof {
            assert(self@.player.hands =~= old(self)@.player.hands.update(
                0,
                HandView { outcome: Some(outcome), ..old(self)@.player.hands[0] },
            ));
        }
        self.show_round_complete();
    }

    /// Deals the first cards. While the game waits for the deal: the shoe is
    /// replaced by a new, shuffled one if fewer than eight cards are left in
    /// it, four for each of player and dealer; then player and dealer get two
    /// cards each, the player first, one card at a time. Two cards that count
    /// 21 end the round at once; else the player's turn begins. In any other phase nothing changes. Returns
    /// whether the shoe was replaced.
    pub fn deal_initial_cards(&mut self) -> (replaced: bool)
        requires
            old(self).wf(),
            old(self)@.deal_fits(),
        ensures
            replaced == (old(self)@.state is WaitingToDeal && old(self)@.shoe.cards.len() < 8),
            exists|ready: ShoeView|
                #[trigger] old(self)@.shoe.made_ready(ready, 1) && final(self)@ == old(
                    self,
                )@.after_deal(ready),
            final(self).settings == old(self).settings,
            replaced || old(self)@.shoe.is_complete() ==> final(self)@.shoe.is_complete(),
            final(self).wf(),
    {
        if !matches!(self.state, GameState::WaitingToDeal { .. }) {
            proof {
                let ready = if old(self)@.shoe.cards.len() < 8 {
                    ShoeView {
                        cards: crate::shoe::full_shoe(old(self)@.shoe.decks),
                        discarded: Seq::empty(),
                        decks: old(self)@.shoe.decks,
                    }
                } else {
                    old(self)@.shoe
                };
                assert(old(self)@.shoe.made_ready(ready, 1));
            }
            return false;
        }
        let replaced = self.shoe.ensure_cards_for_players(1);
        let ghost ready = self.shoe@;
        let ghost start = self@;
        proof {
            assert(start == old(self)@.with_shoe(ready));
            assert(old(self)@.shoe.made_ready(ready, 1));
            lemma_first_cards_keep_wf(start);
        }
        self.draw_for_player(0);
        self.draw_for_dealer();
        self.draw_for_player(0);
        self.draw_for_dealer();
        let player_natural = self.player.hands[0].is_natural_blackjack();
        let dealer_natural = self.dealer.hands[0].is_natural_blackjack();
        if player_natural && dealer_natural {
            self.finish_at_deal(HandOutcome::Push);
        } else if player_natural {
            self.finish_at_deal(HandOutcome::Blackjack);
        } else if dealer_natural {
            self.finish_at_deal(HandOutcome::Loss);
        } else {
            self.show_player_turn(0);
        }
        replaced
    }

    /// Goes on from the hand at `index`, which is done: to the next hand,
    /// which gets a card, or to the dealer's turn.
    fn move_on(&mut self, index: usize)
        requires
            old(self)@.dealer.hands.len() == 1,
            index < old(self).player.hands.len(),
        ensures
            final(self)@ == old(self)@.move_on(index as int),
            final(self).settings == old(self).settings,
            old(self)@.shoe.is_complete() ==> final(self)@.shoe.is_complete(),
            final(self).wf(),
    {
        if self.player.hands.len() > index + 1 {
            self.draw_for_player(index + 1);
            self.show_player_turn(index + 1);
        } else {
            self.show_dealer_turn();
        }
    }

    /// Hits on the hand at `index`.
    fn hit(&mut self, index: usize)
        requires
            old(self).wf(),
            index < old(self).player.hands.len(),
            old(self)@.hands_fit(1),
        ensures
            final(self)@ == old(self)@.after_hit(index as int),
            final(self).settings == old(self).settings,
            old(self)@.shoe.is_complete() ==> final(self)@.shoe.is_complete(),
            final(self).wf(),
    {
        match self.shoe.draw_card() {
            Some(card) => {
                self.player.add_card_to_hand(card, index);
                assert(old(self)@.player.hands[index as int].cards.len() + 1
                    == self@.player.hands[index as int].cards.len());
                if self.player.hands[index].is_busted() {
                    self.player.hands[index].outcome = Some(HandOutcome::Loss);
                    proof {
                        let drawn = old(self)@.deal_to_player(index as int);
                        assert(self@.player.hands =~= drawn.with_outcome(
                            index as int,
                            HandOutcome::Loss,
                        ).player.hands);
                    }
                    if self.player.hands.len() > index + 1 {
                        self.draw_for_player(index + 1);
                        self.show_player_turn(index + 1);
                    } else {
                        self.show_round_complete();
                    }
                } else if self.player.hands[index].is_blackjack() {
                    self.move_on(index);
                } else {
                    self.show_player_turn(index);
                }
            },
            None => {},
        }
    }

    /// Doubles on the hand at `index`.
    fn double(&mut self, index: usize)
        requires
            old(self).wf(),
            index < old(self).player.hands.len(),
            old(self)@.after_double(index as int).amounts_fit(),
        ensures
            final(self)@ == old(self)@.after_double(index as int),
            final(self).settings == old(self).settings,
            old(self)@.shoe.is_complete() ==> final(self)@.shoe.is_complete(),
            final(self).wf(),
    {
        match self.shoe.draw_card() {
            Some(card) => {
                self.player.add_card_to_hand(card, index);
                let ghost drawn = self@;
                let bet = self.player.hands[index].bet;
                proof {
                    let hand = drawn.player.hands[index as int];
                    let staked = GameView {
                        player: PlayerView {
                            hands: drawn.player.hands.update(
                                index as int,
                                HandView { bet: 2 * hand.bet, ..hand },
                            ),
                            bank_roll: drawn.player.bank_roll - hand.bet,
                        },
                        ..drawn
                    };
                    let after = staked.move_on(index as int);
                    assert(after == old(self)@.after_double(index as int));
                    assert(after.player.bank_roll == staked.player.bank_roll);
                    assert(after.player.hands[index as int].bet == 2 * hand.bet);
                }
                self.player.bank_roll = (self.player.bank_roll as i128 - bet as i128) as i64;
                self.player.hands[index].double_bet();
                proof {
                    let hand = drawn.player.hands[index as int];
                    assert(self@.player.hands =~= drawn.player.hands.update(
                        index as int,
                        HandView { bet: 2 * hand.bet, ..hand },
                    ));
                }
                self.move_on(index);
            },
            None => {},
        }
    }

    /// Splits the hand at `index`.
    fn split(&mut self, index: usize)
        requires
            old(self).wf(),
            index < old(self).player.hands.len(),
            old(self)@.after_split(index as int).amounts_fit(),
        ensures
            final(self)@ == old(self)@.after_split(index as int),
            final(self).settings == old(self).settings,
            old(self)@.shoe.is_complete() ==> final(self)@.shoe.is_complete(),
            final(self).wf(),
    {
        if self.player.hands[index].can_split() {
            let ghost hand = self@.player.hands[index as int];
            let ghost kept = HandView { cards: seq![hand.cards[0]], ..hand };
            let ghost parted = HandView { bet: hand.bet, cards: seq![hand.cards[1]], outcome: None };
            let ghost parted_game = GameView {
                player: PlayerView {
                    hands: self@.player.hands.update(index as int, kept).insert(index + 1, parted),
                    bank_roll: self@.player.bank_roll - hand.bet,
                },
                ..self@
            };
            proof {
                let after = parted_game.deal_to_player(index as int).player_turn(index as int);
                assert(after == old(self)@.after_split(index as int));
                assert(after.player.bank_roll == parted_game.player.bank_roll);
            }
            let split_card = self.player.hands[index].cards.pop().unwrap();
            let new_bet = self.player.hands[index].bet;
            self.player.bank_roll = (self.player.bank_roll as i128 - new_bet as i128) as i64;
            let new_hand = Hand::with_card_and_bet(split_card, new_bet);
            self.player.hands.insert(index + 1, new_hand);
            proof {
                assert(hand.cards.drop_last() =~= seq![hand.cards[0]]);
                assert(self@.player.hands =~= parted_game.player.hands);
                assert(self@ == parted_game);
            }
            self.draw_for_player(index);
            self.show_player_turn(index);
        }
    }

    /// Carries out what the player does with the hand at `hand_index`. The
    /// action is taken up in the player's turn, on the hand that is being
    /// played; else nothing changes.
    ///
    /// - Hit: the hand gets a card. A bust hand has lost; the next hand is
    ///   then played, or the round is over if there is none. A hand that
    ///   counts 21 is done.
    /// - Stand: the hand is done.
    /// - Double: the hand gets one card; its bet leaves the bankroll once
    ///   more and is doubled; the hand is done.
    /// - Split: two cards of one rank part into two hands with the same bet,
    ///   the second bet leaving the bankroll; the hand gets a card and is
    ///   played on. A hand that is no such pair is left as it is.
    ///
    /// After a hand that is done the next hand gets a card and is played; if
    /// there is none, the dealer's turn begins. A hit or a double with no
    /// card left in the shoe changes nothing.
    pub fn process_player_action(&mut self, action: GameAction, hand_index: usize)
        requires
            old(self).wf(),
            old(self)@.action_fits(action, hand_index as int),
        ensures
            final(self)@ == old(self)@.after_action(action, hand_index as int),
            final(self).settings == old(self).settings,
            old(self)@.shoe.is_complete() ==> final(self)@.shoe.is_complete(),
            final(self).wf(),
    {
        let on_turn = match &self.state {
            GameState::PlayerTurn { active_hand_index, .. } => *active_hand_index == hand_index,
            _ => false,
        };
        if !on_turn {
            return;
        }
        match action {
            GameAction::Hit => {
                self.hit(hand_index);
            },
            GameAction::Stand => {
                self.move_on(hand_index);
            },
            GameAction::Double => {
                self.double(hand_index);
            },
            GameAction::Split => {
                self.split(hand_index);
            },
        }
    }

    /// Settles the hands against the dealer's hand and ends the round.
    fn settle(&mut self)
        requires
            old(self)@.dealer.hands.len() == 1,
            old(self)@.player.hands.len() >= 1,
            old(self)@.hands_fit(0),
            old(self)@.settled().amounts_fit(),
        ensures
            final(self)@ == old(self)@.settled(),
            final(self).settings == old(self).settings,
            final(self).wf(),
    {
        let ghost before = self@;
        let ghost dealer = self@.dealer.hands[0].cards;
        let dealer_value = self.dealer.hands[0].best_value();
        let dealer_busted = self.dealer.hands[0].is_busted();
        let mut i: usize = 0;
        while i < self.player.hands.len()
            invariant
                before.dealer.hands.len() == 1,
                before.hands_fit(0),
                before.settled().amounts_fit(),
                before == old(self)@,
                dealer == before.dealer.hands[0].cards,
                dealer_value == best_total(dealer),
                dealer_busted == is_bust(dealer),
                self.settings == old(self).settings,
                self@.shoe == before.shoe,
                self@.dealer == before.dealer,
                self@.state == before.state,
                self@.player.hands.len() == before.player.hands.len(),
                i <= self@.player.hands.len(),
                forall|j: int| 0 <= j < i ==> self@.player.hands[j] == settle_hand(
                    before.player.hands[j],
                    dealer,
                ),
                forall|j: int|
                    i <= j < self@.player.hands.len() ==> self@.player.hands[j]
                        == before.player.hands[j],
                self@.player.bank_roll == before.player.bank_roll + settle_credit(
                    before.player.hands.take(i as int),
                    dealer,
                ),
            decreases self@.player.hands.len() - i,
        {
            proof {
                lemma_settle_credit_grows(before.player.hands, dealer, i + 1);
                assert(before.player.hands.take(i + 1).drop_last() =~= before.player.hands.take(
                    i as int,
                ));
                assert(11 * before.player.hands[i as int].cards.len() <= u32::MAX);
            }
            let outcome = settle_one(
                &self.player.hands[i],
                &self.dealer.hands[0],
                dealer_value,
                dealer_busted,
            );
            let ghost hands = self@.player.hands;
            assert(outcome == settle_outcome(before.player.hands[i as int].cards, dealer));
            let credit = credit_for(outcome, self.player.hands[i].bet);
            self.player.bank_roll = (self.player.bank_roll as i128 + credit) as i64;
            self.player.hands[i].outcome = Some(outcome);
            assert(self@.player.hands =~= hands.update(
                i as int,
                settle_hand(before.player.hands[i as int], dealer),
            ));
            i = i + 1;
        }
        proof {
            assert(before.player.hands.take(i as int) =~= before.player.hands);
            assert(self@.player.hands =~= before.player.hands.map_values(
                |hand: HandView| settle_hand(hand, dealer),
            ));
        }
        self.show_round_complete();
    }

    /// Lets the dealer take one step. In the dealer's turn: with a best
    /// total of 16 or less the dealer draws a card, and the game is settled
    /// if the dealer is bust with it; with 17 or more the game is settled.
    /// With no card left to draw, or in any other phase, nothing changes.
    pub fn next_dealer_turn(&mut self)
        requires
            old(self).wf(),
            old(self)@.dealer_step_fits(),
        ensures
            final(self)@ == old(self)@.after_dealer_step(),
            final(self).settings == old(self).settings,
            old(self)@.shoe.is_complete() ==> final(self)@.shoe.is_complete(),
            final(self).wf(),
    {
        if !matches!(self.state, GameState::DealerTurn { .. }) {
            return;
        }
        assert(11 * (self@.dealer.hands[0].cards.len() + 1) <= u32::MAX);
        let dealer_value = self.dealer.hands[0].best_value();
        if dealer_value <= 16 {
            match self.shoe.draw_card() {
                Some(card) => {
                    self.dealer.add_card_to_hand(card, 0);
                    assert(self@.dealer.hands.len() == 1);
                    assert(11 * self@.dealer.hands[0].cards.len() <= u32::MAX);
                    assert(self@.player == old(self)@.player);
                    assert(self@.hands_fit(0));
                    if self.dealer.hands[0].is_busted() {
                        self.settle();
                        return;
                    }
                    self.show_dealer_turn();
                },
                None => {},
            }
        } else {
            self.settle();
        }
    }

    /// Starts the next round. Once the round is over, player and dealer get
    /// one empty hand each, and the game waits for a bet; the bankroll stays.
    /// In any other phase nothing changes.
    pub fn next_round(&mut self)
        requires
            old(self).wf(),
        ensures
            final(self)@ == old(self)@.after_next_round(),
            final(self).settings == old(self).settings,
            final(self)@.shoe == old(self)@.shoe,
            final(self).wf(),
    {
        if !matches!(self.state, GameState::RoundComplete { .. }) {
            return;
        }
        self.player.reset_hands();
        self.dealer.reset_hands();
        self.state = GameState::WaitingForBet { player_bankroll: self.player.bank_roll };
    }

    /// Settles the game. In the dealer's turn every hand of the player gets
    /// its outcome against the dealer's hand: a bust hand loses; against a
    /// bust dealer every other hand wins; else the higher best total wins and
    /// equal totals push. A win is credited twice the bet, a push the bet.
    /// The round is then over. In any other phase nothing changes.
    pub fn determine_winner_and_complete_round(&mut self)
        requires
            old(self).wf(),
            old(self)@.settlement_fits(),
        ensures
            final(self)@ == old(self)@.after_settlement(),
            final(self).settings == old(self).settings,
            final(self)@.shoe == old(self)@.shoe,
            final(self).wf(),
    {
        if !matches!(self.state, GameState::DealerTurn { .. }) {
            return;
        }
        self.settle();
    }
}

/// Whether the two rows of hands hold the same hands in the same order.
fn same_hands(a: &Vec<Hand>, b: &Vec<Hand>) -> (same: bool)
    ensures
        same == (a.deep_view() == b.deep_view()),
{
    if a.len() != b.len() {
        assert(a.deep_view().len() != b.deep_view().len());
        return false;
    }
    let mut i: usize = 0;
    while i < a.len()
        invariant
            i <= a.len(),
            a.len() == b.len(),
            forall|j: int| 0 <= j < i ==> a.deep_view()[j] == b.deep_view()[j],
        decreases a.len() - i,
    {
        if !a[i].same_as(&b[i]) {
            assert(a.deep_view()[i as int] != b.deep_view()[i as int]);
            return false;
        }
        i = i + 1;
    }
    proof {
        assert(a.deep_view() =~= b.deep_view());
    }
    true
}

/// Whether the hands are one hand without cards and without an outcome that
/// carries `bet`.
fn is_fresh(hands: &Vec<Hand>, bet: u64) -> (fresh: bool)
    ensures
        fresh == (hands.deep_view() == seq![HandView { bet: bet as nat, ..empty_hand() }]),
{
    let ghost expected = seq![HandView { bet: bet as nat, ..empty_hand() }];
    if hands.len() != 1 {
        assert(hands.deep_view().len() != expected.len());
        return false;
    }
    let fresh = hands[0].bet == bet && hands[0].cards.len() == 0 && hands[0].outcome.is_none();
    proof {
        if fresh {
            assert(hands.deep_view()[0].cards =~= Seq::empty());
            assert(hands.deep_view() =~= expected);
        } else {
            assert(hands.deep_view()[0] != expected[0]);
        }
    }
    fresh
}

/// Returns how a hand ends at the settlement against a dealer with the best
/// total `dealer_value`, bust or not.
fn settle_one(hand: &Hand, dealer: &Hand, dealer_value: u32, dealer_busted: bool) -> (outcome:
    HandOutcome)
    requires
        hand.countable(),
        dealer_value == best_total(dealer@.cards),
        dealer_busted == is_bust(dealer@.cards),
    ensures
        outcome == settle_outcome(hand@.cards, dealer@.cards),
{
    let player_value = hand.best_value();
    if hand.is_busted() {
        HandOutcome::Loss
    } else if dealer_busted {
        HandOutcome::Win
    } else if dealer_value > player_value {
        HandOutcome::Loss
    } else if player_value > dealer_value {
        HandOutcome::Win
    } else {
        HandOutcome::Push
    }
}

impl Game {
    /// Returns whether the parts of the game fit together.
    pub fn is_wf(&self) -> (fits: bool)
        ensures
            fits == self.wf(),
    {
        if self.dealer.hands.len() != 1 || self.player.hands.len() < 1 {
            return false;
        }
        let bankroll = self.player.bank_roll;
        match &self.state {
            GameState::WaitingForBet { player_bankroll } => {
                *player_bankroll == bankroll && is_fresh(&self.player.hands, 0) && is_fresh(
                    &self.dealer.hands,
                    0,
                )
            },
            GameState::WaitingToDeal { player_bet, player_bankroll } => {
                *player_bankroll == bankroll && is_fresh(&self.player.hands, *player_bet)
                    && is_fresh(&self.dealer.hands, 0)
            },
            GameState::PlayerTurn {
                dealer_hand,
                player_hands,
                player_bankroll,
                active_hand_index,
            } => {
                dealer_hand.same_as(&self.dealer.hands[0]) && same_hands(
                    player_hands,
                    &self.player.hands,
                ) && *player_bankroll == bankroll && *active_hand_index < self.player.hands.len()
            },
            GameState::DealerTurn { dealer_hand, player_hands, player_bankroll } => {
                dealer_hand.same_as(&self.dealer.hands[0]) && same_hands(
                    player_hands,
                    &self.player.hands,
                ) && *player_bankroll == bankroll
            },
            GameState::RoundComplete { dealer_hand, player_hands, player_bankroll } => {
                dealer_hand.same_as(&self.dealer.hands[0]) && same_hands(
                    player_hands,
                    &self.player.hands,
                ) && *player_bankroll == bankroll
            },
        }
    }

    /// Returns whether every hand can take `more` cards and still be counted.
    fn hands_have_room(&self, more: usize) -> (room: bool)
        requires
            more <= 1,
        ensures
            room == self@.hands_fit(more as nat),
    {
        let most: usize = 390_451_572 - more;
        let mut i: usize = 0;
        while i < self.dealer.hands.len()
            invariant
                i <= self.dealer.hands.len(),
                more <= 1,
                most == 390_451_572 - more,
                forall|j: int|
                    0 <= j < i ==> 11 * ((#[trigger] self@.dealer.hands[j]).cards.len() + more)
                        <= u32::MAX,
            decreases self.dealer.hands.len() - i,
        {
            if self.dealer.hands[i].cards.len() > most {
                assert(11 * (self@.dealer.hands[i as int].cards.len() + more) > u32::MAX);
                return false;
            }
            assert(11 * (self@.dealer.hands[i as int].cards.len() + more) <= u32::MAX);
            i = i + 1;
        }
        let mut k: usize = 0;
        while k < self.player.hands.len()
            invariant
                k <= self.player.hands.len(),
                more <= 1,
                most == 390_451_572 - more,
                forall|j: int|
                    0 <= j < self@.dealer.hands.len() ==> 11 * ((#[trigger] self@.dealer.hands[j]).cards.len()
                        + more) <= u32::MAX,
                forall|j: int|
                    0 <= j < k ==> 11 * ((#[trigger] self@.player.hands[j]).cards.len() + more)
                        <= u32::MAX,
            decreases self.player.hands.len() - k,
        {
            if self.player.hands[k].cards.len() > most {
                assert(11 * (self@.player.hands[k as int].cards.len() + more) > u32::MAX);
                return false;
            }
            assert(11 * (self@.player.hands[k as int].cards.len() + more) <= u32::MAX);
            k = k + 1;
        }
        true
    }

    /// Returns whether the bankroll can take what the settlement against
    /// `dealer` credits.
    fn credit_fits(&self, dealer: &Hand) -> (fits: bool)
        requires
            dealer.countable(),
            self@.hands_fit(0),
        ensures
            fits == (self@.player.bank_roll + settle_credit(self@.player.hands, dealer@.cards)
                <= i64::MAX),
    {
        let ghost hands = self@.player.hands;
        let dealer_value = dealer.best_value();
        let dealer_busted = dealer.is_busted();
        let mut total: i128 = self.player.bank_roll as i128;
        let mut i: usize = 0;
        while i < self.player.hands.len()
            invariant
                i <= self.player.hands.len(),
                hands == self@.player.hands,
                self@.hands_fit(0),
                dealer_value == best_total(dealer@.cards),
                dealer_busted == is_bust(dealer@.cards),
                total == self@.player.bank_roll + settle_credit(hands.take(i as int), dealer@.cards),
                total <= i64::MAX,
            decreases self.player.hands.len() - i,
        {
            proof {
                lemma_settle_credit_grows(hands, dealer@.cards, i + 1);
                lemma_settle_credit_grows(hands, dealer@.cards, i as int);
                assert(hands.take(i + 1).drop_last() =~= hands.take(i as int));
                assert(11 * hands[i as int].cards.len() <= u32::MAX);
            }
            let outcome = settle_one(&self.player.hands[i], dealer, dealer_value, dealer_busted);
            let credit = credit_for(outcome, self.player.hands[i].bet);
            total = total + credit;
            if total > i64::MAX as i128 {
                return false;
            }
            i = i + 1;
        }
        proof {
            assert(hands.take(i as int) =~= hands);
        }
        true
    }

    /// Returns whether the deal can be asked for: what the machine asks of
    /// the game before it.
    pub fn can_deal(&self) -> (fits: bool)
        requires
            self.wf(),
        ensures
            fits == self@.deal_fits(),
    {
        match &self.state {
            GameState::WaitingToDeal { .. } => {
                let credit = credit_for(HandOutcome::Blackjack, self.player.hands[0].bet);
                self.shoe.number_of_decks <= usize::MAX / 52 && self.player.bank_roll as i128
                    + credit <= i64::MAX as i128
            },
            _ => true,
        }
    }

    /// Returns whether `action` on the hand at `hand_index` can be asked for:
    /// what the machine asks of the game before it.
    pub fn can_act(&self, action: GameAction, hand_index: usize) -> (fits: bool)
        requires
            self.wf(),
        ensures
            fits == self@.action_fits(action, hand_index as int),
    {
        if !self.hands_have_room(1) {
            return false;
        }
        proof {
            lemma_actions_keep_the_bets(self@, hand_index as int);
        }
        let on_turn = match &self.state {
            GameState::PlayerTurn { active_hand_index, .. } => *active_hand_index == hand_index,
            _ => false,
        };
        if !on_turn {
            return true;
        }
        let bankroll = self.player.bank_roll as i128;
        let bet = self.player.hands[hand_index].bet;
        match action {
            GameAction::Hit => true,
            GameAction::Stand => true,
            GameAction::Double => {
                if self.shoe.cards.len() == 0 {
                    true
                } else {
                    bankroll - bet as i128 >= i64::MIN as i128 && bet <= u64::MAX / 2
                }
            },
            GameAction::Split => {
                if self.player.hands[hand_index].can_split() {
                    bankroll - bet as i128 >= i64::MIN as i128
                } else {
                    true
                }
            },
        }
    }

    /// Returns whether the settlement can be asked for: what the machine
    /// asks of the game before it.
    pub fn can_settle(&self) -> (fits: bool)
        requires
            self.wf(),
        ensures
            fits == self@.settlement_fits(),
    {
        if !self.hands_have_room(0) {
            return false;
        }
        proof {
            lemma_settlement_keeps_the_bets(self@);
        }
        if !matches!(self.state, GameState::DealerTurn { .. }) {
            return true;
        }
        self.credit_fits(&self.dealer.hands[0])
    }

    /// Returns whether a step of the dealer can be asked for: what the
    /// machine asks of the game before it.
    pub fn can_step_dealer(&self) -> (fits: bool)
        requires
            self.wf(),
        ensures
            fits == self@.dealer_step_fits(),
    {
        if !self.hands_have_room(1) {
            return false;
        }
        proof {
            lemma_settlement_keeps_the_bets(self@);
            lemma_settlement_keeps_the_bets(self@.deal_to_dealer());
        }
        if !matches!(self.state, GameState::DealerTurn { .. }) {
            return true;
        }
        let dealer_value = self.dealer.hands[0].best_value();
        if dealer_value <= 16 {
            if self.shoe.cards.len() == 0 {
                true
            } else {
                let top = self.shoe.cards[self.shoe.cards.len() - 1];
                let mut drawn = self.dealer.hands[0].clone();
                drawn.add_card(top);
                proof {
                    assert(drawn@ == self@.deal_to_dealer().dealer.hands[0]);
                }
                if drawn.is_busted() {
                    self.credit_fits(&drawn)
                } else {
                    true
                }
            }
        } else {
            self.credit_fits(&self.dealer.hands[0])
        }
    }
}

/// Returns what the bankroll is credited for a hand that ended with `outcome`
/// and carried `bet`.
fn credit_for(outcome: HandOutcome, bet: u64) -> (credit: i128)
    ensures
        credit == payout(outcome, bet as nat),
{
    match outcome {
        HandOutcome::Win => 2 * (bet as i128),
        HandOutcome::Push => bet as i128,
        HandOutcome::Loss => 0,
        HandOutcome::Blackjack => (5 * (bet as i128)) / 2,
    }
}

/// Dealing the first cards keeps the parts of the game together, and gives
/// player and dealer at most two cards each.
pub proof fn lemma_first_cards_keep_wf(game: GameView)
    requires
        game.wf(),
        game.state is WaitingToDeal,
    ensures
        game.after_first_cards().wf(),
        game.after_first_cards().state is PlayerTurn || game.after_first_cards().state is RoundComplete,
        game.after_first_cards().player.hands.len() == 1,
        game.after_first_cards().player.hands[0].cards.len() <= 2,
        game.after_first_cards().dealer.hands[0].cards.len() <= 2,
        game.after_first_cards().player.hands[0].bet == game.player.hands[0].bet,
{
    let a = game.deal_to_player(0);
    let b = a.deal_to_dealer();
    let c = b.deal_to_player(0);
    let d = c.deal_to_dealer();
    assert(a.player.hands.len() == 1);
    assert(c.player.hands.len() == 1);
    assert(d.player.hands.len() == 1);
    assert(d.dealer.hands.len() == 1);
}

/// What is credited for the first hands is not negative, and no more than
/// what is credited for all of them.
pub proof fn lemma_settle_credit_grows(hands: Seq<HandView>, dealer: Seq<Card>, n: int)
    requires
        0 <= n <= hands.len(),
    ensures
        0 <= settle_credit(hands.take(n), dealer) <= settle_credit(hands, dealer),
    decreases hands.len() - n,
{
    lemma_settle_credit_not_negative(hands.take(n), dealer);
    if n == hands.len() {
        assert(hands.take(n) =~= hands);
    } else {
        lemma_settle_credit_grows(hands, dealer, n + 1);
        assert(hands.take(n + 1).drop_last() =~= hands.take(n));
    }
}

/// The settlement takes nothing from the bankroll.
pub proof fn lemma_settle_credit_not_negative(hands: Seq<HandView>, dealer: Seq<Card>)
    ensures
        0 <= settle_credit(hands, dealer),
    decreases hands.len(),
{
    if hands.len() > 0 {
        lemma_settle_credit_not_negative(hands.drop_last(), dealer);
    }
}

/// The rules of the settlement. A bust hand loses and is paid nothing,
/// whatever the dealer holds. A hand that is not bust wins twice its bet
/// against a bust dealer or with the higher best total, loses with the lower
/// one, and gets its bet back on equal totals.
pub proof fn lemma_settlement_rules(cards: Seq<Card>, dealer: Seq<Card>, bet: nat)
    ensures
        is_bust(cards) ==> settle_outcome(cards, dealer) == HandOutcome::Loss,
        !is_bust(cards) && is_bust(dealer) ==> settle_outcome(cards, dealer) == HandOutcome::Win,
        !is_bust(cards) && !is_bust(dealer) && best_total(cards) > best_total(dealer)
            ==> settle_outcome(cards, dealer) == HandOutcome::Win,
        !is_bust(cards) && !is_bust(dealer) && best_total(cards) < best_total(dealer)
            ==> settle_outcome(cards, dealer) == HandOutcome::Loss,
        !is_bust(cards) && !is_bust(dealer) && best_total(cards) == best_total(dealer)
            ==> settle_outcome(cards, dealer) == HandOutcome::Push,
        payout(HandOutcome::Win, bet) == 2 * bet,
        payout(HandOutcome::Push, bet) == bet,
        payout(HandOutcome::Loss, bet) == 0,
        2 * payout(HandOutcome::Blackjack, bet) == 5 * bet || 2 * payout(HandOutcome::Blackjack, bet)
            == 5 * bet - 1,
{
}

/// At the deal only two cards that count 21 end the round. Without them the
/// player's turn begins on the first hand, which has no outcome yet, and the
/// bankroll is as it was.
pub proof fn lemma_only_a_natural_ends_the_round_at_the_deal(game: GameView)
    requires
        game.wf(),
        game.state is WaitingToDeal,
    ensures
        ({
            let after = game.after_first_cards();
            let natural = is_natural(after.player.hands[0].cards) || is_natural(
                after.dealer.hands[0].cards,
            );
            &&& after.state is RoundComplete <==> natural
            &&& after.state is PlayerTurn <==> !natural
            &&& !natural ==> after.state == (GameStateView::PlayerTurn {
                dealer_hand: after.dealer.hands[0],
                player_hands: after.player.hands,
                player_bankroll: game.player.bank_roll,
                active_hand_index: 0,
            })
            &&& !natural ==> after.player.hands[0].outcome is None
            &&& natural ==> after.player.hands[0].outcome is Some
        }),
{
    lemma_first_cards_keep_wf(game);
    let a = game.deal_to_player(0);
    let b = a.deal_to_dealer();
    let c = b.deal_to_player(0);
    let d = c.deal_to_dealer();
    assert(a.player.hands[0].outcome is None);
    assert(c.player.hands[0].outcome is None);
    assert(d.player.hands[0].outcome is None);
}

/// What a split does to a pair. The bet of the hand leaves the bankroll once
/// more. The hand keeps its first card and its bet, and gets the top card of
/// the shoe if there is one. Its second card becomes a hand of its own right
/// behind it, with the same bet and no other card. The hands before stay
/// where they are, the hands behind move one place on, and the hand that was
/// split is played on.
pub proof fn lemma_split_parts_the_pair(game: GameView, index: int)
    requires
        game.wf(),
        game.accepts_action(index),
        is_pair(game.player.hands[index].cards),
    ensures
        ({
            let hand = game.player.hands[index];
            let after = game.after_action(GameAction::Split, index);
            &&& after.player.bank_roll == game.player.bank_roll - hand.bet
            &&& after.player.hands.len() == game.player.hands.len() + 1
            &&& after.player.hands[index].bet == hand.bet
            &&& after.player.hands[index].cards == match game.shoe.top() {
                Some(card) => seq![hand.cards[0], card],
                None => seq![hand.cards[0]],
            }
            &&& after.player.hands[index + 1] == (HandView {
                bet: hand.bet,
                cards: seq![hand.cards[1]],
                outcome: None,
            })
            &&& forall|j: int| 0 <= j < index ==> after.player.hands[j] == game.player.hands[j]
            &&& forall|j: int|
                index < j < game.player.hands.len() ==> after.player.hands[j + 1]
                    == game.player.hands[j]
            &&& after.dealer == game.dealer
            &&& after.state == (GameStateView::PlayerTurn {
                dealer_hand: after.dealer.hands[0],
                player_hands: after.player.hands,
                player_bankroll: after.player.bank_roll,
                active_hand_index: index,
            })
        }),
{
    let hand = game.player.hands[index];
    let kept = HandView { cards: seq![hand.cards[0]], ..hand };
    let parted = HandView { bet: hand.bet, cards: seq![hand.cards[1]], outcome: None };
    let hands = game.player.hands.update(index, kept).insert(index + 1, parted);
    assert(hands[index] == kept);
    assert(hands[index + 1] == parted);
    assert(hands.len() == game.player.hands.len() + 1);
    if game.shoe.top() is Some {
        let card = game.shoe.top()->Some_0;
        assert(seq![hand.cards[0]].push(card) =~= seq![hand.cards[0], card]);
    }
}

/// A hand that is behind the one being played gets its next card when the
/// play reaches it, and not before: once the hand at `index` is done, the
/// hand behind it gets the top card of the shoe, if there is one, and is
/// played; every other hand stays as it is.
pub proof fn lemma_next_hand_gets_its_card(game: GameView, index: int)
    requires
        game.wf(),
        0 <= index,
        index + 1 < game.player.hands.len(),
    ensures
        ({
            let after = game.move_on(index);
            let next = game.player.hands[index + 1];
            &&& after.player.hands.len() == game.player.hands.len()
            &&& after.player.hands[index + 1] == match game.shoe.top() {
                Some(card) => HandView { cards: next.cards.push(card), ..next },
                None => next,
            }
            &&& forall|j: int|
                0 <= j < game.player.hands.len() && j != index + 1 ==> after.player.hands[j]
                    == game.player.hands[j]
            &&& after.player.bank_roll == game.player.bank_roll
            &&& after.state == (GameStateView::PlayerTurn {
                dealer_hand: game.dealer.hands[0],
                player_hands: after.player.hands,
                player_bankroll: game.player.bank_roll,
                active_hand_index: index + 1,
            })
        }),
{
}

/// Taking a bet keeps the parts of the game together.
pub proof fn lemma_bet_keeps_wf(game: GameView, bet: nat)
    requires
        game.wf(),
    ensures
        game.after_bet(bet).wf(),
{
    if game.accepts_bet(bet) {
        assert(game.after_bet(bet).player.hands =~= seq![HandView { bet, ..empty_hand() }]);
    }
}

/// The deal keeps the parts of the game together, from the shoe as it is or
/// from a new one.
pub proof fn lemma_deal_keeps_wf(game: GameView, ready: ShoeView)
    requires
        game.wf(),
    ensures
        game.after_deal(ready).wf(),
{
    if game.state is WaitingToDeal {
        lemma_first_cards_keep_wf(game.with_shoe(ready));
    }
}

/// An action of the player keeps the parts of the game together.
pub proof fn lemma_action_keeps_wf(game: GameView, action: GameAction, index: int)
    requires
        game.wf(),
    ensures
        game.after_action(action, index).wf(),
{
}

/// The settlement keeps the parts of the game together, and so does a step
/// of the dealer.
pub proof fn lemma_dealer_keeps_wf(game: GameView)
    requires
        game.wf(),
    ensures
        game.after_settlement().wf(),
        game.after_dealer_step().wf(),
{
}

/// Starting the next round keeps the parts of the game together.
pub proof fn lemma_next_round_keeps_wf(game: GameView)
    requires
        game.wf(),
    ensures
        game.after_next_round().wf(),
{
}

/// The commands keep a complete shoe complete: a card that is drawn only
/// changes piles, and a shoe that is made ready for the deal is the shoe as
/// it was or a new one.
pub proof fn lemma_commands_keep_the_shoe_complete(
    game: GameView,
    bet: nat,
    ready: ShoeView,
    action: GameAction,
    index: int,
)
    requires
        game.shoe.is_complete(),
        game.shoe.made_ready(ready, 1),
    ensures
        game.after_bet(bet).shoe.is_complete(),
        game.after_deal(ready).shoe.is_complete(),
        game.after_action(action, index).shoe.is_complete(),
        game.after_dealer_step().shoe.is_complete(),
        game.after_settlement().shoe.is_complete(),
        game.after_next_round().shoe.is_complete(),
{
    if ready != game.shoe {
        lemma_new_shoe_is_complete(ready, game.shoe);
    }
    lemma_after_draws(ready, 4);
    assert(game.with_shoe(ready).after_first_cards().shoe == ready.after_draws(4)) by {
        reveal_with_fuel(ShoeView::after_draws, 5);
    }
    lemma_after_draws(game.shoe, 1);
    lemma_after_draws(game.shoe, 2);
    assert(game.shoe.after_draw() == game.shoe.after_draws(1)) by {
        reveal_with_fuel(ShoeView::after_draws, 3);
    }
    assert(game.shoe.after_draw().after_draw() == game.shoe.after_draws(2)) by {
        reveal_with_fuel(ShoeView::after_draws, 3);
    }
}

/// The amounts that a game holds fit after an action if they fit after what
/// the action does to the money: a hit and a stand leave the bets and the
/// bankroll as they are; a double takes the bet from the bankroll and doubles
/// it; a split takes the bet from the bankroll.
pub proof fn lemma_actions_keep_the_bets(game: GameView, index: int)
    requires
        game.wf(),
        game.amounts_fit(),
    ensures
        game.after_action(GameAction::Hit, index).amounts_fit(),
        game.after_action(GameAction::Stand, index).amounts_fit(),
        game.after_action(GameAction::Double, index).amounts_fit() <==> (game.accepts_action(index)
            && game.shoe.top() is Some ==> game.player.bank_roll - game.player.hands[index].bet
            >= i64::MIN && 2 * game.player.hands[index].bet <= u64::MAX),
        game.after_action(GameAction::Split, index).amounts_fit() <==> (game.accepts_action(index)
            && is_pair(game.player.hands[index].cards) ==> game.player.bank_roll
            - game.player.hands[index].bet >= i64::MIN),
{
    if game.accepts_action(index) {
        let hand = game.player.hands[index];
        if game.shoe.top() is Some {
            let drawn = game.deal_to_player(index);
            let staked_hand = HandView { bet: 2 * drawn.player.hands[index].bet, ..drawn.player.hands[index] };
            let staked = GameView {
                player: PlayerView {
                    hands: drawn.player.hands.update(index, staked_hand),
                    bank_roll: drawn.player.bank_roll - drawn.player.hands[index].bet,
                },
                ..drawn
            };
            let after = staked.move_on(index);
            assert(after == game.after_action(GameAction::Double, index));
            assert(after.player.bank_roll == game.player.bank_roll - hand.bet);
            assert(after.player.hands[index].bet == 2 * hand.bet);
        }
        if is_pair(hand.cards) {
            let kept = HandView { cards: seq![hand.cards[0]], ..hand };
            let parted = HandView { bet: hand.bet, cards: seq![hand.cards[1]], outcome: None };
            let parted_game = GameView {
                player: PlayerView {
                    hands: game.player.hands.update(index, kept).insert(index + 1, parted),
                    bank_roll: game.player.bank_roll - hand.bet,
                },
                ..game
            };
            assert forall|i: int| 0 <= i < parted_game.player.hands.len() implies (
            #[trigger] parted_game.player.hands[i]).bet <= u64::MAX by {
                if i < index {
                    assert(parted_game.player.hands[i] == game.player.hands[i]);
                } else if i > index + 1 {
                    assert(parted_game.player.hands[i] == game.player.hands[i - 1]);
                }
            }
            let after = parted_game.deal_to_player(index).player_turn(index);
            assert(after == game.after_action(GameAction::Split, index));
            assert(after.player.bank_roll == game.player.bank_roll - hand.bet);
        }
    }
}

/// The settlement leaves the bets as they are and adds to the bankroll, so
/// the amounts fit after it if the bankroll can take what it credits.
pub proof fn lemma_settlement_keeps_the_bets(game: GameView)
    requires
        game.amounts_fit(),
    ensures
        game.settled().amounts_fit() <==> game.player.bank_roll + settle_credit(
            game.player.hands,
            game.dealer.hands[0].cards,
        ) <= i64::MAX,
{
    lemma_settle_credit_not_negative(game.player.hands, game.dealer.hands[0].cards);
}

} // verus!
