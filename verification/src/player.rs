//! A player at the table: the hands in play and the bankroll.

use vstd::prelude::*;
use crate::card::Card;
use crate::hand::{Hand, HandView};

verus! {

/// A player: one hand, or more after a split, and the money to bet with.
/// The dealer is a player too, with one hand and a bankroll that is not used.
pub struct Player {
    /// The hands in play, in the order in which they are played.
    pub hands: Vec<Hand>,
    /// The money the player has left, in whole units of currency. Doubling
    /// and splitting are not refused for want of money, so it may fall below
    /// zero.
    pub bank_roll: i64,
}

/// What a player holds, as plain values.
pub struct PlayerView {
    pub hands: Seq<HandView>,
    pub bank_roll: int,
}

impl View for Player {
    type V = PlayerView;

    open spec fn view(&self) -> PlayerView {
        PlayerView { hands: self.hands.deep_view(), bank_roll: self.bank_roll as int }
    }
}

/// A hand without cards, bet or outcome.
pub open spec fn empty_hand() -> HandView {
    HandView { bet: 0, cards: Seq::empty(), outcome: None }
}

impl PlayerView {
    /// The player after `card` was added to the hand at `index`. With no
    /// hand at `index` the player stays as it is.
    pub open spec fn with_card(self, card: Card, index: int) -> PlayerView {
        if 0 <= index < self.hands.len() {
            let hand = self.hands[index];
            PlayerView {
                hands: self.hands.update(
                    index,
                    HandView { cards: hand.cards.push(card), ..hand },
                ),
                ..self
            }
        } else {
            self
        }
    }

    /// The player with one empty hand and the same bankroll.
    pub open spec fn with_fresh_hand(self) -> PlayerView {
        PlayerView { hands: seq![empty_hand()], ..self }
    }
}

impl Player {
    /// Makes a player with one empty hand and a bankroll of 10,000.
    pub fn new() -> (player: Player)
        ensures
            player@ == (PlayerView { hands: seq![empty_hand()], bank_roll: 10_000 }),
    {
        Player::with_bankroll(10_000)
    }

    /// Makes a player with one empty hand and the given bankroll.
    pub fn with_bankroll(bankroll: i64) -> (player: Player)
        ensures
            player@ == (PlayerView { hands: seq![empty_hand()], bank_roll: bankroll as int }),
    {
        let player = Player { hands: vec![Hand::new()], bank_roll: bankroll };
        assert(player@.hands =~= seq![empty_hand()]);
        player
    }

    /// Adds a card to the hand at `hand_index`. With no hand there, nothing
    /// changes.
    pub fn add_card_to_hand(&mut self, card: Card, hand_index: usize)
        ensures
            final(self)@ == old(self)@.with_card(card, hand_index as int),
    {
        if hand_index < self.hands.len() {
            self.hands[hand_index].add_card(card);
            assert(self@.hands =~= old(self)@.with_card(card, hand_index as int).hands);
        }
    }

    /// Puts one empty hand in place of the hands. The bankroll stays.
    pub fn reset_hands(&mut self)
        ensures
            final(self)@ == old(self)@.with_fresh_hand(),
    {
        self.hands = vec![Hand::new()];
        assert(self@.hands =~= seq![empty_hand()]);
    }
}

} // verus!
