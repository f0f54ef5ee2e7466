//! A rules engine for casino-style Blackjack: cards, hands and their totals,
//! a depleting shoe, and the state machine that drives a round from bet to
//! settlement.

pub mod card;
pub mod game;
pub mod game_settings;
pub mod hand;
pub mod player;
pub mod shoe;
pub mod text;
