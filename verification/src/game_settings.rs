//! The settings a game is made from.

use vstd::prelude::*;
use vstd::string::StringExecFns;
use crate::text::{trim, trimmed};

verus! {

/// The settings of a game: who plays, and with how many decks.
#[derive(Debug, Clone, PartialEq)]
pub struct GameSettings {
    /// The player's name. A valid name is not empty once trimmed.
    pub player_name: String,
    /// The number of decks in the shoe. A valid number is from 1 to 8.
    pub deck_count: u8,
}

/// What is wrong with a name, already trimmed, and a number of decks: the
/// name is looked at first. `None` if nothing is wrong.
pub open spec fn settings_fault(trimmed_name: Seq<char>, deck_count: u8) -> Option<Seq<char>> {
    if trimmed_name.len() == 0 {
        Some("Player name cannot be empty"@)
    } else if !(1 <= deck_count <= 8) {
        Some("Deck count must be between 1 and 8"@)
    } else {
        None
    }
}

/// The view of the result of a validation: the message of an error.
pub open spec fn fault_of(result: Result<(), String>) -> Option<Seq<char>> {
    match result {
        Ok(_) => None,
        Err(message) => Some(message@),
    }
}

impl GameSettings {
    /// Makes settings from a name and a number of decks, without validating
    /// them.
    pub fn new(player_name: String, deck_count: u8) -> (settings: GameSettings)
        ensures
            settings.player_name == player_name,
            settings.deck_count == deck_count,
    {
        GameSettings { player_name, deck_count }
    }

    /// Makes the settings of a game for one player with six decks.
    pub fn default_single_player(player_name: String) -> (settings: GameSettings)
        ensures
            settings.player_name == player_name,
            settings.deck_count == 6,
    {
        GameSettings { player_name, deck_count: 6 }
    }

    /// Validates a name that is already trimmed, and a number of decks.
    /// Fails with "Player name cannot be empty" if the name is empty, else
    /// with "Deck count must be between 1 and 8" if the number is not from 1
    /// to 8.
    pub fn validate_trimmed(trimmed_name: &str, deck_count: u8) -> (result: Result<(), String>)
        ensures
            fault_of(result) == settings_fault(trimmed_name@, deck_count),
    {
        if trimmed_name.is_empty() {
            return Err(String::from_str("Player name cannot be empty"));
        }
        if deck_count < 1 || deck_count > 8 {
            return Err(String::from_str("Deck count must be between 1 and 8"));
        }
        Ok(())
    }

    /// Validates the settings: the name must not be empty once trimmed, and
    /// the number of decks must be from 1 to 8. The error is the message of
    /// the first of these that fails. A name without any character is empty
    /// once trimmed too.
    pub fn validate(&self) -> (result: Result<(), String>)
        ensures
            fault_of(result) == settings_fault(trimmed(self.player_name@), self.deck_count),
            self.player_name@.len() == 0 ==> fault_of(result) == Some(
                "Player name cannot be empty"@,
            ),
            result is Ok ==> self.player_name@.len() > 0 && 1 <= self.deck_count <= 8,
    {
        GameSettings::validate_trimmed(trim(self.player_name.as_str()), self.deck_count)
    }
}

} // verus!
