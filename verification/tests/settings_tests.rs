use blackjack_engine::game_settings::GameSettings;

#[test]
fn test_new_game_settings() {
    let settings = GameSettings::new("Player1".to_string(), 6);
    assert_eq!(settings.player_name, "Player1");
    assert_eq!(settings.deck_count, 6);
}

#[test]
fn test_default_single_player() {
    let settings = GameSettings::default_single_player("Player1".to_string());
    assert_eq!(settings.player_name, "Player1");
    assert_eq!(settings.deck_count, 6);
}

#[test]
fn test_validate_valid_settings() {
    let settings = GameSettings::new("Player1".to_string(), 6);
    assert!(settings.validate().is_ok());
}

#[test]
fn test_validate_empty_name() {
    let settings = GameSettings::new("".to_string(), 6);
    assert!(settings.validate().is_err());
    assert_eq!(
        settings.validate().unwrap_err(),
        "Player name cannot be empty"
    );
}

#[test]
fn test_validate_deck_count() {
    let settings = GameSettings::new("Player1".to_string(), 9);
    assert!(settings.validate().is_err());
    assert_eq!(
        settings.validate().unwrap_err(),
        "Deck count must be between 1 and 8"
    );
}

#[test]
fn test_settings_clone_and_equality() {
    let settings1 = GameSettings::new("Player1".to_string(), 6);
    let settings2 = settings1.clone();
    assert_eq!(settings1, settings2);
}

#[test]
fn test_validate_name_of_white_space_only() {
    let settings = GameSettings::new("  \t\n ".to_string(), 6);
    assert_eq!(
        settings.validate().unwrap_err(),
        "Player name cannot be empty"
    );
}

#[test]
fn test_validate_name_is_looked_at_first() {
    let settings = GameSettings::new(" ".to_string(), 0);
    assert_eq!(
        settings.validate().unwrap_err(),
        "Player name cannot be empty"
    );
}

#[test]
fn test_validate_deck_count_bounds() {
    assert!(GameSettings::new("A".to_string(), 1).validate().is_ok());
    assert!(GameSettings::new("A".to_string(), 8).validate().is_ok());
    assert_eq!(
        GameSettings::new("A".to_string(), 0).validate().unwrap_err(),
        "Deck count must be between 1 and 8"
    );
    assert_eq!(
        GameSettings::new("A".to_string(), 255).validate().unwrap_err(),
        "Deck count must be between 1 and 8"
    );
}

#[test]
fn test_validate_trimmed_takes_the_name_as_it_is() {
    assert!(GameSettings::validate_trimmed("Bob", 6).is_ok());
    assert!(GameSettings::validate_trimmed(" ", 6).is_ok());
    assert_eq!(
        GameSettings::validate_trimmed("", 6).unwrap_err(),
        "Player name cannot be empty"
    );
    assert_eq!(
        GameSettings::validate_trimmed("Bob", 9).unwrap_err(),
        "Deck count must be between 1 and 8"
    );
}
