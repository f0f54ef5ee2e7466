use blackjack_engine::card::{Card, Rank, Suit};
use blackjack_engine::player::Player;

#[test]
fn test_new_player() {
    let player = Player::new();
    assert_eq!(player.hands.len(), 1);
    assert_eq!(player.bank_roll, 10_000);
    assert_eq!(player.hands[0].cards.len(), 0);
}

#[test]
fn test_add_card_to_hand() {
    let mut player = Player::new();
    let card = Card::new(Rank::Ace, Suit::Spades);
    player.add_card_to_hand(card, 0);

    assert_eq!(player.hands[0].cards.len(), 1);
    assert_eq!(player.hands[0].cards[0].rank, Rank::Ace);
    assert_eq!(player.hands[0].cards[0].suit, Suit::Spades);
}

#[test]
fn test_add_card_to_invalid_hand() {
    let mut player = Player::new();
    let card = Card::new(Rank::Ace, Suit::Spades);
    player.add_card_to_hand(card, 999);

    assert_eq!(player.hands[0].cards.len(), 0);
}

#[test]
fn test_add_multiple_cards() {
    let mut player = Player::new();
    let card1 = Card::new(Rank::Ace, Suit::Spades);
    let card2 = Card::new(Rank::King, Suit::Hearts);

    player.add_card_to_hand(card1, 0);
    player.add_card_to_hand(card2, 0);

    assert_eq!(player.hands[0].cards.len(), 2);
}

#[test]
fn test_reset_hands() {
    let mut player = Player::new();
    let card1 = Card::new(Rank::Ace, Suit::Spades);

    player.add_card_to_hand(card1, 0);

    assert_eq!(player.hands[0].cards.len(), 1);
    player.reset_hands();
    assert_eq!(player.hands[0].cards.len(), 0);
}

#[test]
fn test_with_bankroll() {
    let player = Player::with_bankroll(5_000);
    assert_eq!(player.bank_roll, 5_000);
    assert_eq!(player.hands.len(), 1);
    assert!(player.hands[0].cards.is_empty());
    assert_eq!(player.hands[0].bet, 0);
}

#[test]
fn test_reset_hands_keeps_bankroll_and_leaves_one_hand() {
    let mut player = Player::with_bankroll(-250);
    player.hands.push(blackjack_engine::hand::Hand::with_bet(10));
    player.reset_hands();
    assert_eq!(player.hands.len(), 1);
    assert_eq!(player.hands[0].bet, 0);
    assert_eq!(player.hands[0].outcome, None);
    assert_eq!(player.bank_roll, -250);
}
