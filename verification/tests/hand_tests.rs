use blackjack_engine::card::{Card, Rank, Suit};
use blackjack_engine::hand::{Hand, HandOutcome};

fn hand_of(ranks: &[Rank]) -> Hand {
    let mut hand = Hand::new();
    for rank in ranks {
        hand.add_card(Card::new(*rank, Suit::Spades));
    }
    hand
}

#[test]
fn test_new_hand() {
    let hand = Hand::new();
    assert_eq!(hand.bet, 0);
    assert!(hand.cards.is_empty());
}

#[test]
fn test_with_bet() {
    let hand = Hand::with_bet(200);
    assert_eq!(hand.bet, 200);
}

#[test]
fn test_add_card() {
    let mut hand = Hand::new();
    let card = Card::new(Rank::Ace, Suit::Spades);
    hand.add_card(card);
    assert_eq!(hand.cards.len(), 1);
}

#[test]
fn test_possible_values() {
    let mut hand = Hand::new();
    hand.add_card(Card::new(Rank::Ace, Suit::Spades));
    hand.add_card(Card::new(Rank::Ace, Suit::Hearts));
    let values = hand.possible_values();
    assert_eq!(values, vec![2, 12, 22]);
}

#[test]
fn test_best_value() {
    let mut hand = Hand::new();
    hand.add_card(Card::new(Rank::Ace, Suit::Spades));
    hand.add_card(Card::new(Rank::King, Suit::Hearts));
    assert_eq!(hand.best_value(), 21);
}

#[test]
fn test_blackjack() {
    let mut hand = Hand::new();
    hand.add_card(Card::new(Rank::Ace, Suit::Spades));
    hand.add_card(Card::new(Rank::King, Suit::Hearts));
    assert!(hand.is_blackjack());
}

#[test]
fn test_bust() {
    let mut hand = Hand::new();
    hand.add_card(Card::new(Rank::King, Suit::Spades));
    hand.add_card(Card::new(Rank::Queen, Suit::Hearts));
    hand.add_card(Card::new(Rank::Jack, Suit::Diamonds));
    assert!(hand.is_busted());
}

#[test]
fn test_ace_king_is_natural_blackjack() {
    let hand = hand_of(&[Rank::Ace, Rank::King]);
    assert_eq!(hand.possible_values(), vec![11, 21]);
    assert_eq!(hand.best_value(), 21);
    assert!(hand.is_natural_blackjack());
    assert!(hand.is_blackjack());
    assert!(!hand.is_busted());
}

#[test]
fn test_three_face_cards_bust_at_thirty() {
    let hand = hand_of(&[Rank::King, Rank::Queen, Rank::Jack]);
    assert!(hand.is_busted());
    assert_eq!(hand.possible_values(), vec![30]);
    assert_eq!(hand.best_value(), 30);
    assert!(!hand.is_blackjack());
}

#[test]
fn test_empty_hand_counts_zero() {
    let hand = Hand::new();
    assert_eq!(hand.possible_values(), vec![0]);
    assert_eq!(hand.best_value(), 0);
    assert!(!hand.is_busted());
    assert!(!hand.is_blackjack());
    assert!(!hand.is_natural_blackjack());
    assert!(!hand.can_split());
    assert_eq!(hand.to_string(), "");
}

#[test]
fn test_no_ace_gives_one_value() {
    let hand = hand_of(&[Rank::Nine, Rank::Seven]);
    assert_eq!(hand.possible_values(), vec![16]);
    assert_eq!(hand.best_value(), 16);
}

#[test]
fn test_three_aces_and_a_five() {
    let hand = hand_of(&[Rank::Ace, Rank::Five, Rank::Ace, Rank::Ace]);
    assert_eq!(hand.possible_values(), vec![8, 18, 28, 38]);
    assert_eq!(hand.best_value(), 18);
    assert!(!hand.is_busted());
}

#[test]
fn test_best_value_when_every_total_busts_is_the_smallest() {
    let hand = hand_of(&[Rank::Ace, Rank::King, Rank::Queen, Rank::Two]);
    assert_eq!(hand.possible_values(), vec![23, 33]);
    assert_eq!(hand.best_value(), 23);
    assert!(hand.is_busted());
}

#[test]
fn test_soft_hand_falls_back_to_low_total() {
    let hand = hand_of(&[Rank::Ace, Rank::Six, Rank::Nine]);
    assert_eq!(hand.possible_values(), vec![16, 26]);
    assert_eq!(hand.best_value(), 16);
    assert!(!hand.is_busted());
}

#[test]
fn test_best_value_does_not_depend_on_order() {
    let a = hand_of(&[Rank::Ace, Rank::Seven, Rank::Three, Rank::Ace]);
    let b = hand_of(&[Rank::Three, Rank::Ace, Rank::Ace, Rank::Seven]);
    let c = hand_of(&[Rank::Seven, Rank::Ace, Rank::Three, Rank::Ace]);
    assert_eq!(a.best_value(), 12);
    assert_eq!(b.best_value(), 12);
    assert_eq!(c.best_value(), 12);
    assert_eq!(a.possible_values(), b.possible_values());
    assert_eq!(a.possible_values(), c.possible_values());
}

#[test]
fn test_three_card_twenty_one_is_not_natural() {
    let hand = hand_of(&[Rank::Five, Rank::Six, Rank::King]);
    assert!(hand.is_blackjack());
    assert!(!hand.is_natural_blackjack());
}

#[test]
fn test_can_split_needs_two_cards_of_one_rank() {
    assert!(hand_of(&[Rank::Eight, Rank::Eight]).can_split());
    assert!(!hand_of(&[Rank::Eight, Rank::Nine]).can_split());
    assert!(!hand_of(&[Rank::King, Rank::Queen]).can_split());
    assert!(!hand_of(&[Rank::Eight]).can_split());
    assert!(!hand_of(&[Rank::Eight, Rank::Eight, Rank::Eight]).can_split());
}

#[test]
fn test_double_bet() {
    let mut hand = Hand::with_bet(100);
    hand.double_bet();
    assert_eq!(hand.bet, 200);
    assert!(hand.cards.is_empty());
    assert_eq!(hand.outcome, None);
}

#[test]
fn test_with_card_and_with_card_and_bet() {
    let card = Card::new(Rank::Ace, Suit::Spades);
    let hand = Hand::with_card(card);
    assert_eq!(hand.cards, vec![card]);
    assert_eq!(hand.bet, 0);
    assert_eq!(hand.outcome, None);
    let hand = Hand::with_card_and_bet(card, 100);
    assert_eq!(hand.cards, vec![card]);
    assert_eq!(hand.bet, 100);
    assert_eq!(hand.outcome, None);
}

#[test]
fn test_hand_to_string() {
    let mut hand = Hand::new();
    hand.add_card(Card::new(Rank::Ace, Suit::Spades));
    hand.add_card(Card::new(Rank::King, Suit::Hearts));
    assert_eq!(hand.to_string(), "A♠️ K❤️ ");
}

#[test]
fn test_hand_clone_is_equal() {
    let mut hand = Hand::with_bet(50);
    hand.add_card(Card::new(Rank::Two, Suit::Clubs));
    hand.outcome = Some(HandOutcome::Push);
    let copy = hand.clone();
    assert_eq!(copy, hand);
}

#[test]
fn test_hand_outcome_to_string() {
    assert_eq!(HandOutcome::Win.to_string(), "WIN");
    assert_eq!(HandOutcome::Loss.to_string(), "LOSS");
    assert_eq!(HandOutcome::Push.to_string(), "PUSH");
    assert_eq!(HandOutcome::Blackjack.to_string(), "BLACKJACK");
}

#[test]
fn test_all_outcomes() {
    assert_eq!(
        HandOutcome::all(),
        [
            HandOutcome::Win,
            HandOutcome::Loss,
            HandOutcome::Push,
            HandOutcome::Blackjack
        ]
    );
}

#[test]
fn test_same_as_compares_bet_cards_and_outcome() {
    let hand = hand_of(&[Rank::Ace, Rank::King]);
    assert!(hand.same_as(&hand.clone()));
    assert!(hand.same_as(&hand_of(&[Rank::Ace, Rank::King])));
    assert!(!hand.same_as(&hand_of(&[Rank::King, Rank::Ace])));
    assert!(!hand.same_as(&hand_of(&[Rank::Ace])));
    let mut other = hand.clone();
    other.bet = 1;
    assert!(!hand.same_as(&other));
    let mut other = hand.clone();
    other.outcome = Some(HandOutcome::Win);
    assert!(!hand.same_as(&other));
    let mut lost = hand.clone();
    lost.outcome = Some(HandOutcome::Loss);
    assert!(!lost.same_as(&other));
    assert!(lost.same_as(&lost.clone()));
    let mut other = Hand::new();
    other.add_card(Card::new(Rank::Ace, Suit::Spades));
    other.add_card(Card::new(Rank::King, Suit::Hearts));
    assert!(!hand.same_as(&other));
}
