use blackjack_engine::card::{Card, Rank, Suit};
use blackjack_engine::shoe::Shoe;
use std::collections::HashSet;

#[test]
fn test_shuffle_deck() {
    let mut deck = Shoe::new(4);
    let ordered_cards = deck.cards.clone();
    deck.shuffle();
    deck.shuffle();
    let shuffled_cards = deck.cards.clone();

    assert_ne!(ordered_cards, shuffled_cards);
}

#[test]
fn test_shoe_creation() {
    let num_decks = 2;
    let shoe = Shoe::new(num_decks);
    assert_eq!(shoe.cards.len(), num_decks * 52);
}

#[test]
fn test_draw_card() {
    let mut shoe = Shoe::new(1);
    let initial_count = shoe.cards.len();
    let card = shoe.draw_card();

    assert!(card.is_some());
    assert_eq!(shoe.cards.len(), initial_count - 1);
    assert_eq!(shoe.discarded.len(), 1);
}

#[test]
fn test_draw_from_empty_shoe() {
    let mut shoe = Shoe::new(1);
    while shoe.draw_card().is_some() {}

    assert!(shoe.draw_card().is_none());
    assert!(shoe.cards.is_empty());
    assert_eq!(shoe.discarded.len(), 52);
}

#[test]
fn test_multiple_deck_size() {
    for num_decks in 1..=8 {
        let shoe = Shoe::new(num_decks);
        assert_eq!(shoe.cards.len(), num_decks * 52);
    }
}

#[test]
fn test_new_shoe_has_all_cards() {
    let shoe = Shoe::new(1);
    let mut ranks = HashSet::new();
    let mut suits = HashSet::new();

    for card in &shoe.cards {
        ranks.insert(card.rank.clone());
        suits.insert(card.suit.clone());
    }

    assert_eq!(ranks.len(), 13);
    assert_eq!(suits.len(), 4);
}

#[test]
fn test_new_shoe_is_rank_major_suit_minor() {
    let shoe = Shoe::new(2);
    assert_eq!(shoe.cards[0], Card::new(Rank::Two, Suit::Clubs));
    assert_eq!(shoe.cards[1], Card::new(Rank::Two, Suit::Diamonds));
    assert_eq!(shoe.cards[2], Card::new(Rank::Two, Suit::Hearts));
    assert_eq!(shoe.cards[3], Card::new(Rank::Two, Suit::Spades));
    assert_eq!(shoe.cards[4], Card::new(Rank::Three, Suit::Clubs));
    assert_eq!(shoe.cards[51], Card::new(Rank::Ace, Suit::Spades));
    assert_eq!(shoe.cards[52], Card::new(Rank::Two, Suit::Clubs));
    assert_eq!(shoe.cards[103], Card::new(Rank::Ace, Suit::Spades));
    assert!(shoe.discarded.is_empty());
    assert_eq!(shoe.number_of_decks, 2);
}

#[test]
fn test_shoe_of_n_decks_has_each_rank_and_suit_often_enough() {
    for n in 0..=8usize {
        let shoe = Shoe::new(n);
        assert_eq!(shoe.cards.len(), 52 * n);
        for rank in Rank::all() {
            let count = shoe.cards.iter().filter(|c| c.rank == rank).count();
            assert_eq!(count, 4 * n);
        }
        for suit in Suit::all() {
            let count = shoe.cards.iter().filter(|c| c.suit == suit).count();
            assert_eq!(count, 13 * n);
        }
    }
}

#[test]
fn test_drawing_every_card_of_three_decks() {
    let mut shoe = Shoe::new(3);
    for _ in 0..156 {
        assert!(shoe.draw_card().is_some());
    }
    assert!(shoe.cards.is_empty());
    assert!(shoe.draw_card().is_none());
    assert_eq!(shoe.discarded.len(), 156);
}

#[test]
fn test_draw_takes_the_last_card_and_discards_it() {
    let mut shoe = Shoe::new(1);
    let card = shoe.draw_card();
    assert_eq!(card, Some(Card::new(Rank::Ace, Suit::Spades)));
    assert_eq!(shoe.discarded, vec![Card::new(Rank::Ace, Suit::Spades)]);
    let card = shoe.draw_card();
    assert_eq!(card, Some(Card::new(Rank::Ace, Suit::Hearts)));
    assert_eq!(
        shoe.discarded,
        vec![
            Card::new(Rank::Ace, Suit::Spades),
            Card::new(Rank::Ace, Suit::Hearts)
        ]
    );
    assert_eq!(shoe.cards.len(), 50);
}

fn sorted(cards: &[Card]) -> Vec<String> {
    let mut texts: Vec<String> = cards.iter().map(|c| c.to_string()).collect();
    texts.sort();
    texts
}

#[test]
fn test_shuffle_keeps_the_cards_and_the_discards() {
    let mut shoe = Shoe::new(2);
    shoe.draw_card();
    shoe.draw_card();
    let before = shoe.cards.clone();
    let discarded = shoe.discarded.clone();
    shoe.shuffle();
    assert_eq!(shoe.cards.len(), 102);
    assert_eq!(sorted(&shoe.cards), sorted(&before));
    assert_eq!(shoe.discarded, discarded);
    assert_ne!(shoe.cards, before);
}

#[test]
fn test_ensure_cards_leaves_a_shoe_that_has_enough() {
    let mut shoe = Shoe::new(1);
    for _ in 0..44 {
        shoe.draw_card();
    }
    let before = shoe.cards.clone();
    assert_eq!(before.len(), 8);
    assert!(!shoe.ensure_cards_for_players(1));
    assert_eq!(shoe.cards, before);
    assert_eq!(shoe.discarded.len(), 44);
}

#[test]
fn test_ensure_cards_replaces_a_shoe_that_runs_low() {
    let mut shoe = Shoe::new(1);
    for _ in 0..45 {
        shoe.draw_card();
    }
    assert_eq!(shoe.cards.len(), 7);
    assert!(shoe.ensure_cards_for_players(1));
    assert_eq!(shoe.cards.len(), 52);
    assert!(shoe.discarded.is_empty());
    assert_eq!(sorted(&shoe.cards), sorted(&Shoe::new(1).cards));
    assert_ne!(shoe.cards, Shoe::new(1).cards);
}

#[test]
fn test_ensure_cards_counts_four_cards_for_each_player_and_the_dealer() {
    let mut shoe = Shoe::new(1);
    for _ in 0..36 {
        shoe.draw_card();
    }
    assert_eq!(shoe.cards.len(), 16);
    assert!(!shoe.ensure_cards_for_players(3));
    assert_eq!(shoe.cards.len(), 16);
    assert!(shoe.ensure_cards_for_players(4));
    assert_eq!(shoe.cards.len(), 52);
}

#[test]
fn test_ensure_cards_for_very_many_players() {
    let mut shoe = Shoe::new(1);
    assert!(shoe.ensure_cards_for_players(usize::MAX));
    assert_eq!(shoe.cards.len(), 52);
    assert!(shoe.discarded.is_empty());
}
