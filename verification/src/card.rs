//! Playing cards: rank, suit and the card that pairs them.

use vstd::prelude::*;
use vstd::string::StringExecFns;

verus! {

/// The rank of a playing card.
#[derive(Debug, Clone, Copy, PartialEq, Eq, Hash, Structural)]
pub enum Rank {
    Two,
    Three,
    Four,
    Five,
    Six,
    Seven,
    Eight,
    Nine,
    Ten,
    Jack,
    Queen,
    King,
    Ace,
}

/// The suit of a playing card.
#[derive(Debug, Clone, Copy, PartialEq, Eq, Hash, Structural)]
pub enum Suit {
    Clubs,
    Diamonds,
    Hearts,
    Spades,
}

/// A playing card: one rank of one suit.
#[derive(Debug, Clone, Copy, PartialEq, Eq, Hash, Structural)]
pub struct Card {
    pub rank: Rank,
    pub suit: Suit,
}

impl Rank {
    /// What a card of this rank counts for when it is not an Ace, and the
    /// lower of the two counts of an Ace.
    pub open spec fn low_value(self) -> int {
        match self {
            Rank::Ace => 1,
            Rank::Two => 2,
            Rank::Three => 3,
            Rank::Four => 4,
            Rank::Five => 5,
            Rank::Six => 6,
            Rank::Seven => 7,
            Rank::Eight => 8,
            Rank::Nine => 9,
            Rank::Ten | Rank::Jack | Rank::Queen | Rank::King => 10,
        }
    }

    /// The rank at place `i` of the order in which a deck is laid out: the
    /// number cards from Two up, then Jack, Queen, King and Ace.
    pub open spec fn at(i: int) -> Rank {
        if i == 0 {
            Rank::Two
        } else if i == 1 {
            Rank::Three
        } else if i == 2 {
            Rank::Four
        } else if i == 3 {
            Rank::Five
        } else if i == 4 {
            Rank::Six
        } else if i == 5 {
            Rank::Seven
        } else if i == 6 {
            Rank::Eight
        } else if i == 7 {
            Rank::Nine
        } else if i == 8 {
            Rank::Ten
        } else if i == 9 {
            Rank::Jack
        } else if i == 10 {
            Rank::Queen
        } else if i == 11 {
            Rank::King
        } else {
            Rank::Ace
        }
    }

    /// The place of this rank in that order.
    pub open spec fn ordinal(self) -> int {
        match self {
            Rank::Two => 0,
            Rank::Three => 1,
            Rank::Four => 2,
            Rank::Five => 3,
            Rank::Six => 4,
            Rank::Seven => 5,
            Rank::Eight => 6,
            Rank::Nine => 7,
            Rank::Ten => 8,
            Rank::Jack => 9,
            Rank::Queen => 10,
            Rank::King => 11,
            Rank::Ace => 12,
        }
    }

    /// The thirteen ranks, in that order.
    pub open spec fn in_order() -> Seq<Rank> {
        Seq::new(13, |i: int| Rank::at(i))
    }

    /// Returns the thirteen ranks in the order in which a deck is laid out.
    pub fn all() -> (ranks: [Rank; 13])
        ensures
            ranks@ == Rank::in_order(),
    {
        let ranks = [
            Rank::Two,
            Rank::Three,
            Rank::Four,
            Rank::Five,
            Rank::Six,
            Rank::Seven,
            Rank::Eight,
            Rank::Nine,
            Rank::Ten,
            Rank::Jack,
            Rank::Queen,
            Rank::King,
            Rank::Ace,
        ];
        assert(ranks@ =~= Rank::in_order());
        ranks
    }

    /// The numbers a card of this rank may count for, in ascending order:
    /// one number for every rank but the Ace, which counts 1 or 11.
    pub open spec fn values(self) -> Seq<i32> {
        if self == Rank::Ace {
            seq![1i32, 11i32]
        } else {
            seq![self.low_value() as i32]
        }
    }

    /// The text of this rank: the number of a number card, the first letter
    /// of a face card or of the Ace.
    pub open spec fn text(self) -> Seq<char> {
        match self {
            Rank::Ace => "A"@,
            Rank::Two => "2"@,
            Rank::Three => "3"@,
            Rank::Four => "4"@,
            Rank::Five => "5"@,
            Rank::Six => "6"@,
            Rank::Seven => "7"@,
            Rank::Eight => "8"@,
            Rank::Nine => "9"@,
            Rank::Ten => "10"@,
            Rank::Jack => "J"@,
            Rank::Queen => "Q"@,
            Rank::King => "K"@,
        }
    }

    /// Returns the numbers this rank may count for.
    pub fn value(&self) -> (r: Vec<i32>)
        ensures
            r@ == self.values(),
    {
        let r = match self {
            Rank::Ace => vec![1i32, 11i32],
            Rank::Two => vec![2i32],
            Rank::Three => vec![3i32],
            Rank::Four => vec![4i32],
            Rank::Five => vec![5i32],
            Rank::Six => vec![6i32],
            Rank::Seven => vec![7i32],
            Rank::Eight => vec![8i32],
            Rank::Nine => vec![9i32],
            Rank::Ten | Rank::Jack | Rank::Queen | Rank::King => vec![10i32],
        };
        assert(r@ =~= self.values());
        r
    }

    /// Returns the text of this rank.
    pub fn to_string(&self) -> (r: String)
        ensures
            r@ == self.text(),
    {
        match self {
            Rank::Ace => String::from_str("A"),
            Rank::Two => String::from_str("2"),
            Rank::Three => String::from_str("3"),
            Rank::Four => String::from_str("4"),
            Rank::Five => String::from_str("5"),
            Rank::Six => String::from_str("6"),
            Rank::Seven => String::from_str("7"),
            Rank::Eight => String::from_str("8"),
            Rank::Nine => String::from_str("9"),
            Rank::Ten => String::from_str("10"),
            Rank::Jack => String::from_str("J"),
            Rank::Queen => String::from_str("Q"),
            Rank::King => String::from_str("K"),
        }
    }
}

impl Suit {
    /// The suit at place `i` of the order in which a deck is laid out: Clubs,
    /// Diamonds, Hearts, Spades.
    pub open spec fn at(i: int) -> Suit {
        if i == 0 {
            Suit::Clubs
        } else if i == 1 {
            Suit::Diamonds
        } else if i == 2 {
            Suit::Hearts
        } else {
            Suit::Spades
        }
    }

    /// The place of this suit in that order.
    pub open spec fn ordinal(self) -> int {
        match self {
            Suit::Clubs => 0,
            Suit::Diamonds => 1,
            Suit::Hearts => 2,
            Suit::Spades => 3,
        }
    }

    /// The four suits, in that order.
    pub open spec fn in_order() -> Seq<Suit> {
        Seq::new(4, |i: int| Suit::at(i))
    }

    /// Returns the four suits in the order in which a deck is laid out.
    pub fn all() -> (suits: [Suit; 4])
        ensures
            suits@ == Suit::in_order(),
    {
        let suits = [Suit::Clubs, Suit::Diamonds, Suit::Hearts, Suit::Spades];
        assert(suits@ =~= Suit::in_order());
        suits
    }

    /// The symbol of this suit.
    pub open spec fn text(self) -> Seq<char> {
        match self {
            Suit::Hearts => "❤️"@,
            Suit::Diamonds => "♦️"@,
            Suit::Clubs => "♣️"@,
            Suit::Spades => "♠️"@,
        }
    }

    /// Returns the symbol of this suit.
    pub fn to_string(&self) -> (r: String)
        ensures
            r@ == self.text(),
    {
        match self {
            Suit::Hearts => String::from_str("❤️"),
            Suit::Diamonds => String::from_str("♦️"),
            Suit::Clubs => String::from_str("♣️"),
            Suit::Spades => String::from_str("♠️"),
        }
    }
}

impl Card {
    /// The text of this card: its rank, then its suit.
    pub open spec fn text(self) -> Seq<char> {
        self.rank.text() + self.suit.text()
    }

    /// Makes the card of the given rank and suit.
    pub fn new(rank: Rank, suit: Suit) -> (card: Card)
        ensures
            card == (Card { rank, suit }),
    {
        Card { rank, suit }
    }

    /// Returns the text of this card.
    pub fn to_string(&self) -> (r: String)
        ensures
            r@ == self.text(),
    {
        let suit = self.suit.to_string();
        self.rank.to_string().concat(suit.as_str())
    }
}

} // verus!
