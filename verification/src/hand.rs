//! A hand of cards, its bet and outcome, and the totals it may count for.
//!
//! Every card counts a fixed number but the Ace, which counts 1 or 11, each
//! Ace on its own. The totals of a hand are stated over the plain sequence of
//! its cards; the methods of [`Hand`] compute them.

use vstd::multiset::Multiset;
use vstd::prelude::*;
use vstd::string::StringExecFns;
use crate::card::{Card, Rank};

verus! {

/// How a hand ended.
#[derive(Debug, Clone, Copy, PartialEq, Eq, Hash, Structural)]
pub enum HandOutcome {
    Win,
    Loss,
    Push,
    Blackjack,
}

/// A hand: the cards in the order they came, the bet that rides on them,
/// and the outcome once it is known.
#[derive(Debug, PartialEq)]
pub struct Hand {
    /// The bet on this hand, in whole units of currency.
    pub bet: u64,
    /// The cards, in the order they were added.
    pub cards: Vec<Card>,
    /// How the hand ended; `None` until that is known.
    pub outcome: Option<HandOutcome>,
}

/// What a hand holds, as plain values.
pub struct HandView {
    pub bet: nat,
    pub cards: Seq<Card>,
    pub outcome: Option<HandOutcome>,
}

impl View for Hand {
    type V = HandView;

    open spec fn view(&self) -> HandView {
        HandView { bet: self.bet as nat, cards: self.cards@, outcome: self.outcome }
    }
}

impl DeepView for Hand {
    type V = HandView;

    open spec fn deep_view(&self) -> HandView {
        self@
    }
}

impl Clone for Hand {
    /// A second hand with the same bet, cards and outcome.
    fn clone(&self) -> (r: Hand)
        ensures
            r@ == self@,
    {
        Hand { bet: self.bet, cards: self.cards.clone(), outcome: self.outcome }
    }
}

impl HandOutcome {
    /// The four outcomes: win, loss, push, blackjack.
    pub open spec fn in_order() -> Seq<HandOutcome> {
        seq![HandOutcome::Win, HandOutcome::Loss, HandOutcome::Push, HandOutcome::Blackjack]
    }

    /// Returns the four outcomes.
    pub fn all() -> (outcomes: [HandOutcome; 4])
        ensures
            outcomes@ == HandOutcome::in_order(),
    {
        let outcomes = [
            HandOutcome::Win,
            HandOutcome::Loss,
            HandOutcome::Push,
            HandOutcome::Blackjack,
        ];
        assert(outcomes@ =~= HandOutcome::in_order());
        outcomes
    }

    /// The text of this outcome, in capitals.
    pub open spec fn text(self) -> Seq<char> {
        match self {
            HandOutcome::Win => "WIN"@,
            HandOutcome::Loss => "LOSS"@,
            HandOutcome::Push => "PUSH"@,
            HandOutcome::Blackjack => "BLACKJACK"@,
        }
    }

    /// Returns the text of this outcome.
    pub fn to_string(&self) -> (r: String)
        ensures
            r@ == self.text(),
    {
        match self {
            HandOutcome::Win => String::from_str("WIN"),
            HandOutcome::Loss => String::from_str("LOSS"),
            HandOutcome::Push => String::from_str("PUSH"),
            HandOutcome::Blackjack => String::from_str("BLACKJACK"),
        }
    }
}

impl Hand {
    /// Whether the totals of this hand fit the numbers they are returned in:
    /// a card counts at most 11.
    pub open spec fn countable(&self) -> bool {
        11 * self.cards@.len() <= u32::MAX
    }

    /// Makes a hand without cards and without a bet.
    pub fn new() -> (hand: Hand)
        ensures
            hand@ == (HandView { bet: 0, cards: Seq::empty(), outcome: None }),
    {
        Hand { bet: 0, cards: Vec::new(), outcome: None }
    }

    /// Makes a hand without cards that carries `bet`.
    pub fn with_bet(bet: u64) -> (hand: Hand)
        ensures
            hand@ == (HandView { bet: bet as nat, cards: Seq::empty(), outcome: None }),
    {
        Hand { bet, cards: Vec::new(), outcome: None }
    }

    /// Makes a hand of one card without a bet.
    pub fn with_card(card: Card) -> (hand: Hand)
        ensures
            hand@ == (HandView { bet: 0, cards: seq![card], outcome: None }),
    {
        let hand = Hand { bet: 0, cards: vec![card], outcome: None };
        assert(hand.cards@ =~= seq![card]);
        hand
    }

    /// Makes a hand of one card that carries `bet`.
    pub fn with_card_and_bet(card: Card, bet: u64) -> (hand: Hand)
        ensures
            hand@ == (HandView { bet: bet as nat, cards: seq![card], outcome: None }),
    {
        let hand = Hand { bet, cards: vec![card], outcome: None };
        assert(hand.cards@ =~= seq![card]);
        hand
    }

    /// Adds a card behind the cards of the hand.
    pub fn add_card(&mut self, card: Card)
        ensures
            final(self)@ == (HandView { cards: old(self)@.cards.push(card), ..old(self)@ }),
    {
        self.cards.push(card);
    }

    /// Whether the hand can be split: it holds two cards of one rank.
    pub fn can_split(&self) -> (b: bool)
        ensures
            b == is_pair(self.cards@),
    {
        self.cards.len() == 2 && self.cards[0].rank == self.cards[1].rank
    }

    /// Doubles the bet.
    pub fn double_bet(&mut self)
        requires
            2 * old(self).bet <= u64::MAX,
        ensures
            final(self)@ == (HandView { bet: 2 * old(self)@.bet, ..old(self)@ }),
    {
        self.bet = self.bet * 2;
    }

    /// Counts the Aces, and sums what the other cards count for.
    fn tally(&self) -> (r: (u32, u32))
        requires
            self.countable(),
        ensures
            r.0 == non_ace_total(self.cards@),
            r.1 == ace_count(self.cards@),
    {
        let mut total: u32 = 0;
        let mut aces: u32 = 0;
        let mut i: usize = 0;
        while i < self.cards.len()
            invariant
                self.countable(),
                i <= self.cards@.len(),
                total == non_ace_total(self.cards@.take(i as int)),
                aces == ace_count(self.cards@.take(i as int)),
            decreases self.cards@.len() - i,
        {
            proof {
                lemma_tally_bounds(self.cards@.take(i as int));
                assert(self.cards@.take(i + 1).drop_last() =~= self.cards@.take(i as int));
            }
            match self.cards[i].rank {
                Rank::Ace => {
                    aces = aces + 1;
                },
                Rank::Two => {
                    total = total + 2;
                },
                Rank::Three => {
                    total = total + 3;
                },
                Rank::Four => {
                    total = total + 4;
                },
                Rank::Five => {
                    total = total + 5;
                },
                Rank::Six => {
                    total = total + 6;
                },
                Rank::Seven => {
                    total = total + 7;
                },
                Rank::Eight => {
                    total = total + 8;
                },
                Rank::Nine => {
                    total = total + 9;
                },
                Rank::Ten | Rank::Jack | Rank::Queen | Rank::King => {
                    total = total + 10;
                },
            }
            i = i + 1;
        }
        proof {
            assert(self.cards@.take(i as int) =~= self.cards@);
        }
        (total, aces)
    }

    /// Returns every total the hand may count for, each once, in ascending
    /// order: with `k` Aces that is `k + 1` totals, ten apart, the smallest
    /// being the total of the other cards plus `k`.
    pub fn possible_values(&self) -> (values: Vec<u32>)
        requires
            self.countable(),
        ensures
            values@.len() == ace_count(self.cards@) + 1,
            forall|j: int|
                0 <= j < values@.len() ==> values@[j] == non_ace_total(self.cards@) + ace_count(
                    self.cards@,
                ) + 10 * j,
            values@.map_values(|v: u32| v as int) == possible_totals(self.cards@),
    {
        let (total, aces) = self.tally();
        proof {
            lemma_tally_bounds(self.cards@);
        }
        let mut values: Vec<u32> = Vec::new();
        let mut j: u32 = 0;
        while j <= aces
            invariant
                self.countable(),
                total == non_ace_total(self.cards@),
                aces == ace_count(self.cards@),
                0 <= aces <= self.cards@.len(),
                total <= 10 * (self.cards@.len() - aces),
                j <= aces + 1,
                values@.len() == j,
                forall|i: int| 0 <= i < j ==> values@[i] == total + aces + 10 * i,
            decreases aces + 1 - j,
        {
            values.push(total + aces + 10 * j);
            j = j + 1;
        }
        proof {
            assert(values@.map_values(|v: u32| v as int) =~= possible_totals(self.cards@));
        }
        values
    }

    /// Returns the total the hand is played for: the largest possible total
    /// that is at most 21, or the smallest possible total if each exceeds 21.
    pub fn best_value(&self) -> (best: u32)
        requires
            self.countable(),
        ensures
            best == best_total(self.cards@),
            possible_totals(self.cards@).contains(best as int),
            forall|t: int| possible_totals(self.cards@).contains(t) && t <= 21 ==> t <= best,
            best > 21 ==> forall|t: int| possible_totals(self.cards@).contains(t) ==> best <= t,
    {
        let values = self.possible_values();
        proof {
            lemma_best_total_is_best(self.cards@);
            lemma_tally_bounds(self.cards@);
        }
        let mut i: usize = values.len();
        while i > 0
            invariant
                i <= values@.len(),
                values@.len() == ace_count(self.cards@) + 1,
                forall|j: int| 0 <= j < values@.len() ==> values@[j] == total_with(self.cards@, j),
                forall|j: int| i <= j < values@.len() ==> values@[j] > 21,
            decreases i,
        {
            i = i - 1;
            if values[i] <= 21 {
                proof {
                    let totals = possible_totals(self.cards@);
                    lemma_tally_bounds(self.cards@);
                    assert(totals[i as int] == values@[i as int]);
                    if i == 0 && ace_count(self.cards@) >= 1 {
                        assert(values@[1] == total_with(self.cards@, 1));
                    }
                    assert forall|t: int| totals.contains(t) && t <= 21 implies t <= values@[i as int] by {
                        let j = choose|j: int| 0 <= j < totals.len() && totals[j] == t;
                        assert(values@[j] == t);
                    }
                }
                return values[i];
            }
        }
        proof {
            let totals = possible_totals(self.cards@);
            lemma_tally_bounds(self.cards@);
            assert(totals[0] == values@[0]);
            assert forall|t: int| totals.contains(t) implies values@[0] <= t by {
                let j = choose|j: int| 0 <= j < totals.len() && totals[j] == t;
                assert(values@[j] == t);
            }
        }
        values[0]
    }

    /// Whether the hand is two cards that count 21.
    pub fn is_natural_blackjack(&self) -> (b: bool)
        requires
            self.countable(),
        ensures
            b == is_natural(self.cards@),
    {
        self.cards.len() == 2 && self.best_value() == 21
    }

    /// Whether the hand counts 21, with any number of cards.
    pub fn is_blackjack(&self) -> (b: bool)
        requires
            self.countable(),
        ensures
            b == (best_total(self.cards@) == 21),
    {
        self.best_value() == 21
    }

    /// Whether the hand is bust: every total it may count for exceeds 21.
    pub fn is_busted(&self) -> (b: bool)
        requires
            self.countable(),
        ensures
            b == is_bust(self.cards@),
            b <==> forall|t: int| possible_totals(self.cards@).contains(t) ==> t > 21,
    {
        let values = self.possible_values();
        proof {
            lemma_tally_bounds(self.cards@);
            assert(possible_totals(self.cards@)[0] == total_with(self.cards@, 0));
        }
        let mut i: usize = 0;
        while i < values.len()
            invariant
                i <= values@.len(),
                values@.len() == ace_count(self.cards@) + 1,
                forall|j: int| 0 <= j < values@.len() ==> values@[j] == total_with(self.cards@, j),
                forall|j: int| 0 <= j < i ==> values@[j] > 21,
            decreases values@.len() - i,
        {
            if values[i] <= 21 {
                proof {
                    lemma_tally_bounds(self.cards@);
                    assert(possible_totals(self.cards@)[i as int] == values@[i as int]);
                    assert(possible_totals(self.cards@).contains(values@[i as int] as int));
                }
                return false;
            }
            i = i + 1;
        }
        proof {
            let totals = possible_totals(self.cards@);
            lemma_tally_bounds(self.cards@);
            assert forall|t: int| totals.contains(t) implies t > 21 by {
                let j = choose|j: int| 0 <= j < totals.len() && totals[j] == t;
                assert(values@[j] == t);
            }
        }
        true
    }

    /// Whether this hand and `other` hold the same bet, the same cards in the
    /// same order, and the same outcome.
    pub fn same_as(&self, other: &Hand) -> (same: bool)
        ensures
            same == (self@ == other@),
    {
        if self.bet != other.bet || self.cards.len() != other.cards.len() {
            return false;
        }
        let same_outcome = match (self.outcome, other.outcome) {
            (None, None) => true,
            (Some(a), Some(b)) => a == b,
            _ => false,
        };
        if !same_outcome {
            return false;
        }
        let mut i: usize = 0;
        while i < self.cards.len()
            invariant
                i <= self.cards@.len(),
                self.cards@.len() == other.cards@.len(),
                forall|j: int| 0 <= j < i ==> self.cards@[j] == other.cards@[j],
            decreases self.cards@.len() - i,
        {
            if !(self.cards[i] == other.cards[i]) {
                return false;
            }
            i = i + 1;
        }
        proof {
            assert(self.cards@ =~= other.cards@);
        }
        true
    }

    /// Returns the text of the hand: each card followed by a space.
    pub fn to_string(&self) -> (r: String)
        ensures
            r@ == cards_text(self.cards@),
    {
        let mut text = String::new();
        let mut i: usize = 0;
        while i < self.cards.len()
            invariant
                i <= self.cards@.len(),
                text@ == cards_text(self.cards@.take(i as int)),
            decreases self.cards@.len() - i,
        {
            proof {
                assert(self.cards@.take(i + 1).drop_last() =~= self.cards@.take(i as int));
            }
            let card = self.cards[i].to_string();
            text.append(card.as_str());
            text.append(" ");
            i = i + 1;
        }
        proof {
            assert(self.cards@.take(i as int) =~= self.cards@);
        }
        text
    }
}

/// The number of Aces among the cards.
pub open spec fn ace_count(cards: Seq<Card>) -> int
    decreases cards.len(),
{
    if cards.len() == 0 {
        0
    } else {
        ace_count(cards.drop_last()) + if cards.last().rank == Rank::Ace {
            1int
        } else {
            0int
        }
    }
}

/// The sum of what the cards other than Aces count for.
pub open spec fn non_ace_total(cards: Seq<Card>) -> int
    decreases cards.len(),
{
    if cards.len() == 0 {
        0
    } else {
        non_ace_total(cards.drop_last()) + if cards.last().rank == Rank::Ace {
            0
        } else {
            cards.last().rank.low_value()
        }
    }
}

/// The total of the cards when `elevens` of the Aces count 11 and the other
/// Aces count 1.
pub open spec fn total_with(cards: Seq<Card>, elevens: int) -> int {
    non_ace_total(cards) + ace_count(cards) + 10 * elevens
}

/// The totals the cards may count for, each once, in ascending order: one
/// for each number of Aces that count 11.
pub open spec fn possible_totals(cards: Seq<Card>) -> Seq<int> {
    Seq::new((ace_count(cards) + 1) as nat, |j: int| total_with(cards, j))
}

/// Whether the cards can count `total`, each Ace being free to count 1 or
/// 11 whatever the other Aces count.
pub open spec fn reachable(cards: Seq<Card>, total: int) -> bool
    decreases cards.len(),
{
    if cards.len() == 0 {
        total == 0
    } else if cards.last().rank == Rank::Ace {
        reachable(cards.drop_last(), total - 1) || reachable(cards.drop_last(), total - 11)
    } else {
        reachable(cards.drop_last(), total - cards.last().rank.low_value())
    }
}

/// The total a hand is played for: the largest possible total that does not
/// exceed 21, and the smallest possible total where each of them does.
pub open spec fn best_total(cards: Seq<Card>) -> int {
    if ace_count(cards) >= 1 && total_with(cards, 1) <= 21 {
        total_with(cards, 1)
    } else {
        total_with(cards, 0)
    }
}

/// Whether every possible total exceeds 21.
pub open spec fn is_bust(cards: Seq<Card>) -> bool {
    total_with(cards, 0) > 21
}

/// Whether the cards are two of one rank.
pub open spec fn is_pair(cards: Seq<Card>) -> bool {
    cards.len() == 2 && cards[0].rank == cards[1].rank
}

/// Whether the cards are two that count 21.
pub open spec fn is_natural(cards: Seq<Card>) -> bool {
    cards.len() == 2 && best_total(cards) == 21
}

/// The text of the cards: each card's text followed by one space.
pub open spec fn cards_text(cards: Seq<Card>) -> Seq<char>
    decreases cards.len(),
{
    if cards.len() == 0 {
        Seq::empty()
    } else {
        cards_text(cards.drop_last()) + cards.last().text() + " "@
    }
}

/// The Aces are some of the cards, and the other cards count between 2 and
/// 10 each.
pub proof fn lemma_tally_bounds(cards: Seq<Card>)
    ensures
        0 <= ace_count(cards) <= cards.len(),
        0 <= non_ace_total(cards) <= 10 * (cards.len() - ace_count(cards)),
        2 * (cards.len() - ace_count(cards)) <= non_ace_total(cards),
    decreases cards.len(),
{
    if cards.len() > 0 {
        lemma_tally_bounds(cards.drop_last());
    }
}

/// The possible totals are exactly the totals that the cards can count when
/// each Ace counts 1 or 11 on its own: two Aces that count 1 and 11 give the
/// same total whichever of them counts 11.
pub proof fn lemma_possible_totals_are_the_reachable(cards: Seq<Card>, total: int)
    ensures
        reachable(cards, total) <==> possible_totals(cards).contains(total),
    decreases cards.len(),
{
    let k = ace_count(cards);
    lemma_tally_bounds(cards);
    if cards.len() == 0 {
        assert(possible_totals(cards)[0] == 0);
    } else {
        let rest = cards.drop_last();
        lemma_tally_bounds(rest);
        if cards.last().rank == Rank::Ace {
            lemma_possible_totals_are_the_reachable(rest, total - 1);
            lemma_possible_totals_are_the_reachable(rest, total - 11);
            if reachable(cards, total) {
                if reachable(rest, total - 1) {
                    let j = choose|j: int|
                        0 <= j < possible_totals(rest).len() && possible_totals(rest)[j] == total
                            - 1;
                    assert(possible_totals(cards)[j] == total);
                } else {
                    let j = choose|j: int|
                        0 <= j < possible_totals(rest).len() && possible_totals(rest)[j] == total
                            - 11;
                    assert(possible_totals(cards)[j + 1] == total);
                }
            }
            if possible_totals(cards).contains(total) {
                let j = choose|j: int|
                    0 <= j < possible_totals(cards).len() && possible_totals(cards)[j] == total;
                if j < k {
                    assert(possible_totals(rest)[j] == total - 1);
                } else {
                    assert(possible_totals(rest)[j - 1] == total - 11);
                }
            }
        } else {
            let v = cards.last().rank.low_value();
            lemma_possible_totals_are_the_reachable(rest, total - v);
            if reachable(cards, total) {
                let j = choose|j: int|
                    0 <= j < possible_totals(rest).len() && possible_totals(rest)[j] == total - v;
                assert(possible_totals(cards)[j] == total);
            }
            if possible_totals(cards).contains(total) {
                let j = choose|j: int|
                    0 <= j < possible_totals(cards).len() && possible_totals(cards)[j] == total;
                assert(possible_totals(rest)[j] == total - v);
            }
        }
    }
}

/// The best total is a possible total. Where it is at most 21, no possible
/// total that is at most 21 is larger; where it exceeds 21, every possible
/// total does and none is smaller.
pub proof fn lemma_best_total_is_best(cards: Seq<Card>)
    ensures
        possible_totals(cards).contains(best_total(cards)),
        forall|j: int|
            0 <= j <= ace_count(cards) && #[trigger] total_with(cards, j) <= 21 ==> total_with(
                cards,
                j,
            ) <= best_total(cards),
        best_total(cards) > 21 ==> best_total(cards) == possible_totals(cards)[0],
        best_total(cards) > 21 <==> is_bust(cards),
{
    lemma_tally_bounds(cards);
    if ace_count(cards) >= 1 && total_with(cards, 1) <= 21 {
        assert(possible_totals(cards)[1] == best_total(cards));
    } else {
        assert(possible_totals(cards)[0] == best_total(cards));
    }
}

/// The ranks of the cards, in the order of the cards.
pub open spec fn ranks_of(cards: Seq<Card>) -> Seq<Rank> {
    cards.map_values(|card: Card| card.rank)
}

/// What the ranks other than the Ace count for together, each as often as it
/// occurs.
pub open spec fn non_ace_weight(ranks: Multiset<Rank>) -> nat {
    2 * ranks.count(Rank::Two) + 3 * ranks.count(Rank::Three) + 4 * ranks.count(Rank::Four) + 5
        * ranks.count(Rank::Five) + 6 * ranks.count(Rank::Six) + 7 * ranks.count(Rank::Seven) + 8
        * ranks.count(Rank::Eight) + 9 * ranks.count(Rank::Nine) + 10 * ranks.count(Rank::Ten) + 10
        * ranks.count(Rank::Jack) + 10 * ranks.count(Rank::Queen) + 10 * ranks.count(Rank::King)
}

/// The number of Aces and the total of the other cards are fixed by how
/// often each rank occurs.
pub proof fn lemma_tally_by_rank(cards: Seq<Card>)
    ensures
        ace_count(cards) == ranks_of(cards).to_multiset().count(Rank::Ace),
        non_ace_total(cards) == non_ace_weight(ranks_of(cards).to_multiset()),
    decreases cards.len(),
{
    if cards.len() == 0 {
        ranks_of(cards).to_multiset_ensures();
        vstd::multiset::lemma_multiset_empty_len(ranks_of(cards).to_multiset());
        assert(ranks_of(cards).to_multiset() =~= Multiset::empty());
    } else {
        let rest = cards.drop_last();
        lemma_tally_by_rank(rest);
        ranks_of(rest).to_multiset_ensures();
        assert(ranks_of(cards) =~= ranks_of(rest).push(cards.last().rank));
        assert(ranks_of(cards).to_multiset() =~= ranks_of(rest).to_multiset().insert(
            cards.last().rank,
        ));
    }
}

/// The totals of a hand do not depend on the order of its cards, nor on
/// their suits: two hands in which each rank occurs equally often have the
/// same possible totals and the same best total, and both are bust or
/// neither is.
pub proof fn lemma_totals_ignore_order(a: Seq<Card>, b: Seq<Card>)
    requires
        ranks_of(a).to_multiset() == ranks_of(b).to_multiset(),
    ensures
        possible_totals(a) == possible_totals(b),
        best_total(a) == best_total(b),
        is_bust(a) == is_bust(b),
{
    lemma_tally_by_rank(a);
    lemma_tally_by_rank(b);
    assert(possible_totals(a) =~= possible_totals(b));
}

} // verus!
