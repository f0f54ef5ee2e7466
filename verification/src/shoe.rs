//! The shoe: the cards that are still to be dealt, and those that were.

use vstd::prelude::*;
use rand::seq::SliceRandom;
use crate::card::{Card, Rank, Suit};

verus! {

/// The cards of `decks` decks as they lie before any shuffle: deck after
/// deck, in each deck rank after rank, and of each rank the four suits.
pub open spec fn full_shoe(decks: nat) -> Seq<Card> {
    Seq::new(
        52 * decks,
        |i: int| Card { rank: Rank::at((i % 52) / 4), suit: Suit::at(i % 4) },
    )
}

/// How many of the cards have the rank.
pub open spec fn rank_count(cards: Seq<Card>, rank: Rank) -> nat
    decreases cards.len(),
{
    if cards.len() == 0 {
        0
    } else {
        rank_count(cards.drop_last(), rank) + if cards.last().rank == rank {
            1nat
        } else {
            0nat
        }
    }
}

/// How many of the cards have the suit.
pub open spec fn suit_count(cards: Seq<Card>, suit: Suit) -> nat
    decreases cards.len(),
{
    if cards.len() == 0 {
        0
    } else {
        suit_count(cards.drop_last(), suit) + if cards.last().suit == suit {
            1nat
        } else {
            0nat
        }
    }
}

/// A shoe of cards: those that can still be drawn, the last of them first,
/// and those that were drawn, in the order in which they were.
pub struct Shoe {
    /// The cards that can still be drawn; the last one is drawn next.
    pub cards: Vec<Card>,
    /// The cards that were drawn, the latest last.
    pub discarded: Vec<Card>,
    /// How many decks the shoe is made of.
    pub number_of_decks: usize,
}

/// What a shoe holds, as plain values.
pub struct ShoeView {
    pub cards: Seq<Card>,
    pub discarded: Seq<Card>,
    pub decks: nat,
}

impl ShoeView {
    /// The card that is drawn next, if one is left.
    pub open spec fn top(self) -> Option<Card> {
        if self.cards.len() > 0 {
            Some(self.cards.last())
        } else {
            None
        }
    }

    /// The shoe after one draw: the top card has gone behind the drawn ones.
    /// An empty shoe stays as it is.
    pub open spec fn after_draw(self) -> ShoeView {
        if self.cards.len() > 0 {
            ShoeView {
                cards: self.cards.drop_last(),
                discarded: self.discarded.push(self.cards.last()),
                decks: self.decks,
            }
        } else {
            self
        }
    }

    /// The shoe after `n` draws.
    pub open spec fn after_draws(self, n: nat) -> ShoeView
        decreases n,
    {
        if n == 0 {
            self
        } else {
            self.after_draw().after_draws((n - 1) as nat)
        }
    }

    /// Whether the cards left and the cards drawn are together, card for
    /// card, the decks that the shoe is made of.
    pub open spec fn is_complete(self) -> bool {
        self.cards.to_multiset().add(self.discarded.to_multiset()) == full_shoe(
            self.decks,
        ).to_multiset()
    }

    /// Whether the cards of the decks can be counted: 52 for each deck.
    pub open spec fn decks_fit(self) -> bool {
        52 * self.decks <= usize::MAX
    }

    /// Whether `ready` is this shoe made ready for a deal to `players`
    /// players: the shoe itself if it has four cards left for each of them
    /// and for the dealer, and a new shoe of the same decks if not.
    pub open spec fn made_ready(self, ready: ShoeView, players: nat) -> bool {
        if self.cards.len() < (players + 1) * 2 * 2 {
            ready.is_new_shoe_of(self)
        } else {
            ready == self
        }
    }

    /// Whether this is a new shoe of the same decks as `before`: every card
    /// of those decks in some order, and none drawn.
    pub open spec fn is_new_shoe_of(self, before: ShoeView) -> bool {
        &&& self.decks == before.decks
        &&& self.discarded == Seq::<Card>::empty()
        &&& self.cards.to_multiset() == full_shoe(before.decks).to_multiset()
    }
}

impl View for Shoe {
    type V = ShoeView;

    open spec fn view(&self) -> ShoeView {
        ShoeView { cards: self.cards@, discarded: self.discarded@, decks: self.number_of_decks as nat }
    }
}

/// Puts the cards in a random order. Calls `shuffle` of `rand`'s
/// `SliceRandom` on the thread's generator, `rand::rng()`. Taken on trust:
/// the shuffle only swaps cards, so the same cards are there afterwards, each
/// as often as before. Nothing is said of their order. The generator panics
/// if the operating system gives it no entropy; no argument decides that.
#[verifier::external_body]
fn shuffle_cards(cards: &mut Vec<Card>)
    ensures
        final(cards)@.to_multiset() == old(cards)@.to_multiset(),
{
    let mut rng = rand::rng();
    cards.shuffle(&mut rng);
}

impl Shoe {
    /// Makes the unshuffled shoe of `num_decks` decks, with no card drawn.
    pub fn new(num_decks: usize) -> (shoe: Shoe)
        requires
            52 * num_decks <= usize::MAX,
        ensures
            shoe@ == (ShoeView {
                cards: full_shoe(num_decks as nat),
                discarded: Seq::empty(),
                decks: num_decks as nat,
            }),
            shoe@.is_complete(),
    {
        let capacity = 52 * num_decks;
        let mut cards: Vec<Card> = Vec::with_capacity(capacity);
        let ranks = Rank::all();
        let suits = Suit::all();
        let mut deck: usize = 0;
        while deck < num_decks
            invariant
                deck <= num_decks,
                52 * num_decks <= usize::MAX,
                ranks@ == Rank::in_order(),
                suits@ == Suit::in_order(),
                cards@ == full_shoe(num_decks as nat).take(52 * deck),
            decreases num_decks - deck,
        {
            let mut r: usize = 0;
            while r < 13
                invariant
                    deck < num_decks,
                    r <= 13,
                    52 * num_decks <= usize::MAX,
                    ranks@ == Rank::in_order(),
                    suits@ == Suit::in_order(),
                    cards@ == full_shoe(num_decks as nat).take(52 * deck + 4 * r),
                decreases 13 - r,
            {
                let mut s: usize = 0;
                while s < 4
                    invariant
                        deck < num_decks,
                        r < 13,
                        s <= 4,
                        52 * num_decks <= usize::MAX,
                        ranks@ == Rank::in_order(),
                        suits@ == Suit::in_order(),
                        cards@ == full_shoe(num_decks as nat).take(52 * deck + 4 * r + s),
                    decreases 4 - s,
                {
                    let card = Card::new(ranks[r], suits[s]);
                    cards.push(card);
                    proof {
                        let at = 52 * deck + 4 * r + s;
                        let all = full_shoe(num_decks as nat);
                        assert((at % 52) / 4 == r && at % 4 == s);
                        assert(all[at] == card);
                        assert(all.take(at).push(card) =~= all.take(at + 1));
                    }
                    s = s + 1;
                }
                r = r + 1;
            }
            deck = deck + 1;
        }
        proof {
            assert(cards@ =~= full_shoe(num_decks as nat));
        }
        let shoe = Shoe { cards, discarded: Vec::with_capacity(capacity), number_of_decks: num_decks };
        proof {
            lemma_new_shoe_is_complete(shoe@, shoe@);
        }
        shoe
    }

    /// Puts the cards that are left in a random order. The drawn cards stay
    /// as they are.
    pub fn shuffle(&mut self)
        ensures
            final(self)@.cards.to_multiset() == old(self)@.cards.to_multiset(),
            final(self)@.discarded == old(self)@.discarded,
            final(self)@.decks == old(self)@.decks,
            old(self)@.is_complete() ==> final(self)@.is_complete(),
    {
        shuffle_cards(&mut self.cards);
    }

    /// Draws the top card: takes it from the cards that are left, lays it
    /// behind the drawn ones and returns it. Returns `None`, and leaves the
    /// shoe as it is, when no card is left.
    pub fn draw_card(&mut self) -> (card: Option<Card>)
        ensures
            card == old(self)@.top(),
            final(self)@ == old(self)@.after_draw(),
            old(self)@.is_complete() ==> final(self)@.is_complete(),
    {
        proof {
            if self@.is_complete() {
                lemma_draw_keeps_complete(self@);
            }
        }
        match self.cards.pop() {
            Some(card) => {
                self.discarded.push(card);
                Some(card)
            },
            None => None,
        }
    }

    /// Makes sure that enough cards are left to deal to `num_players` players
    /// and the dealer: four cards for each of them. With fewer cards left the
    /// shoe is replaced by a new, shuffled shoe of the same decks, with no
    /// card drawn. Returns whether it was replaced.
    pub fn ensure_cards_for_players(&mut self, num_players: usize) -> (replaced: bool)
        requires
            old(self)@.decks_fit(),
        ensures
            replaced == (old(self)@.cards.len() < (num_players + 1) * 2 * 2),
            old(self)@.made_ready(final(self)@, num_players as nat),
            !replaced ==> final(self)@ == old(self)@,
            replaced ==> final(self)@.is_new_shoe_of(old(self)@),
            replaced || old(self)@.is_complete() ==> final(self)@.is_complete(),
    {
        if self.cards.len() / 4 <= num_players {
            let new_shoe = Shoe::new(self.number_of_decks);
            self.cards = new_shoe.cards;
            self.discarded.clear();
            self.shuffle();
            proof {
                lemma_new_shoe_is_complete(self@, old(self)@);
            }
            true
        } else {
            false
        }
    }
}

/// A new shoe is complete: with no card drawn, the cards left are all there
/// is, and they are the cards of its decks.
pub proof fn lemma_new_shoe_is_complete(shoe: ShoeView, before: ShoeView)
    requires
        shoe.is_new_shoe_of(before),
    ensures
        shoe.is_complete(),
{
    shoe.discarded.to_multiset_ensures();
    vstd::multiset::lemma_multiset_empty_len(shoe.discarded.to_multiset());
    assert(shoe.cards.to_multiset().add(shoe.discarded.to_multiset())
        =~= shoe.cards.to_multiset());
}

/// A draw keeps the shoe complete: the card only changes piles.
pub proof fn lemma_draw_keeps_complete(shoe: ShoeView)
    requires
        shoe.is_complete(),
    ensures
        shoe.after_draw().is_complete(),
{
    if shoe.cards.len() > 0 {
        let top = shoe.cards.last();
        shoe.cards.to_multiset_ensures();
        shoe.discarded.to_multiset_ensures();
        assert(shoe.cards.drop_last() =~= shoe.cards.remove(shoe.cards.len() - 1));
        assert(shoe.cards.contains(top));
        assert(shoe.cards.to_multiset().remove(top).add(shoe.discarded.to_multiset().insert(top))
            =~= shoe.cards.to_multiset().add(shoe.discarded.to_multiset()));
    }
}

/// A complete shoe holds 52 cards for each of its decks, drawn or not.
pub proof fn lemma_complete_shoe_size(shoe: ShoeView)
    requires
        shoe.is_complete(),
    ensures
        shoe.cards.len() + shoe.discarded.len() == 52 * shoe.decks,
{
    shoe.cards.to_multiset_ensures();
    shoe.discarded.to_multiset_ensures();
    full_shoe(shoe.decks).to_multiset_ensures();
}

/// After `n` draws the `n` top cards have left the shoe, or all of them if
/// there were fewer, and as many cards have joined the drawn ones. The shoe
/// is complete after them if it was before.
pub proof fn lemma_after_draws(shoe: ShoeView, n: nat)
    ensures
        n <= shoe.cards.len() ==> shoe.after_draws(n).cards == shoe.cards.take(
            shoe.cards.len() - n,
        ),
        n >= shoe.cards.len() ==> shoe.after_draws(n).cards.len() == 0,
        n <= shoe.cards.len() ==> shoe.after_draws(n).discarded.len() == shoe.discarded.len() + n,
        n >= shoe.cards.len() ==> shoe.after_draws(n).discarded.len() == shoe.discarded.len()
            + shoe.cards.len(),
        shoe.after_draws(n).decks == shoe.decks,
        shoe.is_complete() ==> shoe.after_draws(n).is_complete(),
    decreases n,
{
    if n == 0 {
        assert(shoe.cards.take(shoe.cards.len() as int) =~= shoe.cards);
    } else {
        let next = shoe.after_draw();
        lemma_after_draws(next, (n - 1) as nat);
        if shoe.is_complete() {
            lemma_draw_keeps_complete(shoe);
        }
        if n <= shoe.cards.len() {
            assert(next.cards.take(next.cards.len() - (n - 1)) =~= shoe.cards.take(
                shoe.cards.len() - n,
            ));
        }
    }
}

/// Counting over two runs of cards laid end to end adds up.
proof fn lemma_count_concat(a: Seq<Card>, b: Seq<Card>, rank: Rank, suit: Suit)
    ensures
        rank_count(a + b, rank) == rank_count(a, rank) + rank_count(b, rank),
        suit_count(a + b, suit) == suit_count(a, suit) + suit_count(b, suit),
    decreases b.len(),
{
    if b.len() == 0 {
        assert(a + b =~= a);
    } else {
        lemma_count_concat(a, b.drop_last(), rank, suit);
        assert((a + b).drop_last() =~= a + b.drop_last());
    }
}

/// Among the four cards of each of the first `ranks` ranks of a deck, a rank
/// occurs four times if it is one of those ranks and not at all otherwise,
/// and a suit occurs once for each of those ranks.
proof fn lemma_deck_prefix_counts(ranks: int, rank: Rank, suit: Suit)
    requires
        0 <= ranks <= 13,
    ensures
        rank_count(full_shoe(1).take(4 * ranks), rank) == if rank.ordinal() < ranks {
            4nat
        } else {
            0nat
        },
        suit_count(full_shoe(1).take(4 * ranks), suit) == ranks,
    decreases ranks,
{
    let deck = full_shoe(1);
    if ranks > 0 {
        let done = ranks - 1;
        lemma_deck_prefix_counts(done, rank, suit);
        let s0 = deck.take(4 * done);
        let s1 = deck.take(4 * done + 1);
        let s2 = deck.take(4 * done + 2);
        let s3 = deck.take(4 * done + 3);
        let s4 = deck.take(4 * done + 4);
        assert(s1.drop_last() =~= s0);
        assert(s2.drop_last() =~= s1);
        assert(s3.drop_last() =~= s2);
        assert(s4.drop_last() =~= s3);
        assert(s1.last() == Card { rank: Rank::at(done), suit: Suit::at(0) });
        assert(s2.last() == Card { rank: Rank::at(done), suit: Suit::at(1) });
        assert(s3.last() == Card { rank: Rank::at(done), suit: Suit::at(2) });
        assert(s4.last() == Card { rank: Rank::at(done), suit: Suit::at(3) });
        assert(Rank::at(done) == rank <==> rank.ordinal() == done);
        let hit: nat = if rank.ordinal() == done {
            1
        } else {
            0
        };
        assert(rank_count(s1, rank) == rank_count(s0, rank) + hit);
        assert(rank_count(s2, rank) == rank_count(s1, rank) + hit);
        assert(rank_count(s3, rank) == rank_count(s2, rank) + hit);
        assert(rank_count(s4, rank) == rank_count(s3, rank) + hit);
        assert(suit_count(s1, suit) == suit_count(s0, suit) + if suit.ordinal() == 0 {
            1nat
        } else {
            0nat
        });
        assert(suit_count(s2, suit) == suit_count(s1, suit) + if suit.ordinal() == 1 {
            1nat
        } else {
            0nat
        });
        assert(suit_count(s3, suit) == suit_count(s2, suit) + if suit.ordinal() == 2 {
            1nat
        } else {
            0nat
        });
        assert(suit_count(s4, suit) == suit_count(s3, suit) + if suit.ordinal() == 3 {
            1nat
        } else {
            0nat
        });
    }
}

/// A shoe of one deck more is the shoe followed by one deck.
proof fn lemma_full_shoe_grows(decks: nat)
    ensures
        full_shoe(decks + 1) =~= full_shoe(decks) + full_shoe(1),
{
    let more = full_shoe(decks + 1);
    let both = full_shoe(decks) + full_shoe(1);
    assert(more.len() == both.len());
    assert forall|i: int| 0 <= i < more.len() implies more[i] == both[i] by {
        if i >= 52 * decks {
            let j = i - 52 * decks;
            vstd::arithmetic::div_mod::lemma_mod_multiples_vanish(decks as int, j, 52);
            vstd::arithmetic::div_mod::lemma_mod_multiples_vanish(13 * (decks as int), j, 4);
            assert(i == 52 * decks + j);
            assert(i == 4 * (13 * decks) + j);
            assert(i % 52 == j % 52);
            assert(i % 4 == j % 4);
            assert(both[i] == full_shoe(1)[j]);
        }
    }
}

/// A full shoe of `decks` decks holds `52 * decks` cards; each of the
/// thirteen ranks is there `4 * decks` times and each of the four suits
/// `13 * decks` times.
pub proof fn lemma_full_shoe_counts(decks: nat, rank: Rank, suit: Suit)
    ensures
        full_shoe(decks).len() == 52 * decks,
        rank_count(full_shoe(decks), rank) == 4 * decks,
        suit_count(full_shoe(decks), suit) == 13 * decks,
    decreases decks,
{
    if decks > 0 {
        let fewer = (decks - 1) as nat;
        lemma_full_shoe_counts(fewer, rank, suit);
        lemma_deck_prefix_counts(13, rank, suit);
        lemma_count_concat(full_shoe(fewer), full_shoe(1), rank, suit);
        lemma_full_shoe_grows(fewer);
        assert(full_shoe(1).take(52) =~= full_shoe(1));
    }
}

/// Drawing every card of a new shoe empties it: after `52 * decks` draws no
/// card is left to draw and `52 * decks` cards were drawn.
pub proof fn lemma_drawing_a_full_shoe(decks: nat)
    ensures
        ({
            let shoe = ShoeView { cards: full_shoe(decks), discarded: Seq::empty(), decks };
            &&& shoe.after_draws(52 * decks).top() is None
            &&& shoe.after_draws(52 * decks).cards.len() == 0
            &&& shoe.after_draws(52 * decks).discarded.len() == 52 * decks
        }),
{
    let shoe = ShoeView { cards: full_shoe(decks), discarded: Seq::empty(), decks };
    lemma_after_draws(shoe, 52 * decks);
}

} // verus!
