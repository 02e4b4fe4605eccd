//! The draw pile of a game of Love Letter.
use rand::seq::SliceRandom;
use vstd::prelude::*;

use crate::card::Card;

verus! {

/// The sixteen cards of a full deck, in the order in which a new deck holds them: five Guards,
/// two each of Priest, Baron, Handmaid and Prince, and one each of King, Countess and Princess.
pub open spec fn full_deck() -> Seq<Card> {
    seq![
        Card::Guard, Card::Guard, Card::Guard, Card::Guard, Card::Guard,
        Card::Priest, Card::Priest,
        Card::Baron, Card::Baron,
        Card::Handmaid, Card::Handmaid,
        Card::Prince, Card::Prince,
        Card::King,
        Card::Countess,
        Card::Princess,
    ]
}

/// A Love Letter deck. Cards are drawn from the end of the sequence.
#[derive(Clone, Debug)]
pub struct Deck {
    cards: Vec<Card>,
}

impl View for Deck {
    type V = Seq<Card>;

    closed spec fn view(&self) -> Seq<Card> {
        self.cards@
    }
}

/// Relies on rand's `SliceRandom::shuffle` with the thread-local generator: it only swaps
/// elements of the slice, so the result is a reordering of the input. `thread_rng` panics
/// only when the operating system cannot seed it, which no input can cause or avoid.
#[verifier::external_body]
fn shuffle_cards(cards: &mut Vec<Card>)
    ensures
        final(cards)@.len() == old(cards)@.len(),
        final(cards)@.to_multiset() == old(cards)@.to_multiset(),
{
    cards.shuffle(&mut rand::thread_rng());
}

impl Deck {
    /// Returns a new `Deck` with the cards in a fixed default order.
    pub fn new() -> (r: Deck)
        ensures
            r@ == full_deck(),
    {
        let cards = vec![
            Card::Guard, Card::Guard, Card::Guard, Card::Guard, Card::Guard,
            Card::Priest, Card::Priest,
            Card::Baron, Card::Baron,
            Card::Handmaid, Card::Handmaid,
            Card::Prince, Card::Prince,
            Card::King,
            Card::Countess,
            Card::Princess,
        ];
        let r = Deck { cards };
        proof {
            assert(r@ =~= full_deck());
        }
        r
    }

    /// Checks if the deck is empty.
    pub fn is_empty(&self) -> (r: bool)
        ensures
            r == (self@.len() == 0),
    {
        self.cards.len() == 0
    }

    /// The number of cards left in the deck.
    pub fn len(&self) -> (r: usize)
        ensures
            r == self@.len(),
    {
        self.cards.len()
    }

    /// Shuffles the cards in this `Deck` into a random order.
    pub fn shuffle(&mut self)
        ensures
            final(self)@.len() == old(self)@.len(),
            final(self)@.to_multiset() == old(self)@.to_multiset(),
    {
        shuffle_cards(&mut self.cards);
    }

    /// Exchanges the cards at two positions, so that a caller can arrange a known order.
    pub fn swap(&mut self, i: usize, j: usize)
        requires
            i < old(self)@.len(),
            j < old(self)@.len(),
        ensures
            final(self)@ == old(self)@.update(i as int, old(self)@[j as int]).update(
                j as int,
                old(self)@[i as int],
            ),
            final(self)@.to_multiset() == old(self)@.to_multiset(),
    {
        let a = self.cards[i];
        let b = self.cards[j];
        self.cards.set(i, b);
        self.cards.set(j, a);
        proof {
            broadcast use vstd::seq_lib::group_to_multiset_ensures;
            let s = old(self)@;
            let t = s.update(i as int, b);
            if i != j {
                assert(s.to_multiset().remove(a).insert(b).remove(b).insert(a) =~= s.to_multiset());
                assert(t[j as int] == b);
            }
            assert(self.cards@ =~= t.update(j as int, a));
        }
    }

    /// Draws the top card from the `Deck` and returns it, or `None` if it is empty.
    pub fn pop(&mut self) -> (r: Option<Card>)
        ensures
            old(self)@.len() == 0 ==> r is None && final(self)@ == old(self)@,
            old(self)@.len() > 0 ==> r == Some(old(self)@.last()) && final(self)@
                == old(self)@.drop_last(),
    {
        self.cards.pop()
    }
}

} // verus!
