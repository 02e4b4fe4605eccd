//! A single player in a game of Love Letter.
use vstd::multiset::Multiset;
use vstd::prelude::*;

use crate::card::Card;

verus! {

/// The sum of the ranks of a sequence of cards.
pub open spec fn rank_sum(s: Seq<Card>) -> nat
    decreases s.len(),
{
    if s.len() == 0 {
        0
    } else {
        rank_sum(s.drop_last()) + s.last().spec_rank()
    }
}

/// Each card adds at most eight to a sum of ranks.
pub proof fn lemma_rank_sum_bound(s: Seq<Card>)
    ensures
        rank_sum(s) <= 8 * s.len(),
    decreases s.len(),
{
    if s.len() > 0 {
        lemma_rank_sum_bound(s.drop_last());
    }
}

/// What a player holds and whether they are still in the round.
pub ghost struct PlayerView {
    /// The cards in hand, in the order in which they were received.
    pub hand: Seq<Card>,
    /// Every card that has left the hand face up, in order.
    pub discards: Seq<Card>,
    /// Whether the player is shielded by a Handmaid.
    pub protected: bool,
    /// Whether the player is still in the round.
    pub active: bool,
}

impl PlayerView {
    /// The card in hand when the hand holds exactly one card.
    pub open spec fn solo(self) -> Option<Card> {
        if self.hand.len() == 1 {
            Some(self.hand[0])
        } else {
            None
        }
    }

    /// Every card this player owns, in hand or discarded.
    pub open spec fn cards(self) -> Multiset<Card> {
        self.hand.to_multiset().add(self.discards.to_multiset())
    }
}

/// A player in a game of Love Letter.
#[derive(Clone, Debug)]
pub struct Player {
    /// The cards currently held in this player's hand.
    hand: Vec<Card>,
    /// The cards that have previously been discarded by this player.
    discards: Vec<Card>,
    /// Whether this player is currently protected by the effect of the Handmaid.
    protected: bool,
    /// Whether this player is still active (i.e. has not been eliminated from the game).
    active: bool,
}

impl View for Player {
    type V = PlayerView;

    closed spec fn view(&self) -> PlayerView {
        PlayerView {
            hand: self.hand@,
            discards: self.discards@,
            protected: self.protected,
            active: self.active,
        }
    }
}

impl Player {
    /// A new player at the start of a game.
    pub fn new() -> (r: Player)
        ensures
            r@ == (PlayerView {
                hand: Seq::empty(),
                discards: Seq::empty(),
                protected: false,
                active: true,
            }),
    {
        Player { hand: Vec::new(), discards: Vec::new(), protected: false, active: true }
    }

    /// Deal a card to this player.
    pub fn give_card(&mut self, card: Card)
        ensures
            final(self)@ == (PlayerView { hand: old(self)@.hand.push(card), ..old(self)@ }),
    {
        self.hand.push(card);
    }

    /// Move the first copy of the given card from this player's hand to their discards.
    pub fn play_card(&mut self, card: Card) -> (r: Result<(), ()>)
        ensures
            r is Ok <==> old(self)@.hand.contains(card),
            r is Ok ==> exists|i: int|
                0 <= i < old(self)@.hand.len() && old(self)@.hand[i] == card && (forall|j: int|
                    0 <= j < i ==> old(self)@.hand[j] != card) && final(self)@ == (PlayerView {
                    hand: old(self)@.hand.remove(i),
                    discards: old(self)@.discards.push(card),
                    ..old(self)@
                }),
            r is Err ==> final(self)@ == old(self)@,
    {
        match self.position(card) {
            Some(i) => {
                self.hand.remove(i);
                self.discards.push(card);
                Ok(())
            },
            None => Err(()),
        }
    }

    /// The index of the first copy of the given card in this player's hand.
    fn position(&self, card: Card) -> (r: Option<usize>)
        ensures
            r is None <==> !self@.hand.contains(card),
            r matches Some(i) ==> i < self@.hand.len() && self@.hand[i as int] == card && (forall|
                j: int,
            | 0 <= j < i ==> self@.hand[j] != card),
    {
        let mut i: usize = 0;
        while i < self.hand.len()
            invariant
                i <= self.hand@.len(),
                forall|j: int| 0 <= j < i ==> self.hand@[j] != card,
            decreases self.hand@.len() - i,
        {
            if self.hand[i] == card {
                return Some(i);
            }
            i = i + 1;
        }
        None
    }

    /// Check if this player is holding a particular card.
    pub fn is_holding_card(&self, card: Card) -> (r: bool)
        ensures
            r == self@.hand.contains(card),
    {
        self.position(card).is_some()
    }

    /// Get the single card that this player is holding.
    pub fn card(&self) -> (r: Option<Card>)
        ensures
            r == self@.solo(),
    {
        if self.hand.len() == 1 {
            Some(self.hand[0])
        } else {
            None
        }
    }

    /// Get the single card that this player is holding, moving it from their hand to their
    /// discards.
    pub fn take_card(&mut self) -> (r: Option<Card>)
        ensures
            r == old(self)@.solo(),
            r matches Some(c) ==> final(self)@ == (PlayerView {
                hand: Seq::empty(),
                discards: old(self)@.discards.push(c),
                ..old(self)@
            }),
            r is None ==> final(self)@ == old(self)@,
    {
        let card = self.card();
        if let Some(c) = card {
            self.discards.push(c);
            self.hand.clear();
        }
        card
    }

    /// Replace the single card that this player is holding with another, returning the card
    /// that was held. The held card is handed over, not discarded.
    pub fn exchange_card(&mut self, card: Card) -> (r: Option<Card>)
        ensures
            r == old(self)@.solo(),
            r is Some ==> final(self)@ == (PlayerView { hand: seq![card], ..old(self)@ }),
            r is None ==> final(self)@ == old(self)@,
    {
        if self.hand.len() == 1 {
            let held = self.hand[0];
            self.hand.set(0, card);
            proof {
                assert(self.hand@ =~= seq![card]);
            }
            Some(held)
        } else {
            None
        }
    }

    /// Get the total rank of the cards this player has discarded.
    pub fn value_of_discards(&self) -> (r: u32)
        requires
            rank_sum(self@.discards) <= u32::MAX,
        ensures
            r as nat == rank_sum(self@.discards),
    {
        let mut sum: u32 = 0;
        let mut i: usize = 0;
        while i < self.discards.len()
            invariant
                i <= self.discards@.len(),
                rank_sum(self.discards@) <= u32::MAX,
                sum as nat == rank_sum(self.discards@.subrange(0, i as int)),
            decreases self.discards@.len() - i,
        {
            proof {
                let s = self.discards@;
                assert(s.subrange(0, i as int + 1).drop_last() =~= s.subrange(0, i as int));
                lemma_rank_sum_prefix(s, i as int + 1);
            }
            sum = sum + self.discards[i].rank() as u32;
            i = i + 1;
        }
        proof {
            assert(self.discards@.subrange(0, i as int) =~= self.discards@);
        }
        sum
    }

    /// Check if this player is currently protected by a Handmaid.
    pub fn protected(&self) -> (r: bool)
        ensures
            r == self@.protected,
    {
        self.protected
    }

    /// Protect this player.
    pub fn make_protected(&mut self)
        ensures
            final(self)@ == (PlayerView { protected: true, ..old(self)@ }),
    {
        self.protected = true;
    }

    /// Remove this player's protection.
    pub fn make_unprotected(&mut self)
        ensures
            final(self)@ == (PlayerView { protected: false, ..old(self)@ }),
    {
        self.protected = false;
    }

    /// Check if this player is currently active in the game.
    pub fn active(&self) -> (r: bool)
        ensures
            r == self@.active,
    {
        self.active
    }

    /// Eliminate this player.
    pub fn eliminate(&mut self)
        ensures
            final(self)@ == (PlayerView { active: false, ..old(self)@ }),
    {
        self.active = false;
    }
}

/// A sum over a prefix is bounded by the sum over the whole sequence.
proof fn lemma_rank_sum_prefix(s: Seq<Card>, k: int)
    requires
        0 <= k <= s.len(),
    ensures
        rank_sum(s.subrange(0, k)) <= rank_sum(s),
    decreases s.len() - k,
{
    if k < s.len() {
        lemma_rank_sum_prefix(s, k + 1);
        assert(s.subrange(0, k + 1).drop_last() =~= s.subrange(0, k));
    } else {
        assert(s.subrange(0, k) =~= s);
    }
}

} // verus!
