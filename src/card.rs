//! The eight kinds of card in a game of Love Letter.
use vstd::prelude::*;

verus! {

/// A single card belonging to a Love Letter deck, listed from the lowest rank to the highest.
#[derive(Copy, Clone, Debug, PartialEq, Eq, Structural)]
pub enum Card {
    /// The Guard, with a rank of 1.
    Guard,
    /// The Priest, with a rank of 2.
    Priest,
    /// The Baron, with a rank of 3.
    Baron,
    /// The Handmaid, with a rank of 4.
    Handmaid,
    /// The Prince, with a rank of 5.
    Prince,
    /// The King, with a rank of 6.
    King,
    /// The Countess, with a rank of 7.
    Countess,
    /// The Princess, with a rank of 8.
    Princess,
}

impl Card {
    /// The rank of the card, from 1 (Guard) to 8 (Princess).
    pub open spec fn spec_rank(self) -> nat {
        match self {
            Card::Guard => 1,
            Card::Priest => 2,
            Card::Baron => 3,
            Card::Handmaid => 4,
            Card::Prince => 5,
            Card::King => 6,
            Card::Countess => 7,
            Card::Princess => 8,
        }
    }

    /// Whether playing this card acts on a target player.
    pub open spec fn spec_has_target(self) -> bool {
        match self {
            Card::Guard | Card::Priest | Card::Baron | Card::Prince | Card::King => true,
            _ => false,
        }
    }

    /// Returns the rank of this card.
    pub fn rank(self) -> (r: u8)
        ensures
            r as nat == self.spec_rank(),
            1 <= r <= 8,
    {
        match self {
            Card::Guard => 1,
            Card::Priest => 2,
            Card::Baron => 3,
            Card::Handmaid => 4,
            Card::Prince => 5,
            Card::King => 6,
            Card::Countess => 7,
            Card::Princess => 8,
        }
    }

    /// Returns whether or not this card is one whose action has a target.
    #[verifier::when_used_as_spec(spec_has_target)]
    pub fn has_target(self) -> (r: bool)
        ensures
            r == self.spec_has_target(),
    {
        match self {
            Card::Guard | Card::Priest | Card::Baron | Card::Prince | Card::King => true,
            _ => false,
        }
    }
}

} // verus!
