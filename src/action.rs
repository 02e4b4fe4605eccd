//! The actions that can be taken in a game of Love Letter.
//!
//! An `Action` is anything carried out on behalf of the players, for example playing a card.
//! Drawing a card is not an `Action`: the game deals it. Beginning a new game is an `Action`.
use vstd::prelude::*;

use crate::card::Card;

verus! {

/// An external action that can be taken to progress a game of Love Letter.
#[derive(Clone, Debug, PartialEq, Eq, Structural)]
pub enum Action {
    /// A new game is beginning.
    StartGame { players: usize },
    /// One of the players plays a card.
    PlayCard { player_idx: usize, details: PlayCardDetails },
}

/// Details about a play taken by one of the players.
#[derive(Clone, Debug, PartialEq, Eq, Structural)]
pub enum PlayCardDetails {
    /// A Guard has been played, and a guess has been made about another player's card.
    PlayGuard { target_idx: Option<usize>, guess: Card },
    /// A Priest has been played on another player.
    PlayPriest { target_idx: Option<usize> },
    /// A Baron has been played on another player.
    PlayBaron { target_idx: Option<usize> },
    /// A Handmaid has been played.
    PlayHandmaid {},
    /// A Prince has been played on one of the players in the game.
    PlayPrince { target_idx: usize },
    /// A King has been played on another player.
    PlayKing { target_idx: Option<usize> },
    /// A Countess has been played.
    PlayCountess {},
    /// A Princess has been played.
    PlayPrincess {},
}

impl PlayCardDetails {
    /// The card that this play puts down.
    pub open spec fn spec_card(&self) -> Card {
        match self {
            PlayCardDetails::PlayGuard { .. } => Card::Guard,
            PlayCardDetails::PlayPriest { .. } => Card::Priest,
            PlayCardDetails::PlayBaron { .. } => Card::Baron,
            PlayCardDetails::PlayHandmaid { .. } => Card::Handmaid,
            PlayCardDetails::PlayPrince { .. } => Card::Prince,
            PlayCardDetails::PlayKing { .. } => Card::King,
            PlayCardDetails::PlayCountess { .. } => Card::Countess,
            PlayCardDetails::PlayPrincess { .. } => Card::Princess,
        }
    }

    /// The player that this play is aimed at, if any.
    pub open spec fn spec_target(&self) -> Option<usize> {
        match self {
            PlayCardDetails::PlayGuard { target_idx, .. } => *target_idx,
            PlayCardDetails::PlayPriest { target_idx } => *target_idx,
            PlayCardDetails::PlayBaron { target_idx } => *target_idx,
            PlayCardDetails::PlayPrince { target_idx } => Some(*target_idx),
            PlayCardDetails::PlayKing { target_idx } => *target_idx,
            _ => None,
        }
    }

    /// Get the card associated with this play.
    #[verifier::when_used_as_spec(spec_card)]
    pub fn card(&self) -> (r: Card)
        ensures
            r == self.spec_card(),
    {
        match self {
            PlayCardDetails::PlayGuard { .. } => Card::Guard,
            PlayCardDetails::PlayPriest { .. } => Card::Priest,
            PlayCardDetails::PlayBaron { .. } => Card::Baron,
            PlayCardDetails::PlayHandmaid { .. } => Card::Handmaid,
            PlayCardDetails::PlayPrince { .. } => Card::Prince,
            PlayCardDetails::PlayKing { .. } => Card::King,
            PlayCardDetails::PlayCountess { .. } => Card::Countess,
            PlayCardDetails::PlayPrincess { .. } => Card::Princess,
        }
    }

    /// Get the target associated with this play.
    #[verifier::when_used_as_spec(spec_target)]
    pub fn target(&self) -> (r: Option<usize>)
        ensures
            r == self.spec_target(),
    {
        match self {
            PlayCardDetails::PlayGuard { target_idx, .. } => *target_idx,
            PlayCardDetails::PlayPriest { target_idx } => *target_idx,
            PlayCardDetails::PlayBaron { target_idx } => *target_idx,
            PlayCardDetails::PlayPrince { target_idx } => Some(*target_idx),
            PlayCardDetails::PlayKing { target_idx } => *target_idx,
            _ => None,
        }
    }
}

} // verus!
