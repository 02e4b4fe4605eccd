//! The events that can occur in a game of Love Letter.
//!
//! An event is anything that happens as a result of an `Action` and which players of the game
//! might reasonably expect to be informed of: a card played, two hands compared, a player
//! eliminated, a card dealt. Some events mark only the flow of the game: a game starts, a player
//! joins, it is a player's turn, the game ends.
use vstd::prelude::*;

use crate::card::Card;

verus! {

/// An event that happens as a result of an action in a game of Love Letter.
#[derive(Clone, Debug, PartialEq, Eq)]
pub enum Event {
    /// A new game begins.
    NewGame { players: usize },
    /// A player joins the game.
    RegisterPlayer { player_idx: usize },
    /// A card is burned from the top of the deck.
    BurnCard {},
    /// Additional cards are publicly removed from the top of the deck.
    RemoveCardFromGame { card: Card },
    /// A card is dealt to one of the players.
    DealCard { player_idx: usize, card: Card },
    /// One of the players needs to play a card.
    ReadyToPlay { player_idx: usize },
    /// One of the players plays a card from their hand.
    PlayCard { player_idx: usize, card: Card },
    /// One of the players has a guess made about their card.
    Guess { target_idx: usize, guess: Card },
    /// One of the players shows their card to another player.
    ShowCard { player_idx: usize, target_idx: usize, card: Card },
    /// Two players compare their hands.
    CompareHands { player_idx: usize, player_card: Card, target_idx: usize, target_card: Card },
    /// One of the players is forced to discard a card from their hand.
    DiscardCard { target_idx: usize, card: Card },
    /// Two players swap hands.
    SwapHands { player_idx: usize, player_card: Card, target_idx: usize, target_card: Card },
    /// A player is eliminated from the game.
    EliminatePlayer { player_idx: usize },
    /// One of the players reveals their card after being eliminated.
    RevealCard { player_idx: usize, card: Card },
    /// The game ends and the winners are announced.
    GameOver { winner_indices: Vec<usize> },
}

} // verus!
