//! A rules engine for the card game Love Letter.
//!
//! Ask a `Game` to carry out an `Action` and it returns the list of `Event`s that happened as a
//! result, or a `GameError` when the action breaks the rules, in which case nothing changes.
pub mod action;
pub mod card;
pub mod deck;
pub mod event;
pub mod game;
pub mod guarantees;
pub mod player;
