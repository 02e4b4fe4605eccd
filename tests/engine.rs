use love_letter::action::{Action, PlayCardDetails};
use love_letter::card::Card;
use love_letter::deck::Deck;
use love_letter::event::Event;
use love_letter::game::{Game, GameError};

use love_letter::card::Card::{Baron, Countess, Guard, Handmaid, King, Priest, Prince, Princess};

/// A full deck in its default order with the given positions exchanged. Cards are drawn from
/// the end: with two players position 15 is burned, 14 to 12 are removed, seat 0 gets 11,
/// seat 1 gets 10, seat 0 gets 9, and later draws take 8, 7, ...
fn arranged(swaps: &[(usize, usize)]) -> Deck {
    let mut deck = Deck::new();
    for &(i, j) in swaps {
        deck.swap(i, j);
    }
    deck
}

fn started(players: usize, swaps: &[(usize, usize)]) -> Game {
    let mut game = Game::new();
    game.start_game_with_deck(players, arranged(swaps)).unwrap();
    game
}

fn play(game: &mut Game, player_idx: usize, details: PlayCardDetails) -> Result<Vec<Event>, GameError> {
    game.perform_action(&Action::PlayCard { player_idx, details })
}

#[test]
fn start_two_players_default_order() {
    let mut game = Game::new();
    let events = game.start_game_with_deck(2, Deck::new()).unwrap();
    assert_eq!(
        events,
        vec![
            Event::NewGame { players: 2 },
            Event::RegisterPlayer { player_idx: 0 },
            Event::RegisterPlayer { player_idx: 1 },
            Event::BurnCard {},
            Event::RemoveCardFromGame { card: Countess },
            Event::RemoveCardFromGame { card: King },
            Event::RemoveCardFromGame { card: Prince },
            Event::DealCard { player_idx: 0, card: Prince },
            Event::DealCard { player_idx: 1, card: Handmaid },
            Event::DealCard { player_idx: 0, card: Handmaid },
            Event::ReadyToPlay { player_idx: 0 },
        ]
    );
}

#[test]
fn start_two_players_shuffled_event_shape() {
    let mut game = Game::new();
    let events = game.perform_action(&Action::StartGame { players: 2 }).unwrap();
    assert_eq!(events.len(), 11);
    assert_eq!(events[0], Event::NewGame { players: 2 });
    assert_eq!(events[1], Event::RegisterPlayer { player_idx: 0 });
    assert_eq!(events[2], Event::RegisterPlayer { player_idx: 1 });
    assert_eq!(events[3], Event::BurnCard {});
    for e in &events[4..7] {
        assert!(matches!(e, Event::RemoveCardFromGame { .. }));
    }
    assert!(matches!(events[7], Event::DealCard { player_idx: 0, .. }));
    assert!(matches!(events[8], Event::DealCard { player_idx: 1, .. }));
    assert!(matches!(events[9], Event::DealCard { player_idx: 0, .. }));
    assert_eq!(events[10], Event::ReadyToPlay { player_idx: 0 });
    // The game is in progress: seat 1 may not play, seat 0 may be asked to.
    assert_eq!(
        play(&mut game, 1, PlayCardDetails::PlayCountess {}),
        Err(GameError::PlayedOutOfTurn(1))
    );
}

#[test]
fn start_four_players_default_order() {
    let mut game = Game::new();
    let events = game.start_game_with_deck(4, Deck::new()).unwrap();
    assert_eq!(
        events,
        vec![
            Event::NewGame { players: 4 },
            Event::RegisterPlayer { player_idx: 0 },
            Event::RegisterPlayer { player_idx: 1 },
            Event::RegisterPlayer { player_idx: 2 },
            Event::RegisterPlayer { player_idx: 3 },
            Event::BurnCard {},
            Event::DealCard { player_idx: 0, card: Countess },
            Event::DealCard { player_idx: 1, card: King },
            Event::DealCard { player_idx: 2, card: Prince },
            Event::DealCard { player_idx: 3, card: Prince },
            Event::DealCard { player_idx: 0, card: Handmaid },
            Event::ReadyToPlay { player_idx: 0 },
        ]
    );
}

#[test]
fn invalid_player_counts_are_refused() {
    let mut game = Game::new();
    for n in [0usize, 1, 5, 100] {
        assert_eq!(
            game.perform_action(&Action::StartGame { players: n }),
            Err(GameError::InvalidNumberOfPlayers(n))
        );
    }
    assert_eq!(
        play(&mut game, 0, PlayCardDetails::PlayHandmaid {}),
        Err(GameError::GameNotInProgress)
    );
}

#[test]
fn restart_resets_the_game() {
    let mut game = started(2, &[(9, 15)]);
    play(&mut game, 0, PlayCardDetails::PlayPrincess {}).unwrap();
    let events = game.start_game_with_deck(3, Deck::new()).unwrap();
    assert_eq!(events[0], Event::NewGame { players: 3 });
    assert_eq!(events.len(), 10);
    assert_eq!(events[9], Event::ReadyToPlay { player_idx: 0 });
}

#[test]
fn guard_wrong_guess_passes_turn() {
    // Seat 0 holds Prince and Guard, seat 1 holds a Handmaid.
    let mut game = started(2, &[(9, 0)]);
    let events = play(&mut game, 0, PlayCardDetails::PlayGuard { target_idx: Some(1), guess: Priest }).unwrap();
    assert_eq!(
        events,
        vec![
            Event::PlayCard { player_idx: 0, card: Guard },
            Event::Guess { target_idx: 1, guess: Priest },
            Event::DealCard { player_idx: 1, card: Baron },
            Event::ReadyToPlay { player_idx: 1 },
        ]
    );
}

#[test]
fn guard_right_guess_knocks_out_target() {
    let mut game = started(2, &[(9, 0)]);
    let events = play(&mut game, 0, PlayCardDetails::PlayGuard { target_idx: Some(1), guess: Handmaid }).unwrap();
    assert_eq!(
        events,
        vec![
            Event::PlayCard { player_idx: 0, card: Guard },
            Event::Guess { target_idx: 1, guess: Handmaid },
            Event::EliminatePlayer { player_idx: 1 },
            Event::RevealCard { player_idx: 1, card: Handmaid },
            Event::GameOver { winner_indices: vec![0] },
        ]
    );
    assert_eq!(
        play(&mut game, 0, PlayCardDetails::PlayPrince { target_idx: 0 }),
        Err(GameError::GameNotInProgress)
    );
}

#[test]
fn guard_on_self_is_refused() {
    let mut game = started(2, &[(9, 0)]);
    assert_eq!(
        play(&mut game, 0, PlayCardDetails::PlayGuard { target_idx: Some(0), guess: Prince }),
        Err(GameError::CannotTargetSelf(Guard))
    );
}

#[test]
fn guard_every_guess_against_every_card() {
    // Default positions of one copy of each card other than the Handmaid.
    let placed = [(Guard, 0usize), (Priest, 5), (Baron, 7), (Prince, 11), (King, 13), (Countess, 14), (Princess, 15)];
    let mut targets = vec![(Handmaid, None)];
    for &(card, pos) in placed.iter() {
        targets.push((card, Some(pos)));
    }
    let cards = [Guard, Priest, Baron, Handmaid, Prince, King, Countess, Princess];
    for &(target_card, pos) in targets.iter() {
        for &guess in cards.iter() {
            // Seat 0 gets a Guard at 9; seat 1 gets the target card at 10.
            let mut swaps = vec![(9, 1)];
            if let Some(pos) = pos {
                swaps.push((10, pos));
            }
            let mut game = Game::new();
            let start = game.start_game_with_deck(2, arranged(&swaps)).unwrap();
            assert_eq!(start[8], Event::DealCard { player_idx: 1, card: target_card });
            let events = play(&mut game, 0, PlayCardDetails::PlayGuard { target_idx: Some(1), guess }).unwrap();
            let eliminated = events.contains(&Event::EliminatePlayer { player_idx: 1 });
            assert_eq!(eliminated, guess == target_card);
        }
    }
}

#[test]
fn princess_play_knocks_out_player() {
    // Seat 0 holds Prince and Princess.
    let mut game = started(2, &[(9, 15)]);
    let events = play(&mut game, 0, PlayCardDetails::PlayPrincess {}).unwrap();
    assert_eq!(
        events,
        vec![
            Event::PlayCard { player_idx: 0, card: Princess },
            Event::EliminatePlayer { player_idx: 0 },
            Event::GameOver { winner_indices: vec![1] },
        ]
    );
}

#[test]
fn baron_lower_target_is_knocked_out() {
    // Seat 0 holds Prince and Baron, seat 1 a Handmaid.
    let mut game = started(2, &[(9, 7)]);
    let events = play(&mut game, 0, PlayCardDetails::PlayBaron { target_idx: Some(1) }).unwrap();
    assert_eq!(
        events,
        vec![
            Event::PlayCard { player_idx: 0, card: Baron },
            Event::CompareHands { player_idx: 0, player_card: Prince, target_idx: 1, target_card: Handmaid },
            Event::EliminatePlayer { player_idx: 1 },
            Event::RevealCard { player_idx: 1, card: Handmaid },
            Event::GameOver { winner_indices: vec![0] },
        ]
    );
}

#[test]
fn baron_lower_player_is_knocked_out() {
    // Seat 0 holds Guard and Baron, seat 1 a Handmaid.
    let mut game = started(2, &[(11, 0), (9, 7)]);
    let events = play(&mut game, 0, PlayCardDetails::PlayBaron { target_idx: Some(1) }).unwrap();
    assert_eq!(
        events,
        vec![
            Event::PlayCard { player_idx: 0, card: Baron },
            Event::CompareHands { player_idx: 0, player_card: Guard, target_idx: 1, target_card: Handmaid },
            Event::EliminatePlayer { player_idx: 0 },
            Event::RevealCard { player_idx: 0, card: Guard },
            Event::GameOver { winner_indices: vec![1] },
        ]
    );
}

#[test]
fn baron_tie_knocks_out_nobody() {
    // Seat 0 holds Baron and Handmaid, seat 1 a Handmaid.
    let mut game = started(2, &[(11, 7)]);
    let events = play(&mut game, 0, PlayCardDetails::PlayBaron { target_idx: Some(1) }).unwrap();
    assert_eq!(
        events,
        vec![
            Event::PlayCard { player_idx: 0, card: Baron },
            Event::CompareHands { player_idx: 0, player_card: Handmaid, target_idx: 1, target_card: Handmaid },
            Event::DealCard { player_idx: 1, card: Baron },
            Event::ReadyToPlay { player_idx: 1 },
        ]
    );
}

#[test]
fn countess_locks_prince() {
    // Seat 0 holds Prince and Countess.
    let mut game = started(2, &[(9, 14)]);
    assert_eq!(
        play(&mut game, 0, PlayCardDetails::PlayPrince { target_idx: 1 }),
        Err(GameError::CannotPlayWhileHoldingCountess(Prince))
    );
    let events = play(&mut game, 0, PlayCardDetails::PlayCountess {}).unwrap();
    assert_eq!(events[0], Event::PlayCard { player_idx: 0, card: Countess });
}

#[test]
fn countess_locks_king_in_either_order() {
    for swaps in [vec![(11, 13), (9, 14)], vec![(11, 14), (9, 13)]] {
        let mut game = started(2, &swaps);
        assert_eq!(
            play(&mut game, 0, PlayCardDetails::PlayKing { target_idx: Some(1) }),
            Err(GameError::CannotPlayWhileHoldingCountess(King))
        );
    }
}

#[test]
fn play_errors_in_order() {
    let mut game = started(2, &[]);
    assert_eq!(
        play(&mut game, 7, PlayCardDetails::PlayHandmaid {}),
        Err(GameError::PlayerDoesNotExist(7))
    );
    assert_eq!(
        play(&mut game, 1, PlayCardDetails::PlayHandmaid {}),
        Err(GameError::PlayedOutOfTurn(1))
    );
    assert_eq!(
        play(&mut game, 0, PlayCardDetails::PlayGuard { target_idx: None, guess: Priest }),
        Err(GameError::MustProvideTarget(Guard))
    );
    assert_eq!(
        play(&mut game, 0, PlayCardDetails::PlayPriest { target_idx: Some(5) }),
        Err(GameError::PlayerDoesNotExist(5))
    );
    assert_eq!(
        play(&mut game, 0, PlayCardDetails::PlayGuard { target_idx: Some(1), guess: Priest }),
        Err(GameError::PlayerDoesNotHaveCard(0, Guard))
    );
    // Nothing changed: the legal play still goes through.
    let events = play(&mut game, 0, PlayCardDetails::PlayHandmaid {}).unwrap();
    assert_eq!(events[0], Event::PlayCard { player_idx: 0, card: Handmaid });
}

#[test]
fn protected_player_cannot_be_targeted() {
    let mut game = started(2, &[]);
    play(&mut game, 0, PlayCardDetails::PlayHandmaid {}).unwrap();
    // Seat 1 holds Handmaid and Baron; seat 0 is protected.
    assert_eq!(
        play(&mut game, 1, PlayCardDetails::PlayBaron { target_idx: Some(0) }),
        Err(GameError::CannotTargetProtectedPlayer)
    );
    // With no legal target the Baron may be played without one, to no effect.
    let events = play(&mut game, 1, PlayCardDetails::PlayBaron { target_idx: None }).unwrap();
    assert_eq!(
        events,
        vec![
            Event::PlayCard { player_idx: 1, card: Baron },
            Event::DealCard { player_idx: 0, card: Baron },
            Event::ReadyToPlay { player_idx: 0 },
        ]
    );
}

#[test]
fn eliminated_player_cannot_be_targeted() {
    // Three players: seat 0 holds Countess and Guard, seat 1 a King, seat 2 a Prince.
    let mut game = started(3, &[(11, 0)]);
    let events = play(&mut game, 0, PlayCardDetails::PlayGuard { target_idx: Some(1), guess: King }).unwrap();
    assert_eq!(
        events,
        vec![
            Event::PlayCard { player_idx: 0, card: Guard },
            Event::Guess { target_idx: 1, guess: King },
            Event::EliminatePlayer { player_idx: 1 },
            Event::RevealCard { player_idx: 1, card: King },
            Event::DealCard { player_idx: 2, card: Handmaid },
            Event::ReadyToPlay { player_idx: 2 },
        ]
    );
    assert_eq!(
        play(&mut game, 2, PlayCardDetails::PlayPrince { target_idx: 1 }),
        Err(GameError::CannotTargetEliminatedPlayer)
    );
    // The turn skips the eliminated seat.
    let events = play(&mut game, 2, PlayCardDetails::PlayHandmaid {}).unwrap();
    assert_eq!(events[events.len() - 1], Event::ReadyToPlay { player_idx: 0 });
}

#[test]
fn prince_on_princess_knocks_out_target() {
    // Seat 1 holds the Princess.
    let mut game = started(2, &[(10, 15)]);
    let events = play(&mut game, 0, PlayCardDetails::PlayPrince { target_idx: 1 }).unwrap();
    assert_eq!(
        events,
        vec![
            Event::PlayCard { player_idx: 0, card: Prince },
            Event::DiscardCard { target_idx: 1, card: Princess },
            Event::EliminatePlayer { player_idx: 1 },
            Event::GameOver { winner_indices: vec![0] },
        ]
    );
}

#[test]
fn prince_on_self_redeals() {
    let mut game = started(2, &[]);
    let events = play(&mut game, 0, PlayCardDetails::PlayPrince { target_idx: 0 }).unwrap();
    assert_eq!(
        events,
        vec![
            Event::PlayCard { player_idx: 0, card: Prince },
            Event::DiscardCard { target_idx: 0, card: Handmaid },
            Event::DealCard { player_idx: 0, card: Baron },
            Event::DealCard { player_idx: 1, card: Baron },
            Event::ReadyToPlay { player_idx: 1 },
        ]
    );
}

#[test]
fn king_swaps_cards() {
    // Seat 0 holds King and Handmaid, seat 1 a Guard.
    let mut game = started(2, &[(11, 13), (10, 0)]);
    let events = play(&mut game, 0, PlayCardDetails::PlayKing { target_idx: Some(1) }).unwrap();
    assert_eq!(
        events,
        vec![
            Event::PlayCard { player_idx: 0, card: King },
            Event::SwapHands { player_idx: 0, player_card: Handmaid, target_idx: 1, target_card: Guard },
            Event::DealCard { player_idx: 1, card: Baron },
            Event::ReadyToPlay { player_idx: 1 },
        ]
    );
    // Seat 1 now holds Handmaid and Baron, seat 0 the Guard.
    let events = play(&mut game, 1, PlayCardDetails::PlayBaron { target_idx: Some(0) }).unwrap();
    assert_eq!(
        events[1],
        Event::CompareHands { player_idx: 1, player_card: Handmaid, target_idx: 0, target_card: Guard }
    );
    assert_eq!(events[2], Event::EliminatePlayer { player_idx: 0 });
}

#[test]
fn priest_shows_target_card() {
    // Seat 0 holds Priest and Handmaid, seat 1 a Handmaid.
    let mut game = started(2, &[(11, 5)]);
    let events = play(&mut game, 0, PlayCardDetails::PlayPriest { target_idx: Some(1) }).unwrap();
    assert_eq!(events[1], Event::ShowCard { player_idx: 0, target_idx: 1, card: Handmaid });
    assert_eq!(events.len(), 4);
}

#[test]
fn handmaid_and_countess_have_no_effect_events() {
    let mut game = started(2, &[]);
    let events = play(&mut game, 0, PlayCardDetails::PlayHandmaid {}).unwrap();
    assert_eq!(
        events,
        vec![
            Event::PlayCard { player_idx: 0, card: Handmaid },
            Event::DealCard { player_idx: 1, card: Baron },
            Event::ReadyToPlay { player_idx: 1 },
        ]
    );
}
