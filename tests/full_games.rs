use love_letter::action::{Action, PlayCardDetails};
use love_letter::card::Card;
use love_letter::deck::Deck;
use love_letter::event::Event;
use love_letter::game::Game;

use love_letter::card::Card::{Baron, Countess, Guard, Handmaid, King, Priest, Prince, Princess};

/// What the event log tells an observer about the table.
struct Table {
    hands: Vec<Vec<Card>>,
    discards: Vec<Vec<Card>>,
    active: Vec<bool>,
    protected: Vec<bool>,
    removed: usize,
    turn: usize,
    winners: Option<Vec<usize>>,
}

impl Table {
    fn new() -> Self {
        Table { hands: vec![], discards: vec![], active: vec![], protected: vec![], removed: 0, turn: 0, winners: None }
    }

    fn apply(&mut self, e: &Event) {
        match e {
            Event::NewGame { players } => {
                *self = Table::new();
                self.hands = vec![vec![]; *players];
                self.discards = vec![vec![]; *players];
                self.active = vec![true; *players];
                self.protected = vec![false; *players];
            }
            Event::RegisterPlayer { .. } | Event::BurnCard {} | Event::Guess { .. } | Event::ShowCard { .. } | Event::CompareHands { .. } => {}
            Event::RemoveCardFromGame { .. } => self.removed += 1,
            Event::DealCard { player_idx, card } => self.hands[*player_idx].push(*card),
            Event::ReadyToPlay { player_idx } => {
                assert!(self.active[*player_idx], "an eliminated player was asked to play");
                assert_eq!(self.hands[*player_idx].len(), 2);
                self.turn = *player_idx;
                self.protected[*player_idx] = false;
            }
            Event::PlayCard { player_idx, card } => {
                let hand = &mut self.hands[*player_idx];
                let pos = hand.iter().position(|c| c == card).unwrap();
                hand.remove(pos);
                self.discards[*player_idx].push(*card);
                if *card == Handmaid {
                    self.protected[*player_idx] = true;
                }
            }
            Event::SwapHands { player_idx, player_card, target_idx, target_card } => {
                self.hands[*player_idx] = vec![*target_card];
                self.hands[*target_idx] = vec![*player_card];
            }
            Event::DiscardCard { target_idx, card } | Event::RevealCard { player_idx: target_idx, card } => {
                assert_eq!(self.hands[*target_idx], vec![*card]);
                self.hands[*target_idx].clear();
                self.discards[*target_idx].push(*card);
            }
            Event::EliminatePlayer { player_idx } => self.active[*player_idx] = false,
            Event::GameOver { winner_indices } => self.winners = Some(winner_indices.clone()),
        }
    }

    fn cards_seen(&self) -> usize {
        self.hands.iter().map(|h| h.len()).sum::<usize>() + self.discards.iter().map(|d| d.len()).sum::<usize>() + self.removed
    }

    fn targets(&self, me: usize) -> Vec<usize> {
        (0..self.active.len()).filter(|&i| i != me && self.active[i] && !self.protected[i]).collect()
    }

    /// A legal play for the player whose turn it is, avoiding knocking anyone out where it can.
    fn pick_play(&self) -> PlayCardDetails {
        let me = self.turn;
        let hand = &self.hands[me];
        let other = |c: Card| if hand[0] == c { hand[1] } else { hand[0] };
        let targets = self.targets(me);
        let first = targets.first().copied();
        let holds = |c: Card| hand.contains(&c);
        if holds(Handmaid) {
            return PlayCardDetails::PlayHandmaid {};
        }
        if holds(Countess) {
            return PlayCardDetails::PlayCountess {};
        }
        if holds(Priest) {
            return PlayCardDetails::PlayPriest { target_idx: first };
        }
        if holds(Guard) {
            return match first {
                Some(t) => {
                    let guess = if self.hands[t][0] == Priest { Baron } else { Priest };
                    PlayCardDetails::PlayGuard { target_idx: Some(t), guess }
                }
                None => PlayCardDetails::PlayGuard { target_idx: None, guess: Priest },
            };
        }
        if holds(King) {
            return PlayCardDetails::PlayKing { target_idx: first };
        }
        if holds(Prince) {
            if let Some(&t) = targets.iter().find(|&&t| self.hands[t][0] != Princess) {
                return PlayCardDetails::PlayPrince { target_idx: t };
            }
            if other(Prince) != Princess {
                return PlayCardDetails::PlayPrince { target_idx: me };
            }
            return PlayCardDetails::PlayPrince { target_idx: first.unwrap_or(me) };
        }
        if holds(Baron) {
            return PlayCardDetails::PlayBaron { target_idx: first };
        }
        PlayCardDetails::PlayPrincess {}
    }

    fn expected_winners(&self) -> Vec<usize> {
        let active: Vec<usize> = (0..self.active.len()).filter(|&i| self.active[i]).collect();
        if active.len() == 1 {
            return active;
        }
        let key = |i: usize| (self.hands[i][0].rank(), self.discards[i].iter().map(|c| c.rank() as u32).sum::<u32>());
        let best = active.iter().map(|&i| key(i)).max().unwrap();
        active.into_iter().filter(|&i| key(i) == best).collect()
    }
}

/// A deck in an order fixed by `seed`.
fn seeded_deck(seed: u64) -> Deck {
    let mut deck = Deck::new();
    let mut x = seed.wrapping_mul(6364136223846793005).wrapping_add(1442695040888963407);
    for i in (1..16usize).rev() {
        x = x.wrapping_mul(6364136223846793005).wrapping_add(1442695040888963407);
        let j = ((x >> 33) % (i as u64 + 1)) as usize;
        deck.swap(i, j);
    }
    deck
}

/// Plays a whole game from the given deck, checking the log as it goes; returns the actions
/// taken and every event.
fn play_out(players: usize, deck: Deck) -> (Vec<Action>, Vec<Event>) {
    let mut game = Game::new();
    let mut table = Table::new();
    let mut log = game.start_game_with_deck(players, deck).unwrap();
    for e in &log {
        table.apply(e);
    }
    let mut actions = vec![];
    for _ in 0..40 {
        if table.winners.is_some() {
            break;
        }
        let action = Action::PlayCard { player_idx: table.turn, details: table.pick_play() };
        let events = game.perform_action(&action).unwrap();
        actions.push(action);
        for e in &events {
            if let Event::GameOver { winner_indices } = e {
                assert_eq!(*winner_indices, table.expected_winners());
            }
            table.apply(e);
        }
        assert!(table.cards_seen() <= 16);
        log.extend(events);
    }
    assert!(table.winners.is_some());
    (actions, log)
}

#[test]
fn whole_games_announce_best_scores() {
    for players in 2..=4 {
        for seed in 0..60u64 {
            play_out(players, seeded_deck(seed));
        }
    }
}

#[test]
fn deck_runs_out_with_tied_scores() {
    // Default order, two players: seat 0 plays Handmaid first and both play safe cards until
    // the deck is empty.
    let (_, log) = play_out(2, Deck::new());
    assert!(matches!(log.last(), Some(Event::GameOver { .. })));
}

#[test]
fn replay_reproduces_the_log() {
    for players in 2..=4 {
        for seed in 0..20u64 {
            let (actions, log) = play_out(players, seeded_deck(seed));
            let mut game = Game::new();
            let mut replay = game.start_game_with_deck(players, seeded_deck(seed)).unwrap();
            for a in &actions {
                replay.extend(game.perform_action(a).unwrap());
            }
            assert_eq!(replay, log);
        }
    }
}

#[test]
fn some_game_ends_on_an_empty_deck() {
    let mut ended_on_scores = false;
    for seed in 0..60u64 {
        let (_, log) = play_out(4, seeded_deck(seed));
        let eliminated = log.iter().filter(|e| matches!(e, Event::EliminatePlayer { .. })).count();
        if eliminated < 3 {
            ended_on_scores = true;
        }
    }
    assert!(ended_on_scores);
}
