use love_letter::action::PlayCardDetails;
use love_letter::card::Card;
use love_letter::deck::Deck;
use love_letter::game::Game;
use love_letter::player::Player;

use love_letter::card::Card::{Baron, Countess, Guard, Handmaid, King, Priest, Prince, Princess};

const ALL: [Card; 8] = [Guard, Priest, Baron, Handmaid, Prince, King, Countess, Princess];

#[test]
fn card_ranks_and_targets() {
    let ranks: Vec<u8> = ALL.iter().map(|c| c.rank()).collect();
    assert_eq!(ranks, vec![1, 2, 3, 4, 5, 6, 7, 8]);
    let targeted: Vec<bool> = ALL.iter().map(|c| c.has_target()).collect();
    assert_eq!(targeted, vec![true, true, true, false, true, true, false, false]);
}

#[test]
fn play_details_card_and_target() {
    let details = [
        (PlayCardDetails::PlayGuard { target_idx: Some(2), guess: King }, Guard, Some(2)),
        (PlayCardDetails::PlayPriest { target_idx: None }, Priest, None),
        (PlayCardDetails::PlayBaron { target_idx: Some(1) }, Baron, Some(1)),
        (PlayCardDetails::PlayHandmaid {}, Handmaid, None),
        (PlayCardDetails::PlayPrince { target_idx: 0 }, Prince, Some(0)),
        (PlayCardDetails::PlayKing { target_idx: Some(3) }, King, Some(3)),
        (PlayCardDetails::PlayCountess {}, Countess, None),
        (PlayCardDetails::PlayPrincess {}, Princess, None),
    ];
    for (d, card, target) in details.iter() {
        assert_eq!(d.card(), *card);
        assert_eq!(d.target(), *target);
    }
}

fn drain(deck: &mut Deck) -> Vec<Card> {
    let mut out = Vec::new();
    while let Some(c) = deck.pop() {
        out.push(c);
    }
    out
}

fn counts(cards: &[Card]) -> Vec<usize> {
    ALL.iter().map(|c| cards.iter().filter(|d| *d == c).count()).collect()
}

#[test]
fn new_deck_holds_sixteen_cards_in_order() {
    let mut deck = Deck::new();
    assert_eq!(deck.len(), 16);
    assert!(!deck.is_empty());
    let cards = drain(&mut deck);
    assert_eq!(
        cards,
        vec![
            Princess, Countess, King, Prince, Prince, Handmaid, Handmaid, Baron, Baron, Priest,
            Priest, Guard, Guard, Guard, Guard, Guard
        ]
    );
    assert!(deck.is_empty());
    assert_eq!(deck.pop(), None);
}

#[test]
fn shuffle_reorders_and_keeps_cards() {
    let default_order = drain(&mut Deck::new());
    let mut changed = false;
    for _ in 0..20 {
        let mut deck = Deck::new();
        deck.shuffle();
        assert_eq!(deck.len(), 16);
        let cards = drain(&mut deck);
        assert_eq!(counts(&cards), vec![5, 2, 2, 2, 2, 1, 1, 1]);
        if cards != default_order {
            changed = true;
        }
    }
    assert!(changed);
}

#[test]
fn deck_swap_exchanges_positions() {
    let mut deck = Deck::new();
    deck.swap(15, 0);
    assert_eq!(deck.pop(), Some(Guard));
    assert_eq!(deck.len(), 15);
    let rest = drain(&mut deck);
    assert_eq!(rest[rest.len() - 1], Princess);
}

#[test]
fn new_player_is_active_and_empty() {
    let p = Player::new();
    assert!(p.active());
    assert!(!p.protected());
    assert_eq!(p.card(), None);
    assert_eq!(p.value_of_discards(), 0);
}

#[test]
fn player_hand_and_discards() {
    let mut p = Player::new();
    p.give_card(Guard);
    assert_eq!(p.card(), Some(Guard));
    p.give_card(Princess);
    assert_eq!(p.card(), None);
    assert!(p.is_holding_card(Princess));
    assert!(!p.is_holding_card(King));
    assert_eq!(p.play_card(King), Err(()));
    assert_eq!(p.play_card(Guard), Ok(()));
    assert_eq!(p.card(), Some(Princess));
    assert_eq!(p.value_of_discards(), 1);
    assert_eq!(p.take_card(), Some(Princess));
    assert_eq!(p.card(), None);
    assert_eq!(p.value_of_discards(), 9);
    assert_eq!(p.take_card(), None);
}

#[test]
fn player_exchange_keeps_discards() {
    let mut p = Player::new();
    assert_eq!(p.exchange_card(King), None);
    p.give_card(Baron);
    assert_eq!(p.exchange_card(King), Some(Baron));
    assert_eq!(p.card(), Some(King));
    assert_eq!(p.value_of_discards(), 0);
}

#[test]
fn player_flags() {
    let mut p = Player::new();
    p.make_protected();
    assert!(p.protected());
    p.make_unprotected();
    assert!(!p.protected());
    p.eliminate();
    assert!(!p.active());
}

#[test]
fn default_game_is_not_started() {
    let mut game = Game::default();
    let r = game.perform_action(&love_letter::action::Action::PlayCard {
        player_idx: 0,
        details: PlayCardDetails::PlayHandmaid {},
    });
    assert_eq!(r, Err(love_letter::game::GameError::GameNotInProgress));
}
