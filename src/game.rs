//! An engine that arbitrates a whole game of Love Letter.
//!
//! The engine works with actions and events. An action comes from outside the game: start a new
//! game, or play a card. An event is something that happens as a result of an action, decided
//! by the engine: a card dealt, a player eliminated. Ask the engine to take an action and it
//! returns every event that followed from it, in order.
use vstd::multiset::Multiset;
use vstd::prelude::*;

use crate::action::{Action, PlayCardDetails};
use crate::card::Card;
use crate::deck::{full_deck, Deck};
use crate::event::Event;
use crate::player::{rank_sum, Player, PlayerView};

verus! {

broadcast use vstd::seq_lib::group_to_multiset_ensures, vstd::multiset::group_multiset_axioms;

/// The high-level states of a game of Love Letter.
#[derive(Copy, Clone, Debug, PartialEq, Eq, Structural)]
pub enum GameState {
    /// The game has not yet started.
    NotStarted,
    /// The game is in progress.
    InProgress,
    /// The game has finished.
    Complete,
}

/// The reasons that a game action might be refused.
#[derive(Copy, Clone, Debug, PartialEq, Eq, Structural)]
pub enum GameError {
    /// Attempted to start a game with an invalid number of players.
    InvalidNumberOfPlayers(usize),
    /// Tried to play a card when the game was not in progress.
    GameNotInProgress,
    /// Referenced a player who doesn't exist in the current game.
    PlayerDoesNotExist(usize),
    /// Tried to play out of turn.
    PlayedOutOfTurn(usize),
    /// Tried to play a card that the player was not holding.
    PlayerDoesNotHaveCard(usize, Card),
    /// Did not provide a target when there were valid targets available.
    MustProvideTarget(Card),
    /// Tried to target oneself using a card that is not the Prince.
    CannotTargetSelf(Card),
    /// Tried to target a protected player.
    CannotTargetProtectedPlayer,
    /// Tried to target an eliminated player.
    CannotTargetEliminatedPlayer,
    /// Tried to play the Prince or King while holding the Countess.
    CannotPlayWhileHoldingCountess(Card),
}

/// The state of a game as the rules see it.
pub ghost struct GameView {
    /// The draw pile; the last card is drawn first.
    pub deck: Seq<Card>,
    /// The card set aside face down at the start, drawn only when the deck runs out.
    pub burned: Option<Card>,
    /// The cards removed face up at the start of a two-player game.
    pub removed: Seq<Card>,
    /// The players, by seat.
    pub players: Seq<PlayerView>,
    /// The seat whose turn it is.
    pub turn: int,
    /// The phase of the game.
    pub state: GameState,
}

/// The burned card as a multiset of at most one card.
pub open spec fn option_cards(c: Option<Card>) -> Multiset<Card> {
    match c {
        Some(c) => Multiset::singleton(c),
        None => Multiset::empty(),
    }
}

/// Every card owned by the players, in hand or discarded.
pub open spec fn seat_cards(ps: Seq<PlayerView>) -> Multiset<Card>
    decreases ps.len(),
{
    if ps.len() == 0 {
        Multiset::empty()
    } else {
        seat_cards(ps.drop_last()).add(ps.last().cards())
    }
}

impl GameView {
    /// Every card of the game, wherever it lies.
    pub open spec fn all_cards(self) -> Multiset<Card> {
        self.deck.to_multiset().add(option_cards(self.burned)).add(
            self.removed.to_multiset(),
        ).add(seat_cards(self.players))
    }

    /// The cards of the game make up exactly one full deck.
    pub open spec fn conserved(self) -> bool {
        self.all_cards() == full_deck().to_multiset()
    }

    /// Whether the seat names a player.
    pub open spec fn seat(self, i: int) -> bool {
        0 <= i < self.players.len()
    }

    /// Whether the seat names a player who is still in the round.
    pub open spec fn is_active(self, i: int) -> bool {
        self.seat(i) && self.players[i].active
    }

    /// Whether a card aimed by `actor` could legally land on seat `i`.
    pub open spec fn is_legal_target(self, actor: int, i: int, include_self: bool) -> bool {
        self.is_active(i) && !self.players[i].protected && (include_self || i != actor)
    }

    /// Whether any seat is a legal target for a card played by `actor`.
    pub open spec fn has_legal_target(self, actor: int, include_self: bool) -> bool {
        exists|i: int| self.is_legal_target(actor, i, include_self)
    }

    /// The state of a round between two plays: the player whose turn it is holds two cards,
    /// every other player still in holds one, the burned card is still set aside, and at least
    /// two players are in.
    pub open spec fn ready(self) -> bool {
        &&& self.is_active(self.turn)
        &&& self.players[self.turn].hand.len() == 2
        &&& forall|i: int| #[trigger]
            self.is_active(i) && i != self.turn ==> self.players[i].hand.len() == 1
        &&& self.burned is Some
        &&& exists|i: int| #[trigger] self.is_active(i) && i != self.turn
    }

    /// The invariant of the engine.
    pub open spec fn wf(self) -> bool {
        &&& self.conserved()
        &&& self.players.len() != 2 ==> self.removed.len() == 0
        &&& self.state != GameState::NotStarted ==> 2 <= self.players.len() <= 4 && self.seat(
            self.turn,
        )
        &&& self.state == GameState::InProgress ==> self.ready()
    }

    /// Why a target would be refused, if it would be.
    pub open spec fn target_error(self, actor: usize, target: Option<usize>, card: Card) -> Option<
        GameError,
    > {
        if card.spec_has_target() && self.has_legal_target(actor as int, card == Card::Prince)
            && target is None {
            Some(GameError::MustProvideTarget(card))
        } else if card != Card::Prince && target == Some(actor) {
            Some(GameError::CannotTargetSelf(card))
        } else if target matches Some(t) && t >= self.players.len() {
            Some(GameError::PlayerDoesNotExist(target->0))
        } else if target matches Some(t) && self.players[t as int].protected {
            Some(GameError::CannotTargetProtectedPlayer)
        } else if target matches Some(t) && !self.players[t as int].active {
            Some(GameError::CannotTargetEliminatedPlayer)
        } else {
            None
        }
    }

    /// Why a play would be refused, if it would be.
    pub open spec fn play_error(self, actor: usize, details: PlayCardDetails) -> Option<GameError> {
        let card = details.spec_card();
        if self.state != GameState::InProgress {
            Some(GameError::GameNotInProgress)
        } else if actor >= self.players.len() {
            Some(GameError::PlayerDoesNotExist(actor))
        } else if actor != self.turn {
            Some(GameError::PlayedOutOfTurn(actor))
        } else if self.target_error(actor, details.spec_target(), card) is Some {
            self.target_error(actor, details.spec_target(), card)
        } else if (card == Card::Prince || card == Card::King) && self.players[actor as int].hand.contains(
            Card::Countess,
        ) {
            Some(GameError::CannotPlayWhileHoldingCountess(card))
        } else if !self.players[actor as int].hand.contains(card) {
            Some(GameError::PlayerDoesNotHaveCard(actor, card))
        } else {
            None
        }
    }
}

/// An engine capable of playing a whole game of Love Letter.
#[derive(Clone, Debug)]
pub struct Game {
    /// The deck for this game.
    deck: Deck,
    /// The burned card for this game.
    burned_card: Option<Card>,
    /// The cards publicly removed at the start of a two-player game.
    removed: Vec<Card>,
    /// The players in the game.
    players: Vec<Player>,
    /// The player whose turn it is to play.
    turn_counter: usize,
    /// The high-level state of the game.
    state: GameState,
}

impl View for Game {
    type V = GameView;

    closed spec fn view(&self) -> GameView {
        GameView {
            deck: self.deck@,
            burned: self.burned_card,
            removed: self.removed@,
            players: self.players@.map_values(|p: Player| p@),
            turn: self.turn_counter as int,
            state: self.state,
        }
    }
}

/// The card the next deal hands out: the top of the deck, or the burned card once the deck is
/// empty.
pub open spec fn next_card(g: GameView) -> Card {
    if g.deck.len() > 0 {
        g.deck.last()
    } else {
        g.burned->0
    }
}

/// The state after dealing the next card to seat `i`.
pub open spec fn dealt(g: GameView, i: int) -> GameView {
    GameView {
        deck: if g.deck.len() > 0 {
            g.deck.drop_last()
        } else {
            g.deck
        },
        burned: if g.deck.len() > 0 {
            g.burned
        } else {
            None
        },
        players: g.players.update(
            i,
            PlayerView { hand: g.players[i].hand.push(next_card(g)), ..g.players[i] },
        ),
        ..g
    }
}

/// Replacing one player changes the cards of all players by exactly the cards that changed.
proof fn lemma_seat_cards_update(ps: Seq<PlayerView>, i: int, p: PlayerView)
    requires
        0 <= i < ps.len(),
    ensures
        seat_cards(ps.update(i, p)).add(ps[i].cards()) =~= seat_cards(ps).add(p.cards()),
    decreases ps.len(),
{
    let qs = ps.update(i, p);
    if i == ps.len() - 1 {
        assert(qs.drop_last() =~= ps.drop_last());
        assert(seat_cards(qs) == seat_cards(ps.drop_last()).add(p.cards()));
        assert(seat_cards(ps) == seat_cards(ps.drop_last()).add(ps[i].cards()));
    } else {
        lemma_seat_cards_update(ps.drop_last(), i, p);
        assert(qs.drop_last() =~= ps.drop_last().update(i, p));
        assert(seat_cards(qs) == seat_cards(qs.drop_last()).add(ps.last().cards()));
        assert(seat_cards(ps) == seat_cards(ps.drop_last()).add(ps.last().cards()));
        assert forall|c: Card|
            seat_cards(qs).add(ps[i].cards()).count(c) == seat_cards(ps).add(p.cards()).count(c) by {
            assert(seat_cards(qs.drop_last()).add(ps[i].cards()).count(c) == seat_cards(
                ps.drop_last(),
            ).add(p.cards()).count(c));
        }
    }
}

/// Replacing one player by one who owns the same cards leaves the cards of all players alone.
proof fn lemma_seat_cards_same(ps: Seq<PlayerView>, i: int, p: PlayerView)
    requires
        0 <= i < ps.len(),
        p.cards() =~= ps[i].cards(),
    ensures
        seat_cards(ps.update(i, p)) =~= seat_cards(ps),
{
    lemma_seat_cards_update(ps, i, p);
    let a = seat_cards(ps.update(i, p));
    let b = seat_cards(ps);
    assert forall|c: Card| a.count(c) == b.count(c) by {
        assert(a.add(ps[i].cards()).count(c) == b.add(p.cards()).count(c));
    }
}

/// Giving a player one more card adds that card to the cards of all players.
proof fn lemma_seat_cards_gain(ps: Seq<PlayerView>, i: int, p: PlayerView, c: Card)
    requires
        0 <= i < ps.len(),
        p.cards() =~= ps[i].cards().insert(c),
    ensures
        seat_cards(ps.update(i, p)) =~= seat_cards(ps).insert(c),
{
    lemma_seat_cards_update(ps, i, p);
    let a = seat_cards(ps.update(i, p));
    let b = seat_cards(ps);
    assert forall|x: Card| a.count(x) == b.insert(c).count(x) by {
        assert(a.add(ps[i].cards()).count(x) == b.add(p.cards()).count(x));
    }
}

/// How many cards a game of `n` players removes face up at the start.
pub open spec fn removed_count(n: int) -> int {
    if n == 2 {
        3
    } else {
        0
    }
}

/// The position in a full deck of the card dealt first, to seat 0.
pub open spec fn first_deal(n: int) -> int {
    14 - removed_count(n)
}

/// A player at the start of a game, holding the given hand.
pub open spec fn fresh_player(hand: Seq<Card>) -> PlayerView {
    PlayerView { hand, discards: Seq::empty(), protected: false, active: true }
}

/// The state right after a game of `n` players starts from the deck `d`, drawn from its end:
/// one card burned, three removed in a two-player game, one card to each seat in order, and a
/// second card to seat 0, whose turn it is.
pub open spec fn started(d: Seq<Card>, n: int) -> GameView {
    let top = first_deal(n);
    GameView {
        deck: d.subrange(0, top - n),
        burned: Some(d[15]),
        removed: if n == 2 {
            seq![d[14], d[13], d[12]]
        } else {
            Seq::empty()
        },
        players: Seq::new(
            n as nat,
            |i: int|
                if i == 0 {
                    fresh_player(seq![d[top], d[top - n]])
                } else {
                    fresh_player(seq![d[top - i]])
                },
        ),
        turn: 0,
        state: GameState::InProgress,
    }
}

/// The events of a game of `n` players starting from the deck `d`, in order.
pub open spec fn start_events(d: Seq<Card>, n: int) -> Seq<Event> {
    let top = first_deal(n);
    seq![Event::NewGame { players: n as usize }] + Seq::new(
        n as nat,
        |i: int| Event::RegisterPlayer { player_idx: i as usize },
    ) + seq![Event::BurnCard {  }] + (if n == 2 {
        seq![
            Event::RemoveCardFromGame { card: d[14] },
            Event::RemoveCardFromGame { card: d[13] },
            Event::RemoveCardFromGame { card: d[12] },
        ]
    } else {
        Seq::empty()
    }) + Seq::new(n as nat, |i: int| Event::DealCard { player_idx: i as usize, card: d[top - i] })
        + seq![
        Event::DealCard { player_idx: 0, card: d[top - n] },
        Event::ReadyToPlay { player_idx: 0 },
    ]
}

/// Adding a player who owns no card leaves the cards of all players alone.
proof fn lemma_seat_cards_push_empty(ps: Seq<PlayerView>, p: PlayerView)
    requires
        p.hand.len() == 0,
        p.discards.len() == 0,
    ensures
        seat_cards(ps.push(p)) =~= seat_cards(ps),
{
    assert(ps.push(p).drop_last() =~= ps);
    assert(p.hand =~= Seq::empty());
    assert(p.discards =~= Seq::empty());
    assert(p.cards() =~= Multiset::empty());
}

/// The seat `j` places after seat `from`, going round a table of `n` seats.
pub open spec fn seat_after(from: int, j: int, n: int) -> int {
    if from + j < n {
        from + j
    } else {
        from + j - n
    }
}

/// A result that carries nothing on success.
pub open spec fn check(e: Option<GameError>) -> Result<(), GameError> {
    match e {
        Some(e) => Err(e),
        None => Ok(()),
    }
}

/// Whether the key (card rank, sum of discarded ranks) of `a` is at least that of `b`, the
/// first part deciding and the second breaking ties.
pub open spec fn key_at_least(ra: nat, sa: nat, rb: nat, sb: nat) -> bool {
    ra > rb || (ra == rb && sa >= sb)
}

/// Whether player `a`, holding one card, scores at least as well as player `b` once the deck
/// runs out.
pub open spec fn scores_at_least(a: PlayerView, b: PlayerView) -> bool {
    key_at_least(
        a.hand[0].spec_rank(),
        rank_sum(a.discards),
        b.hand[0].spec_rank(),
        rank_sum(b.discards),
    )
}

/// The card left in a two-card hand once the first copy of `played` leaves it.
pub open spec fn other_card(hand: Seq<Card>, played: Card) -> Card {
    if hand[0] == played {
        hand[1]
    } else {
        hand[0]
    }
}

impl GameView {
    /// Whether seat `i` wins when the deck runs out: it is active and no active player scores
    /// better.
    pub open spec fn is_winner(self, i: int) -> bool {
        self.is_active(i) && forall|j: int| #[trigger]
            self.is_active(j) ==> scores_at_least(self.players[i], self.players[j])
    }

    /// The state in the middle of a play, once the card has left the hand of the player whose
    /// turn it is: every active player holds one card, the burned card is still set aside, and
    /// at least one other player is in.
    pub open spec fn mid_play(self) -> bool {
        &&& self.state == GameState::InProgress
        &&& 2 <= self.players.len() <= 4
        &&& self.is_active(self.turn)
        &&& forall|i: int| #[trigger] self.is_active(i) ==> self.players[i].hand.len() == 1
        &&& self.burned is Some
        &&& exists|i: int| #[trigger] self.is_active(i) && i != self.turn
    }

    /// The state once a card's effect is resolved, compared with the state `g0` before it:
    /// the same seats and cards, every active player holding one card, the burned card still
    /// there while the deck lasts, and someone still in.
    pub open spec fn settled(self, g0: GameView) -> bool {
        &&& self.players.len() == g0.players.len()
        &&& self.removed == g0.removed
        &&& self.state == g0.state
        &&& self.turn == g0.turn
        &&& self.all_cards() == g0.all_cards()
        &&& forall|i: int| #[trigger] self.is_active(i) ==> self.players[i].hand.len() == 1
        &&& self.deck.len() > 0 ==> self.burned is Some
        &&& exists|i: int| #[trigger] self.is_active(i)
    }
}

/// Moving a player's only card from hand to discards keeps the cards they own.
proof fn lemma_take_keeps_cards(p: PlayerView)
    requires
        p.hand.len() == 1,
    ensures
        (PlayerView { hand: Seq::empty(), discards: p.discards.push(p.hand[0]), ..p }).cards()
            =~= p.cards(),
{
    assert(p.hand =~= Seq::<Card>::empty().push(p.hand[0]));
    assert(Seq::<Card>::empty().to_multiset() =~= Multiset::empty());
}

/// A well-formed game keeps few enough discards that each player's sum of ranks is small.
proof fn lemma_discards_bounded(g: GameView, i: int)
    requires
        g.conserved(),
        g.seat(i),
    ensures
        rank_sum(g.players[i].discards) <= 128,
{
    lemma_seat_cards_len(g.players, i);
    assert(full_deck().len() == 16);
    assert(full_deck().to_multiset().len() == 16);
    assert(g.all_cards().len() == 16);
    assert(seat_cards(g.players).len() <= 16);
    assert(g.players[i].cards().len() == g.players[i].hand.len() + g.players[i].discards.len());
    assert(g.players[i].discards.len() <= 16);
    crate::player::lemma_rank_sum_bound(g.players[i].discards);
}

/// One player's cards are among the cards of all players.
proof fn lemma_seat_cards_len(ps: Seq<PlayerView>, i: int)
    requires
        0 <= i < ps.len(),
    ensures
        ps[i].cards().len() <= seat_cards(ps).len(),
    decreases ps.len(),
{
    if i < ps.len() - 1 {
        lemma_seat_cards_len(ps.drop_last(), i);
    }
}

/// A player after being knocked out with one card in hand: out of the round, the card revealed
/// onto the discards.
pub open spec fn knocked_out(p: PlayerView) -> PlayerView {
    PlayerView { hand: Seq::empty(), discards: p.discards.push(p.hand[0]), active: false, ..p }
}

/// A player whose single card is replaced by `c`.
pub open spec fn holding(p: PlayerView, c: Card) -> PlayerView {
    PlayerView { hand: seq![c], ..p }
}

/// Swapping single cards between two players keeps the cards of all players.
proof fn lemma_seat_cards_swap(ps: Seq<PlayerView>, i: int, j: int)
    requires
        0 <= i < ps.len(),
        0 <= j < ps.len(),
        i != j,
        ps[i].hand.len() == 1,
        ps[j].hand.len() == 1,
    ensures
        seat_cards(
            ps.update(i, holding(ps[i], ps[j].hand[0])).update(j, holding(ps[j], ps[i].hand[0])),
        ) =~= seat_cards(ps),
{
    let a = ps[i].hand[0];
    let b = ps[j].hand[0];
    let p = holding(ps[i], b);
    let q = holding(ps[j], a);
    let ps1 = ps.update(i, p);
    let ps2 = ps1.update(j, q);
    lemma_seat_cards_update(ps, i, p);
    lemma_seat_cards_update(ps1, j, q);
    assert(ps[i].hand =~= seq![a]);
    assert(ps[j].hand =~= seq![b]);
    assert(seq![a] =~= Seq::<Card>::empty().push(a));
    assert(seq![b] =~= Seq::<Card>::empty().push(b));
    assert(Seq::<Card>::empty().to_multiset() =~= Multiset::empty());
    assert forall|x: Card| seat_cards(ps2).count(x) == seat_cards(ps).count(x) by {
        assert(seat_cards(ps1).add(ps[i].cards()).count(x) == seat_cards(ps).add(p.cards()).count(
            x,
        ));
        assert(seat_cards(ps2).add(ps1[j].cards()).count(x) == seat_cards(ps1).add(
            q.cards(),
        ).count(x));
    }
}

/// Whether `w` lists, in increasing order, exactly the seats that win the state `g`.
pub open spec fn announces_winners(g: GameView, w: Seq<usize>) -> bool {
    &&& forall|k: int| 0 <= k < w.len() ==> g.is_winner(#[trigger] w[k] as int)
    &&& forall|i: int| g.is_winner(i) ==> exists|k: int| 0 <= k < w.len() && #[trigger] w[k] == i
    &&& forall|a: int, b: int| 0 <= a < b < w.len() ==> w[a] < w[b]
}

/// Whether the turn passed from seat `from` to the seat `to`, the first active seat after it
/// going round the table.
pub open spec fn turn_passed(g: GameView, from: int, to: int) -> bool {
    exists|k: int|
        1 <= k <= g.players.len() && to == seat_after(from, k, g.players.len() as int) && forall|
            j: int,
        | 1 <= j < k ==> !#[trigger] g.is_active(seat_after(from, j, g.players.len() as int))
}

/// Who wins depends on the players alone.
proof fn lemma_winners_by_players(g: GameView, h: GameView)
    requires
        g.players == h.players,
    ensures
        forall|i: int| g.is_winner(i) <==> h.is_winner(i),
{
    assert forall|i: int| g.is_winner(i) implies h.is_winner(i) by {
        assert forall|j: int| #[trigger] h.is_active(j) implies scores_at_least(
            h.players[i],
            h.players[j],
        ) by {
            assert(g.is_active(j));
        }
    }
    assert forall|i: int| h.is_winner(i) implies g.is_winner(i) by {
        assert forall|j: int| #[trigger] g.is_active(j) implies scores_at_least(
            g.players[i],
            g.players[j],
        ) by {
            assert(h.is_active(j));
        }
    }
}

/// The state once `player_idx` has put `card` down from a two-card hand.
pub open spec fn after_hand(g: GameView, player_idx: usize, card: Card) -> GameView {
    let i = player_idx as int;
    GameView {
        players: g.players.update(
            i,
            PlayerView {
                hand: seq![other_card(g.players[i].hand, card)],
                discards: g.players[i].discards.push(card),
                ..g.players[i]
            },
        ),
        ..g
    }
}

/// The state and events that the effect of a card played by `player_idx` brings about.
pub open spec fn effect_step(g: GameView, player_idx: usize, details: PlayCardDetails) -> (
    GameView,
    Seq<Event>,
) {
    let i = player_idx as int;
    match details {
        PlayCardDetails::PlayGuard { target_idx: Some(t), guess } => {
            if g.players[t as int].hand[0] == guess {
                (
                    GameView {
                        players: g.players.update(t as int, knocked_out(g.players[t as int])),
                        ..g
                    },
                    seq![
                        Event::Guess { target_idx: t, guess },
                        Event::EliminatePlayer { player_idx: t },
                        Event::RevealCard { player_idx: t, card: guess },
                    ],
                )
            } else {
                (g, seq![Event::Guess { target_idx: t, guess }])
            }
        },
        PlayCardDetails::PlayPriest { target_idx: Some(t) } => (
            g,
            seq![Event::ShowCard { player_idx, target_idx: t, card: g.players[t as int].hand[0] }],
        ),
        PlayCardDetails::PlayBaron { target_idx: Some(t) } => {
            let pc = g.players[i].hand[0];
            let tc = g.players[t as int].hand[0];
            let cmp = Event::CompareHands {
                player_idx,
                player_card: pc,
                target_idx: t,
                target_card: tc,
            };
            if pc.spec_rank() < tc.spec_rank() {
                (
                    GameView { players: g.players.update(i, knocked_out(g.players[i])), ..g },
                    seq![
                        cmp,
                        Event::EliminatePlayer { player_idx },
                        Event::RevealCard { player_idx, card: pc },
                    ],
                )
            } else if tc.spec_rank() < pc.spec_rank() {
                (
                    GameView {
                        players: g.players.update(t as int, knocked_out(g.players[t as int])),
                        ..g
                    },
                    seq![
                        cmp,
                        Event::EliminatePlayer { player_idx: t },
                        Event::RevealCard { player_idx: t, card: tc },
                    ],
                )
            } else {
                (g, seq![cmp])
            }
        },
        PlayCardDetails::PlayHandmaid {  } => (
            GameView {
                players: g.players.update(i, PlayerView { protected: true, ..g.players[i] }),
                ..g
            },
            Seq::empty(),
        ),
        PlayCardDetails::PlayPrince { target_idx: t } => {
            let c = g.players[t as int].hand[0];
            let g1 = GameView {
                players: g.players.update(
                    t as int,
                    PlayerView {
                        hand: Seq::empty(),
                        discards: g.players[t as int].discards.push(c),
                        ..g.players[t as int]
                    },
                ),
                ..g
            };
            if c == Card::Princess {
                (
                    GameView {
                        players: g.players.update(t as int, knocked_out(g.players[t as int])),
                        ..g
                    },
                    seq![
                        Event::DiscardCard { target_idx: t, card: c },
                        Event::EliminatePlayer { player_idx: t },
                    ],
                )
            } else {
                (
                    dealt(g1, t as int),
                    seq![
                        Event::DiscardCard { target_idx: t, card: c },
                        Event::DealCard { player_idx: t, card: next_card(g) },
                    ],
                )
            }
        },
        PlayCardDetails::PlayKing { target_idx: Some(t) } => {
            let pc = g.players[i].hand[0];
            let tc = g.players[t as int].hand[0];
            (
                GameView {
                    players: g.players.update(i, holding(g.players[i], tc)).update(
                        t as int,
                        holding(g.players[t as int], pc),
                    ),
                    ..g
                },
                seq![
                    Event::SwapHands {
                        player_idx,
                        player_card: pc,
                        target_idx: t,
                        target_card: tc,
                    },
                ],
            )
        },
        PlayCardDetails::PlayPrincess {  } => (
            GameView {
                players: g.players.update(i, PlayerView { active: false, ..g.players[i] }),
                ..g
            },
            seq![Event::EliminatePlayer { player_idx }],
        ),
        _ => (g, Seq::empty()),
    }
}

/// The state and events at the end of a turn, and the winners when the game ends: the sole
/// active player, or the best scores once the deck is empty; otherwise the next active player
/// is dealt a card and starts their turn.
pub open spec fn finish_step(g: GameView) -> (GameView, Seq<Event>, Option<Seq<usize>>) {
    let n = g.players.len() as int;
    let act = active_seats(g, n);
    if act.len() == 1 {
        (GameView { state: GameState::Complete, ..g }, Seq::empty(), Some(act))
    } else if g.deck.len() == 0 {
        (GameView { state: GameState::Complete, ..g }, Seq::empty(), Some(winner_seats(g, n)))
    } else {
        let p = next_active(g);
        let g3 = dealt(g, p);
        (
            GameView {
                turn: p,
                players: g3.players.update(p, PlayerView { protected: false, ..g3.players[p] }),
                ..g3
            },
            seq![
                Event::DealCard { player_idx: p as usize, card: next_card(g) },
                Event::ReadyToPlay { player_idx: p as usize },
            ],
            None,
        )
    }
}

/// Whether the events `ev` are `pre`, followed, when `w` names winners, by the announcement of
/// exactly those winners.
pub open spec fn log_matches(ev: Seq<Event>, pre: Seq<Event>, w: Option<Seq<usize>>) -> bool {
    match w {
        None => ev == pre,
        Some(w) => ev.len() == pre.len() + 1 && ev.subrange(0, pre.len() as int) == pre && (
        ev.last() matches Event::GameOver { winner_indices } && winner_indices@ == w),
    }
}

/// What a play of `details` by `player_idx` does, from the state `g` to the state `h` with the
/// result `r`: a play that breaks a rule is refused with the first rule broken and changes
/// nothing; any other play succeeds, its events start with the card played, the turn passes to
/// the next active seat or the game ends with its winners announced, a Guard knocks out its
/// target exactly when the guess names the target's card, and a Baron knocks out the player
/// with the lower card, and nobody on a tie.
pub open spec fn play_outcome(
    g: GameView,
    h: GameView,
    player_idx: usize,
    details: PlayCardDetails,
    r: Result<Vec<Event>, GameError>,
) -> bool {
    &&& g.play_error(player_idx, details) matches Some(e) ==> r == Err::<Vec<Event>, GameError>(e)
        && h == g
    &&& g.play_error(player_idx, details) is None ==> r is Ok
    &&& r matches Ok(ev) ==> {
        let e = effect_step(after_hand(g, player_idx, details.spec_card()), player_idx, details);
        let f = finish_step(e.0);
        &&& h == f.0
        &&& log_matches(
            ev@,
            seq![Event::PlayCard { player_idx, card: details.spec_card() }] + e.1 + f.1,
            f.2,
        )
    }
    &&& r matches Ok(ev) ==> {
        &&& ev@.len() >= 2
        &&& ev@[0] == (Event::PlayCard { player_idx, card: details.spec_card() })
        &&& h.state != GameState::NotStarted
        &&& h.state == GameState::Complete ==> (ev@.last() matches Event::GameOver {
            winner_indices,
        } && announces_winners(h, winner_indices@))
        &&& h.state == GameState::InProgress ==> turn_passed(h, g.turn, h.turn)
        &&& details matches PlayCardDetails::PlayGuard { target_idx: Some(t), guess } ==> (
        h.players[t as int].active <==> g.players[t as int].hand[0] != guess)
        &&& details matches PlayCardDetails::PlayBaron { target_idx: Some(t) } ==> {
            let pc = other_card(g.players[player_idx as int].hand, Card::Baron);
            let tc = g.players[t as int].hand[0];
            &&& h.players[player_idx as int].active == !(pc.spec_rank() < tc.spec_rank())
            &&& h.players[t as int].active == !(tc.spec_rank() < pc.spec_rank())
        }
    }
}

/// What starting a game of `players` players from the deck `d` does, from the state `g` to the
/// state `h` with the result `r`: a count outside two to four is refused and changes nothing;
/// otherwise the game starts from `d`, whatever came before.
pub open spec fn start_with_deck_outcome(
    g: GameView,
    h: GameView,
    players: usize,
    d: Seq<Card>,
    r: Result<Vec<Event>, GameError>,
) -> bool {
    &&& players < 2 || players > 4 ==> r == Err::<Vec<Event>, GameError>(
        GameError::InvalidNumberOfPlayers(players),
    ) && h == g
    &&& 2 <= players <= 4 ==> r is Ok && r->Ok_0@ == start_events(d, players as int) && h
        == started(d, players as int)
}

/// What starting a game of `players` players does, from the state `g` to the state `h` with
/// the result `r`: a count outside two to four is refused and changes nothing; otherwise the
/// game starts from some ordering of a full deck.
pub open spec fn start_outcome(
    g: GameView,
    h: GameView,
    players: usize,
    r: Result<Vec<Event>, GameError>,
) -> bool {
    &&& players < 2 || players > 4 ==> r == Err::<Vec<Event>, GameError>(
        GameError::InvalidNumberOfPlayers(players),
    ) && h == g
    &&& 2 <= players <= 4 ==> r is Ok && exists|d: Seq<Card>|
        d.to_multiset() == full_deck().to_multiset() && h == started(d, players as int)
            && r->Ok_0@ == start_events(d, players as int)
}

/// The active seats below `k`, in increasing order.
pub open spec fn active_seats(g: GameView, k: int) -> Seq<usize>
    decreases k,
{
    if k <= 0 {
        Seq::empty()
    } else if g.is_active(k - 1) {
        active_seats(g, k - 1).push((k - 1) as usize)
    } else {
        active_seats(g, k - 1)
    }
}

/// The winning seats below `k`, in increasing order.
pub open spec fn winner_seats(g: GameView, k: int) -> Seq<usize>
    decreases k,
{
    if k <= 0 {
        Seq::empty()
    } else if g.is_winner(k - 1) {
        winner_seats(g, k - 1).push((k - 1) as usize)
    } else {
        winner_seats(g, k - 1)
    }
}

/// The seat the turn passes to from the seat whose turn it is.
pub open spec fn next_active(g: GameView) -> int {
    choose|p: int| g.is_active(p) && turn_passed(g, g.turn, p)
}

/// The turn passes to one seat only.
proof fn lemma_turn_passes_to_one_seat(g: GameView, a: int, b: int)
    requires
        g.is_active(a),
        turn_passed(g, g.turn, a),
        g.is_active(b),
        turn_passed(g, g.turn, b),
    ensures
        a == b,
{
    let n = g.players.len() as int;
    let ka = choose|k: int|
        1 <= k <= n && a == seat_after(g.turn, k, n) && forall|j: int|
            1 <= j < k ==> !#[trigger] g.is_active(seat_after(g.turn, j, n));
    let kb = choose|k: int|
        1 <= k <= n && b == seat_after(g.turn, k, n) && forall|j: int|
            1 <= j < k ==> !#[trigger] g.is_active(seat_after(g.turn, j, n));
    if ka < kb {
        assert(!g.is_active(seat_after(g.turn, ka, n)));
    } else if kb < ka {
        assert(!g.is_active(seat_after(g.turn, kb, n)));
    }
}

/// Events put in front of a matching log still match, with the same events in front.
proof fn lemma_log_prefix(pre0: Seq<Event>, ev: Seq<Event>, pre: Seq<Event>, w: Option<Seq<usize>>)
    requires
        log_matches(ev, pre, w),
    ensures
        log_matches(pre0 + ev, pre0 + pre, w),
{
    if w is Some {
        assert((pre0 + ev).subrange(0, (pre0 + pre).len() as int) =~= pre0 + pre);
        assert((pre0 + ev).last() == ev.last());
    }
}

impl Game {
    /// Create a new game which has not yet started.
    pub fn new() -> (r: Game)
        ensures
            r@.wf(),
            r@ == (GameView {
                deck: full_deck(),
                burned: None,
                removed: Seq::empty(),
                players: Seq::empty(),
                turn: 0,
                state: GameState::NotStarted,
            }),
    {
        let r = Game {
            deck: Deck::new(),
            burned_card: None,
            removed: Vec::new(),
            players: Vec::new(),
            turn_counter: 0,
            state: GameState::NotStarted,
        };
        proof {
            assert(r@.players =~= Seq::empty());
            assert(r@.all_cards() =~= full_deck().to_multiset());
        }
        r
    }

    /// Draw a card, deal it to a player, and return an `Event` summarising as much. The deck is
    /// used while it lasts, then the burned card.
    fn draw_and_give_card_to_player(&mut self, player_idx: usize) -> (e: Event)
        requires
            player_idx < old(self)@.players.len(),
            old(self)@.deck.len() > 0 || old(self)@.burned is Some,
        ensures
            final(self)@ == dealt(old(self)@, player_idx as int),
            final(self)@.all_cards() == old(self)@.all_cards(),
            e == (Event::DealCard { player_idx, card: next_card(old(self)@) }),
    {
        let ghost g = self@;
        let card = match self.deck.pop() {
            Some(c) => c,
            None => {
                let c = self.burned_card.unwrap();
                self.burned_card = None;
                c
            },
        };
        self.players[player_idx].give_card(card);
        proof {
            let i = player_idx as int;
            let p = PlayerView { hand: g.players[i].hand.push(card), ..g.players[i] };
            assert(self@.players =~= g.players.update(i, p));
            assert(self@ == dealt(g, i));
            lemma_seat_cards_gain(g.players, i, p, card);
            if g.deck.len() > 0 {
                assert(g.deck =~= g.deck.drop_last().push(card));
            }
            assert(self@.all_cards() =~= g.all_cards());
        }
        Event::DealCard { player_idx, card }
    }

    /// Check that the game is currently in progress.
    fn is_game_in_progress(&self) -> (r: Result<(), GameError>)
        ensures
            r == check(
                if self@.state == GameState::InProgress {
                    None
                } else {
                    Some(GameError::GameNotInProgress)
                },
            ),
    {
        match self.state {
            GameState::NotStarted | GameState::Complete => Err(GameError::GameNotInProgress),
            GameState::InProgress => Ok(()),
        }
    }

    /// Check that it is the given player's turn.
    fn is_it_players_turn(&self, player_idx: usize) -> (r: Result<(), GameError>)
        ensures
            r == check(
                if player_idx == self@.turn {
                    None
                } else {
                    Some(GameError::PlayedOutOfTurn(player_idx))
                },
            ),
    {
        if self.turn_counter == player_idx {
            Ok(())
        } else {
            Err(GameError::PlayedOutOfTurn(player_idx))
        }
    }

    /// Check that the player exists.
    fn does_player_exist(&self, player_idx: usize) -> (r: Result<(), GameError>)
        ensures
            r == check(
                if player_idx < self@.players.len() {
                    None
                } else {
                    Some(GameError::PlayerDoesNotExist(player_idx))
                },
            ),
    {
        if player_idx >= self.players.len() {
            Err(GameError::PlayerDoesNotExist(player_idx))
        } else {
            Ok(())
        }
    }

    /// Check that the player is allowed to play a particular card: the Prince and King cannot
    /// be played while the player also holds the Countess.
    fn is_player_allowed_to_play_card(&self, player_idx: usize, card: Card) -> (r: Result<
        (),
        GameError,
    >)
        requires
            player_idx < self@.players.len(),
        ensures
            r == check(
                if (card == Card::Prince || card == Card::King)
                    && self@.players[player_idx as int].hand.contains(Card::Countess) {
                    Some(GameError::CannotPlayWhileHoldingCountess(card))
                } else {
                    None
                },
            ),
    {
        if card == Card::Prince || card == Card::King {
            if self.players[player_idx].is_holding_card(Card::Countess) {
                return Err(GameError::CannotPlayWhileHoldingCountess(card));
            }
        }
        Ok(())
    }

    /// Check that the target player exists and is allowed to be targeted by the given card.
    fn is_target_valid(&self, player_idx: usize, target_idx: Option<usize>, card: Card) -> (r:
        Result<(), GameError>)
        ensures
            r == check(self@.target_error(player_idx, target_idx, card)),
    {
        if card.has_target() {
            let unprotected_targets = self.unprotected_targets(player_idx, card == Card::Prince);
            if unprotected_targets.len() > 0 && target_idx.is_none() {
                proof {
                    assert(self@.is_legal_target(
                        player_idx as int,
                        unprotected_targets@[0] as int,
                        card == Card::Prince,
                    ));
                }
                return Err(GameError::MustProvideTarget(card));
            }
        }
        if card != Card::Prince && target_idx == Some(player_idx) {
            return Err(GameError::CannotTargetSelf(card));
        }
        if let Some(idx) = target_idx {
            if idx >= self.players.len() {
                return Err(GameError::PlayerDoesNotExist(idx));
            }
            if self.players[idx].protected() {
                return Err(GameError::CannotTargetProtectedPlayer);
            }
            if !self.players[idx].active() {
                return Err(GameError::CannotTargetEliminatedPlayer);
            }
        }
        Ok(())
    }

    /// The seats that a card played by the given player may target, in increasing order.
    fn unprotected_targets(&self, player_idx: usize, include_self: bool) -> (r: Vec<usize>)
        ensures
            forall|k: int|
                0 <= k < r@.len() ==> self@.is_legal_target(
                    player_idx as int,
                    #[trigger] r@[k] as int,
                    include_self,
                ),
            forall|i: int|
                self@.is_legal_target(player_idx as int, i, include_self) ==> exists|k: int|
                    0 <= k < r@.len() && #[trigger] r@[k] == i,
            forall|a: int, b: int| 0 <= a < b < r@.len() ==> r@[a] < r@[b],
    {
        let mut r: Vec<usize> = Vec::new();
        let mut idx: usize = 0;
        while idx < self.players.len()
            invariant
                idx <= self@.players.len(),
                forall|k: int|
                    0 <= k < r@.len() ==> self@.is_legal_target(
                        player_idx as int,
                        #[trigger] r@[k] as int,
                        include_self,
                    ) && r@[k] < idx,
                forall|i: int|
                    i < idx && self@.is_legal_target(player_idx as int, i, include_self)
                        ==> exists|k: int| 0 <= k < r@.len() && #[trigger] r@[k] == i,
                forall|a: int, b: int| 0 <= a < b < r@.len() ==> r@[a] < r@[b],
            decreases self@.players.len() - idx,
        {
            proof {
                assert(self@.players[idx as int] == self.players@[idx as int]@);
            }
            let ghost r0 = r@;
            if self.players[idx].active() && !self.players[idx].protected() && (include_self
                || idx != player_idx) {
                r.push(idx);
            }
            proof {
                assert forall|i: int|
                    i < idx + 1 && self@.is_legal_target(
                        player_idx as int,
                        i,
                        include_self,
                    ) implies exists|k: int| 0 <= k < r@.len() && #[trigger] r@[k] == i by {
                    if i < idx {
                        let k = choose|k: int| 0 <= k < r0.len() && #[trigger] r0[k] == i;
                        assert(r@[k] == i);
                    } else {
                        assert(r@[r@.len() - 1] == i);
                    }
                }
            }
            idx = idx + 1;
        }
        r
    }

    /// The seats of the players who are still active in the game, in increasing order.
    fn active_players(&self) -> (r: Vec<usize>)
        ensures
            r@ == active_seats(self@, self@.players.len() as int),
            forall|k: int| 0 <= k < r@.len() ==> self@.is_active(#[trigger] r@[k] as int),
            forall|i: int|
                self@.is_active(i) ==> exists|k: int| 0 <= k < r@.len() && #[trigger] r@[k] == i,
            forall|a: int, b: int| 0 <= a < b < r@.len() ==> r@[a] < r@[b],
    {
        let mut r: Vec<usize> = Vec::new();
        let mut idx: usize = 0;
        while idx < self.players.len()
            invariant
                idx <= self@.players.len(),
                forall|k: int|
                    0 <= k < r@.len() ==> self@.is_active(#[trigger] r@[k] as int) && r@[k] < idx,
                forall|i: int|
                    i < idx && self@.is_active(i) ==> exists|k: int|
                        0 <= k < r@.len() && #[trigger] r@[k] == i,
                r@ == active_seats(self@, idx as int),
                forall|a: int, b: int| 0 <= a < b < r@.len() ==> r@[a] < r@[b],
            decreases self@.players.len() - idx,
        {
            proof {
                assert(self@.players[idx as int] == self.players@[idx as int]@);
            }
            let ghost r0 = r@;
            if self.players[idx].active() {
                r.push(idx);
            }
            proof {
                assert forall|i: int| i < idx + 1 && self@.is_active(i) implies exists|k: int|
                    0 <= k < r@.len() && #[trigger] r@[k] == i by {
                    if i < idx {
                        let k = choose|k: int| 0 <= k < r0.len() && #[trigger] r0[k] == i;
                        assert(r@[k] == i);
                    } else {
                        assert(r@[r@.len() - 1] == i);
                    }
                }
            }
            idx = idx + 1;
        }
        r
    }

    /// The next active player after the one whose turn it is, going round the table.
    fn next_player(&self) -> (r: usize)
        requires
            self@.seat(self@.turn),
            exists|i: int| self@.is_active(i),
        ensures
            r == next_active(self@),
            self@.is_active(r as int),
            exists|k: int|
                1 <= k <= self@.players.len() && r == seat_after(
                    self@.turn,
                    k,
                    self@.players.len() as int,
                ) && forall|j: int|
                    1 <= j < k ==> !#[trigger] self@.is_active(
                        seat_after(self@.turn, j, self@.players.len() as int),
                    ),
    {
        let n = self.players.len();
        let ghost g = self@;
        let ghost t = self@.turn;
        let mut player_idx: usize = if self.turn_counter + 1 < n {
            self.turn_counter + 1
        } else {
            0
        };
        let mut k: usize = 1;
        while !self.players[player_idx].active()
            invariant
                n == g.players.len(),
                g == self@,
                g.seat(t),
                t == g.turn,
                1 <= k <= n,
                player_idx == seat_after(t, k as int, n as int),
                forall|j: int| 1 <= j < k ==> !#[trigger] g.is_active(seat_after(t, j, n as int)),
                exists|i: int| g.is_active(i),
            decreases n - k,
        {
            proof {
                assert(g.players[player_idx as int] == self.players@[player_idx as int]@);
                assert(!g.is_active(seat_after(t, k as int, n as int)));
                if k == n {
                    let i = choose|i: int| g.is_active(i);
                    let ki = if i > t {
                        i - t
                    } else {
                        i + n - t
                    };
                    assert(seat_after(t, ki, n as int) == i);
                    assert(false);
                }
            }
            player_idx = if player_idx + 1 < n {
                player_idx + 1
            } else {
                0
            };
            k = k + 1;
        }
        proof {
            assert(g.players[player_idx as int] == self.players@[player_idx as int]@);
            assert(turn_passed(g, t, player_idx as int));
            assert(g.is_active(player_idx as int) && turn_passed(g, g.turn, player_idx as int));
            let p = next_active(g);
            lemma_turn_passes_to_one_seat(g, p, player_idx as int);
        }
        player_idx
    }

    /// Given that the deck is empty but no player has won outright, determine the winners: the
    /// active players with the best card, ties broken by the total rank of their discards.
    fn calculate_winners(&self) -> (r: Vec<usize>)
        requires
            forall|i: int| #[trigger]
                self@.is_active(i) ==> self@.players[i].hand.len() == 1 && rank_sum(
                    self@.players[i].discards,
                ) <= 128,
            exists|i: int| self@.is_active(i),
        ensures
            r@ == winner_seats(self@, self@.players.len() as int),
            forall|k: int| 0 <= k < r@.len() ==> self@.is_winner(#[trigger] r@[k] as int),
            forall|i: int|
                self@.is_winner(i) ==> exists|k: int| 0 <= k < r@.len() && #[trigger] r@[k] == i,
            forall|a: int, b: int| 0 <= a < b < r@.len() ==> r@[a] < r@[b],
    {
        let ghost g = self@;
        let n = self.players.len();
        let mut found = false;
        let mut best_rank: u8 = 0;
        let mut best_sum: u32 = 0;
        let mut idx: usize = 0;
        while idx < n
            invariant
                g == self@,
                n == g.players.len(),
                idx <= n,
                forall|i: int| #[trigger]
                    g.is_active(i) ==> g.players[i].hand.len() == 1 && rank_sum(
                        g.players[i].discards,
                    ) <= 128,
                found ==> exists|j: int|
                    0 <= j < idx && #[trigger] g.is_active(j) && g.players[j].hand[0].spec_rank()
                        == best_rank && rank_sum(g.players[j].discards) == best_sum,
                !found ==> forall|j: int| 0 <= j < idx ==> !#[trigger] g.is_active(j),
                forall|j: int|
                    0 <= j < idx && #[trigger] g.is_active(j) ==> key_at_least(
                        best_rank as nat,
                        best_sum as nat,
                        g.players[j].hand[0].spec_rank(),
                        rank_sum(g.players[j].discards),
                    ),
            decreases n - idx,
        {
            proof {
                assert(g.players[idx as int] == self.players@[idx as int]@);
            }
            if self.players[idx].active() {
                proof {
                    assert(g.is_active(idx as int));
                }
                let c = self.players[idx].card().unwrap().rank();
                let v = self.players[idx].value_of_discards();
                if !found || c > best_rank || (c == best_rank && v > best_sum) {
                    found = true;
                    best_rank = c;
                    best_sum = v;
                }
            }
            idx = idx + 1;
        }
        let mut r: Vec<usize> = Vec::new();
        let mut idx: usize = 0;
        while idx < n
            invariant
                g == self@,
                n == g.players.len(),
                idx <= n,
                forall|i: int| #[trigger]
                    g.is_active(i) ==> g.players[i].hand.len() == 1 && rank_sum(
                        g.players[i].discards,
                    ) <= 128,
                exists|j: int|
                    #[trigger] g.is_active(j) && g.players[j].hand[0].spec_rank() == best_rank
                        && rank_sum(g.players[j].discards) == best_sum,
                forall|j: int| #[trigger]
                    g.is_active(j) ==> key_at_least(
                        best_rank as nat,
                        best_sum as nat,
                        g.players[j].hand[0].spec_rank(),
                        rank_sum(g.players[j].discards),
                    ),
                r@ == winner_seats(g, idx as int),
                forall|k: int|
                    0 <= k < r@.len() ==> g.is_winner(#[trigger] r@[k] as int) && r@[k] < idx,
                forall|i: int|
                    i < idx && g.is_winner(i) ==> exists|k: int|
                        0 <= k < r@.len() && #[trigger] r@[k] == i,
                forall|a: int, b: int| 0 <= a < b < r@.len() ==> r@[a] < r@[b],
            decreases n - idx,
        {
            proof {
                assert(g.players[idx as int] == self.players@[idx as int]@);
            }
            let ghost r0 = r@;
            if self.players[idx].active() {
                proof {
                    assert(g.is_active(idx as int));
                }
                let c = self.players[idx].card().unwrap().rank();
                let v = self.players[idx].value_of_discards();
                if c == best_rank && v == best_sum {
                    r.push(idx);
                }
            }
            proof {
                let w = choose|j: int|
                    #[trigger] g.is_active(j) && g.players[j].hand[0].spec_rank() == best_rank
                        && rank_sum(g.players[j].discards) == best_sum;
                assert forall|i: int| #[trigger]
                    g.is_winner(i) implies g.players[i].hand[0].spec_rank() == best_rank
                    && rank_sum(g.players[i].discards) == best_sum by {
                    assert(g.is_active(w));
                    assert(g.is_active(i));
                }
                assert forall|i: int|
                    i < idx + 1 && g.is_winner(i) implies exists|k: int|
                    0 <= k < r@.len() && #[trigger] r@[k] == i by {
                    if i < idx {
                        let k = choose|k: int| 0 <= k < r0.len() && #[trigger] r0[k] == i;
                        assert(r@[k] == i);
                    } else {
                        assert(r@[r@.len() - 1] == i);
                    }
                }
            }
            idx = idx + 1;
        }
        r
    }

    /// Eliminate the given player from the game and return an `Event` to represent this.
    fn eliminate_player(&mut self, player_idx: usize) -> (e: Event)
        requires
            player_idx < old(self)@.players.len(),
        ensures
            final(self)@ == (GameView {
                players: old(self)@.players.update(
                    player_idx as int,
                    PlayerView { active: false, ..old(self)@.players[player_idx as int] },
                ),
                ..old(self)@
            }),
            final(self)@.all_cards() == old(self)@.all_cards(),
            e == (Event::EliminatePlayer { player_idx }),
    {
        let ghost g = self@;
        self.players[player_idx].eliminate();
        proof {
            let i = player_idx as int;
            let p = PlayerView { active: false, ..g.players[i] };
            assert(self@.players =~= g.players.update(i, p));
            lemma_seat_cards_same(g.players, i, p);
        }
        Event::EliminatePlayer { player_idx }
    }

    /// Move the single card of a player's hand to their discards, returning it.
    fn take_player_card(&mut self, player_idx: usize) -> (c: Card)
        requires
            player_idx < old(self)@.players.len(),
            old(self)@.players[player_idx as int].hand.len() == 1,
        ensures
            c == old(self)@.players[player_idx as int].hand[0],
            final(self)@ == (GameView {
                players: old(self)@.players.update(
                    player_idx as int,
                    PlayerView {
                        hand: Seq::empty(),
                        discards: old(self)@.players[player_idx as int].discards.push(c),
                        ..old(self)@.players[player_idx as int]
                    },
                ),
                ..old(self)@
            }),
            final(self)@.all_cards() == old(self)@.all_cards(),
    {
        let ghost g = self@;
        let c = self.players[player_idx].take_card().unwrap();
        proof {
            let i = player_idx as int;
            let p = PlayerView {
                hand: Seq::empty(),
                discards: g.players[i].discards.push(c),
                ..g.players[i]
            };
            assert(self@.players =~= g.players.update(i, p));
            lemma_take_keeps_cards(g.players[i]);
            lemma_seat_cards_same(g.players, i, p);
        }
        c
    }

    /// Reveal the final card from an eliminated player's hand.
    fn reveal_eliminated_player_card(&mut self, player_idx: usize) -> (e: Event)
        requires
            player_idx < old(self)@.players.len(),
            old(self)@.players[player_idx as int].hand.len() == 1,
        ensures
            final(self)@ == (GameView {
                players: old(self)@.players.update(
                    player_idx as int,
                    PlayerView {
                        hand: Seq::empty(),
                        discards: old(self)@.players[player_idx as int].discards.push(
                            old(self)@.players[player_idx as int].hand[0],
                        ),
                        ..old(self)@.players[player_idx as int]
                    },
                ),
                ..old(self)@
            }),
            final(self)@.all_cards() == old(self)@.all_cards(),
            e == (Event::RevealCard {
                player_idx,
                card: old(self)@.players[player_idx as int].hand[0],
            }),
    {
        let card = self.take_player_card(player_idx);
        Event::RevealCard { player_idx, card }
    }

    /// Discard the given player's hand.
    fn discard_hand(&mut self, target_idx: usize) -> (e: Event)
        requires
            target_idx < old(self)@.players.len(),
            old(self)@.players[target_idx as int].hand.len() == 1,
        ensures
            final(self)@ == (GameView {
                players: old(self)@.players.update(
                    target_idx as int,
                    PlayerView {
                        hand: Seq::empty(),
                        discards: old(self)@.players[target_idx as int].discards.push(
                            old(self)@.players[target_idx as int].hand[0],
                        ),
                        ..old(self)@.players[target_idx as int]
                    },
                ),
                ..old(self)@
            }),
            final(self)@.all_cards() == old(self)@.all_cards(),
            e == (Event::DiscardCard {
                target_idx,
                card: old(self)@.players[target_idx as int].hand[0],
            }),
    {
        let card = self.take_player_card(target_idx);
        Event::DiscardCard { target_idx, card }
    }

    /// End the game with the given players as the winners.
    fn end_game_with_winners(&mut self, winner_indices: Vec<usize>) -> (e: Event)
        ensures
            final(self)@ == (GameView { state: GameState::Complete, ..old(self)@ }),
            e == (Event::GameOver { winner_indices }),
    {
        self.state = GameState::Complete;
        Event::GameOver { winner_indices }
    }

    /// Resolve a Guard: a guess is made about the target's card, and the target is knocked out
    /// if the guess is right.
    fn play_guard(&mut self, target_idx: usize, guess: Card) -> (r: Vec<Event>)
        requires
            old(self)@.mid_play(),
            old(self)@.is_active(target_idx as int),
            target_idx != old(self)@.turn,
        ensures
            final(self)@.settled(old(self)@),
            old(self)@.players[target_idx as int].hand[0] == guess ==> final(self)@ == (GameView {
                players: old(self)@.players.update(
                    target_idx as int,
                    knocked_out(old(self)@.players[target_idx as int]),
                ),
                ..old(self)@
            }) && r@ == seq![
                Event::Guess { target_idx, guess },
                Event::EliminatePlayer { player_idx: target_idx },
                Event::RevealCard { player_idx: target_idx, card: guess },
            ],
            old(self)@.players[target_idx as int].hand[0] != guess ==> final(self)@ == old(self)@
                && r@ == seq![Event::Guess { target_idx, guess }],
    {
        let ghost g = self@;
        let ghost t = target_idx as int;
        let mut events = vec![Event::Guess { target_idx, guess }];
        proof {
            assert(g.players[t] == self.players@[t]@);
            assert(g.players[t].hand.contains(guess) <==> g.players[t].hand[0] == guess) by {
                if g.players[t].hand[0] == guess {
                    assert(g.players[t].hand[0] == guess);
                }
            }
        }
        if self.players[target_idx].is_holding_card(guess) {
            events.push(self.eliminate_player(target_idx));
            events.push(self.reveal_eliminated_player_card(target_idx));
            proof {
                assert(self@.players =~= g.players.update(t, knocked_out(g.players[t])));
                assert(self@.is_active(g.turn));
                assert forall|i: int| #[trigger]
                    self@.is_active(i) implies self@.players[i].hand.len() == 1 by {
                    assert(g.is_active(i));
                }
            }
        }
        events
    }

    /// Resolve a Priest: the target shows their card to the player.
    fn play_priest(&mut self, player_idx: usize, target_idx: usize) -> (r: Vec<Event>)
        requires
            old(self)@.mid_play(),
            old(self)@.is_active(target_idx as int),
        ensures
            final(self)@ == old(self)@,
            final(self)@.settled(old(self)@),
            r@ == seq![
                Event::ShowCard {
                    player_idx,
                    target_idx,
                    card: old(self)@.players[target_idx as int].hand[0],
                },
            ],
    {
        proof {
            assert(self@.players[target_idx as int] == self.players@[target_idx as int]@);
            assert(self@.is_active(self@.turn));
        }
        let card = self.players[target_idx].card().unwrap();
        vec![Event::ShowCard { player_idx, target_idx, card }]
    }

    /// Resolve a Baron: the player and the target compare cards, and the lower rank is knocked
    /// out; equal ranks knock out neither.
    fn play_baron(&mut self, player_idx: usize, target_idx: usize) -> (r: Vec<Event>)
        requires
            old(self)@.mid_play(),
            player_idx == old(self)@.turn,
            old(self)@.is_active(target_idx as int),
            target_idx != player_idx,
        ensures
            final(self)@.settled(old(self)@),
            ({
                let g = old(self)@;
                let pc = g.players[player_idx as int].hand[0];
                let tc = g.players[target_idx as int].hand[0];
                &&& r@.len() >= 1
                &&& r@[0] == (Event::CompareHands {
                    player_idx,
                    player_card: pc,
                    target_idx,
                    target_card: tc,
                })
                &&& pc.spec_rank() < tc.spec_rank() ==> final(self)@ == (GameView {
                    players: g.players.update(
                        player_idx as int,
                        knocked_out(g.players[player_idx as int]),
                    ),
                    ..g
                }) && r@ == seq![
                    r@[0],
                    Event::EliminatePlayer { player_idx },
                    Event::RevealCard { player_idx, card: pc },
                ]
                &&& tc.spec_rank() < pc.spec_rank() ==> final(self)@ == (GameView {
                    players: g.players.update(
                        target_idx as int,
                        knocked_out(g.players[target_idx as int]),
                    ),
                    ..g
                }) && r@ == seq![
                    r@[0],
                    Event::EliminatePlayer { player_idx: target_idx },
                    Event::RevealCard { player_idx: target_idx, card: tc },
                ]
                &&& pc.spec_rank() == tc.spec_rank() ==> final(self)@ == g && r@ == seq![r@[0]]
            }),
    {
        let ghost g = self@;
        proof {
            assert(g.players[player_idx as int] == self.players@[player_idx as int]@);
            assert(g.players[target_idx as int] == self.players@[target_idx as int]@);
            assert(g.is_active(player_idx as int));
        }
        let player_card = self.players[player_idx].card().unwrap();
        let target_card = self.players[target_idx].card().unwrap();
        let mut events = vec![
            Event::CompareHands { player_idx, player_card, target_idx, target_card },
        ];
        let pr = player_card.rank();
        let tr = target_card.rank();
        if pr < tr {
            events.push(self.eliminate_player(player_idx));
            events.push(self.reveal_eliminated_player_card(player_idx));
            proof {
                let i = player_idx as int;
                assert(self@.players =~= g.players.update(i, knocked_out(g.players[i])));
                assert(self@.is_active(target_idx as int));
                assert forall|k: int| #[trigger]
                    self@.is_active(k) implies self@.players[k].hand.len() == 1 by {
                    assert(g.is_active(k));
                }
            }
        } else if tr < pr {
            events.push(self.eliminate_player(target_idx));
            events.push(self.reveal_eliminated_player_card(target_idx));
            proof {
                let i = target_idx as int;
                assert(self@.players =~= g.players.update(i, knocked_out(g.players[i])));
                assert(self@.is_active(player_idx as int));
                assert forall|k: int| #[trigger]
                    self@.is_active(k) implies self@.players[k].hand.len() == 1 by {
                    assert(g.is_active(k));
                }
            }
        } else {
            proof {
                assert(self@.is_active(player_idx as int));
            }
        }
        events
    }

    /// Resolve a Handmaid: the player is protected until their next turn.
    fn play_handmaid(&mut self, player_idx: usize) -> (r: Vec<Event>)
        requires
            old(self)@.mid_play(),
            player_idx == old(self)@.turn,
        ensures
            final(self)@.settled(old(self)@),
            final(self)@ == (GameView {
                players: old(self)@.players.update(
                    player_idx as int,
                    PlayerView { protected: true, ..old(self)@.players[player_idx as int] },
                ),
                ..old(self)@
            }),
            r@ == Seq::<Event>::empty(),
    {
        let ghost g = self@;
        self.players[player_idx].make_protected();
        proof {
            let i = player_idx as int;
            let p = PlayerView { protected: true, ..g.players[i] };
            assert(self@.players =~= g.players.update(i, p));
            lemma_seat_cards_same(g.players, i, p);
            assert(self@.is_active(i));
            assert forall|k: int| #[trigger]
                self@.is_active(k) implies self@.players[k].hand.len() == 1 by {
                assert(g.is_active(k));
            }
        }
        Vec::new()
    }

    /// Resolve a Prince: the target, who may be the player, discards their card and draws a new
    /// one, unless the discarded card is the Princess, which knocks them out.
    fn play_prince(&mut self, target_idx: usize) -> (r: Vec<Event>)
        requires
            old(self)@.mid_play(),
            old(self)@.is_active(target_idx as int),
        ensures
            final(self)@.settled(old(self)@),
            ({
                let g = old(self)@;
                let t = target_idx as int;
                let c = g.players[t].hand[0];
                let g1 = GameView {
                    players: g.players.update(
                        t,
                        PlayerView {
                            hand: Seq::empty(),
                            discards: g.players[t].discards.push(c),
                            ..g.players[t]
                        },
                    ),
                    ..g
                };
                &&& c == Card::Princess ==> final(self)@ == (GameView {
                    players: g.players.update(t, knocked_out(g.players[t])),
                    ..g
                }) && r@ == seq![
                    Event::DiscardCard { target_idx, card: c },
                    Event::EliminatePlayer { player_idx: target_idx },
                ]
                &&& c != Card::Princess ==> final(self)@ == dealt(g1, t) && r@ == seq![
                    Event::DiscardCard { target_idx, card: c },
                    Event::DealCard { player_idx: target_idx, card: next_card(g) },
                ]
            }),
    {
        let ghost g = self@;
        let ghost t = target_idx as int;
        proof {
            assert(g.players[t] == self.players@[t]@);
        }
        let card = self.players[target_idx].card().unwrap();
        let mut events = vec![self.discard_hand(target_idx)];
        let ghost g1 = self@;
        if card == Card::Princess {
            events.push(self.eliminate_player(target_idx));
            proof {
                assert(self@.players =~= g.players.update(t, knocked_out(g.players[t])));
                let o = choose|i: int| #[trigger] g.is_active(i) && i != g.turn;
                assert(self@.is_active(o) || self@.is_active(g.turn));
                assert forall|k: int| #[trigger]
                    self@.is_active(k) implies self@.players[k].hand.len() == 1 by {
                    assert(g.is_active(k));
                }
            }
        } else {
            events.push(self.draw_and_give_card_to_player(target_idx));
            proof {
                assert(self@.is_active(t));
                assert forall|k: int| #[trigger]
                    self@.is_active(k) implies self@.players[k].hand.len() == 1 by {
                    assert(g.is_active(k));
                }
            }
        }
        events
    }

    /// Resolve a King: the player and the target swap their cards.
    fn play_king(&mut self, player_idx: usize, target_idx: usize) -> (r: Vec<Event>)
        requires
            old(self)@.mid_play(),
            player_idx == old(self)@.turn,
            old(self)@.is_active(target_idx as int),
            target_idx != player_idx,
        ensures
            final(self)@.settled(old(self)@),
            ({
                let g = old(self)@;
                let i = player_idx as int;
                let t = target_idx as int;
                let pc = g.players[i].hand[0];
                let tc = g.players[t].hand[0];
                &&& final(self)@ == (GameView {
                    players: g.players.update(i, holding(g.players[i], tc)).update(
                        t,
                        holding(g.players[t], pc),
                    ),
                    ..g
                })
                &&& r@ == seq![
                    Event::SwapHands {
                        player_idx,
                        player_card: pc,
                        target_idx,
                        target_card: tc,
                    },
                ]
            }),
    {
        let ghost g = self@;
        let ghost i = player_idx as int;
        let ghost t = target_idx as int;
        proof {
            assert(g.players[i] == self.players@[i]@);
            assert(g.players[t] == self.players@[t]@);
            assert(g.is_active(i));
        }
        let target_card = self.players[target_idx].card().unwrap();
        let player_card = self.players[player_idx].exchange_card(target_card).unwrap();
        proof {
            assert(self.players@[t]@ == g.players[t]);
        }
        self.players[target_idx].exchange_card(player_card);
        proof {
            assert(self@.players =~= g.players.update(i, holding(g.players[i], target_card)).update(
                t,
                holding(g.players[t], player_card),
            ));
            lemma_seat_cards_swap(g.players, i, t);
            assert(self@.all_cards() =~= g.all_cards());
            assert(self@.is_active(i));
            assert forall|k: int| #[trigger]
                self@.is_active(k) implies self@.players[k].hand.len() == 1 by {
                assert(g.is_active(k));
            }
        }
        vec![Event::SwapHands { player_idx, player_card, target_idx, target_card }]
    }

    /// Resolve a Princess: the player is knocked out at once, keeping the card in hand.
    fn play_princess(&mut self, player_idx: usize) -> (r: Vec<Event>)
        requires
            old(self)@.mid_play(),
            player_idx == old(self)@.turn,
        ensures
            final(self)@.settled(old(self)@),
            final(self)@ == (GameView {
                players: old(self)@.players.update(
                    player_idx as int,
                    PlayerView { active: false, ..old(self)@.players[player_idx as int] },
                ),
                ..old(self)@
            }),
            r@ == seq![Event::EliminatePlayer { player_idx }],
    {
        let ghost g = self@;
        let e = self.eliminate_player(player_idx);
        proof {
            let o = choose|k: int| #[trigger] g.is_active(k) && k != g.turn;
            assert(self@.is_active(o));
            assert forall|k: int| #[trigger]
                self@.is_active(k) implies self@.players[k].hand.len() == 1 by {
                assert(g.is_active(k));
            }
        }
        vec![e]
    }

    /// Check that the player is holding the card they want to play, and move it from their hand
    /// to their discards if they are.
    fn play_card_from_player_hand(&mut self, player_idx: usize, card: Card) -> (r: Result<
        Event,
        GameError,
    >)
        requires
            player_idx < old(self)@.players.len(),
            old(self)@.players[player_idx as int].hand.len() == 2,
        ensures
            !old(self)@.players[player_idx as int].hand.contains(card) ==> r == Err::<
                Event,
                GameError,
            >(GameError::PlayerDoesNotHaveCard(player_idx, card)) && final(self)@ == old(self)@,
            old(self)@.players[player_idx as int].hand.contains(card) ==> r == Ok::<
                Event,
                GameError,
            >(Event::PlayCard { player_idx, card }) && final(self)@ == (GameView {
                players: old(self)@.players.update(
                    player_idx as int,
                    PlayerView {
                        hand: seq![other_card(old(self)@.players[player_idx as int].hand, card)],
                        discards: old(self)@.players[player_idx as int].discards.push(card),
                        ..old(self)@.players[player_idx as int]
                    },
                ),
                ..old(self)@
            }),
            final(self)@.all_cards() == old(self)@.all_cards(),
    {
        let ghost g = self@;
        let ghost i = player_idx as int;
        proof {
            assert(g.players[i] == self.players@[i]@);
        }
        match self.players[player_idx].play_card(card) {
            Ok(()) => {
                proof {
                    let h = g.players[i].hand;
                    let p = PlayerView {
                        hand: seq![other_card(h, card)],
                        discards: g.players[i].discards.push(card),
                        ..g.players[i]
                    };
                    let k = choose|k: int|
                        0 <= k < h.len() && h[k] == card && (forall|j: int|
                            0 <= j < k ==> h[j] != card) && self.players@[i]@ == (PlayerView {
                            hand: h.remove(k),
                            discards: g.players[i].discards.push(card),
                            ..g.players[i]
                        });
                    assert(h.remove(k) =~= seq![other_card(h, card)]);
                    assert(self@.players =~= g.players.update(i, p));
                    assert(p.cards() =~= g.players[i].cards());
                    lemma_seat_cards_same(g.players, i, p);
                }
                Ok(Event::PlayCard { player_idx, card })
            },
            Err(()) => {
                proof {
                    assert(self@.players =~= g.players);
                }
                Err(GameError::PlayerDoesNotHaveCard(player_idx, card))
            },
        }
    }

    /// Apply the effect of the card just played, whose target has been checked.
    fn resolve_effect(&mut self, player_idx: usize, details: &PlayCardDetails) -> (r: Vec<Event>)
        requires
            old(self)@.mid_play(),
            player_idx == old(self)@.turn,
            details.spec_target() matches Some(t) ==> old(self)@.is_active(t as int) && (
            details.spec_card() != Card::Prince ==> t != player_idx),
        ensures
            final(self)@.settled(old(self)@),
            (final(self)@, r@) == effect_step(old(self)@, player_idx, *details),
            details matches PlayCardDetails::PlayGuard { target_idx: Some(t), guess } ==> (
            final(self)@.players[t as int].active <==> old(self)@.players[t as int].hand[0]
                != guess),
            details matches PlayCardDetails::PlayBaron { target_idx: Some(t) } ==> {
                let pc = old(self)@.players[player_idx as int].hand[0];
                let tc = old(self)@.players[t as int].hand[0];
                &&& final(self)@.players[player_idx as int].active == !(pc.spec_rank()
                    < tc.spec_rank())
                &&& final(self)@.players[t as int].active == !(tc.spec_rank() < pc.spec_rank())
            },
    {
        let ghost g = self@;
        proof {
            assert(g.is_active(g.turn));
        }
        match details {
            PlayCardDetails::PlayGuard { target_idx: Some(t), guess } => self.play_guard(
                *t,
                *guess,
            ),
            PlayCardDetails::PlayPriest { target_idx: Some(t) } => self.play_priest(player_idx, *t),
            PlayCardDetails::PlayBaron { target_idx: Some(t) } => self.play_baron(player_idx, *t),
            PlayCardDetails::PlayHandmaid {  } => self.play_handmaid(player_idx),
            PlayCardDetails::PlayPrince { target_idx } => self.play_prince(*target_idx),
            PlayCardDetails::PlayKing { target_idx: Some(t) } => self.play_king(player_idx, *t),
            PlayCardDetails::PlayPrincess {  } => self.play_princess(player_idx),
            _ => Vec::new(),
        }
    }

    /// Once a card's effect is resolved, end the game if one player is left or the deck is
    /// empty, and otherwise deal to the next active player and start their turn.
    fn finish_turn(&mut self) -> (r: Vec<Event>)
        requires
            old(self)@.state == GameState::InProgress,
            2 <= old(self)@.players.len() <= 4,
            old(self)@.seat(old(self)@.turn),
            old(self)@.conserved(),
            old(self)@.players.len() != 2 ==> old(self)@.removed.len() == 0,
            forall|i: int| #[trigger]
                old(self)@.is_active(i) ==> old(self)@.players[i].hand.len() == 1,
            old(self)@.deck.len() > 0 ==> old(self)@.burned is Some,
            exists|i: int| #[trigger] old(self)@.is_active(i),
        ensures
            final(self)@.wf(),
            final(self)@ == finish_step(old(self)@).0,
            log_matches(r@, finish_step(old(self)@).1, finish_step(old(self)@).2),
            final(self)@.state != GameState::NotStarted,
            final(self)@.players.len() == old(self)@.players.len(),
            forall|j: int| #[trigger] final(self)@.is_active(j) == old(self)@.is_active(j),
            r@.len() >= 1,
            final(self)@.state == GameState::Complete ==> (r@.last() matches Event::GameOver {
                winner_indices,
            } && announces_winners(final(self)@, winner_indices@)),
            final(self)@.state == GameState::InProgress ==> turn_passed(
                final(self)@,
                old(self)@.turn,
                final(self)@.turn,
            ),
    {
        let ghost g2 = self@;
        let mut events: Vec<Event> = Vec::new();
        let active_players = self.active_players();
        if active_players.len() == 1 {
            let ghost w = active_players@;
            proof {
                assert forall|i: int| g2.is_winner(i) <==> i == w[0] by {
                    if g2.is_active(i) {
                        let k = choose|k: int| 0 <= k < w.len() && #[trigger] w[k] == i;
                        assert(k == 0);
                    }
                    if i == w[0] {
                        assert(g2.is_active(i));
                        assert forall|j: int| #[trigger] g2.is_active(j) implies scores_at_least(
                            g2.players[i],
                            g2.players[j],
                        ) by {
                            let k = choose|k: int| 0 <= k < w.len() && #[trigger] w[k] == j;
                            assert(k == 0);
                        }
                    }
                }
            }
            events.push(self.end_game_with_winners(active_players));
            proof {
                assert(self@.players == g2.players);
                lemma_winners_by_players(self@, g2);
                assert(events@[0] matches Event::GameOver { winner_indices } && winner_indices@
                    == w);
                assert(events@.subrange(0, 0) =~= Seq::<Event>::empty());
            }
        } else if self.deck.is_empty() {
            proof {
                assert forall|i: int| #[trigger]
                    g2.is_active(i) implies g2.players[i].hand.len() == 1 && rank_sum(
                    g2.players[i].discards,
                ) <= 128 by {
                    lemma_discards_bounded(g2, i);
                }
            }
            let winners = self.calculate_winners();
            let ghost w = winners@;
            events.push(self.end_game_with_winners(winners));
            proof {
                assert(self@.players == g2.players);
                lemma_winners_by_players(self@, g2);
                assert(events@[0] matches Event::GameOver { winner_indices } && winner_indices@
                    == w);
                assert(events@.subrange(0, 0) =~= Seq::<Event>::empty());
            }
        } else {
            proof {
                // Some seat is active, so the list of active seats is not empty.
                let i0 = choose|i: int| #[trigger] g2.is_active(i);
                let k0 = choose|k: int|
                    0 <= k < active_players@.len() && #[trigger] active_players@[k] == i0;
            }
            let next_player = self.next_player();
            proof {
                let w = active_players@;
                assert(w.len() >= 2);
                assert(g2.is_active(w[0] as int) && g2.is_active(w[1] as int));
                assert(w[0] != w[1]);
            }
            events.push(self.draw_and_give_card_to_player(next_player));
            events.push(self.start_player_turn(next_player));
            proof {
                let h = self@;
                let w = active_players@;
                let np = next_player as int;
                assert(h.is_active(h.turn));
                assert forall|i: int| #[trigger]
                    h.is_active(i) && i != h.turn implies h.players[i].hand.len() == 1 by {
                    assert(g2.is_active(i));
                }
                if w[0] as int != np {
                    assert(h.is_active(w[0] as int));
                } else {
                    assert(h.is_active(w[1] as int));
                }
                assert forall|j: int| #[trigger] h.is_active(j) <==> g2.is_active(j) by {}
                assert(turn_passed(h, g2.turn, h.turn));
                assert(events@ =~= finish_step(g2).1);
            }
        }
        events
    }

    /// Determine the events resulting from a player playing a card.
    fn play_card(&mut self, player_idx: usize, details: &PlayCardDetails) -> (r: Result<
        Vec<Event>,
        GameError,
    >)
        requires
            old(self)@.wf(),
        ensures
            final(self)@.wf(),
            play_outcome(old(self)@, final(self)@, player_idx, *details, r),
    {
        let ghost g = self@;
        match self.is_game_in_progress() {
            Err(e) => return Err(e),
            Ok(()) => {},
        }
        match self.does_player_exist(player_idx) {
            Err(e) => return Err(e),
            Ok(()) => {},
        }
        match self.is_it_players_turn(player_idx) {
            Err(e) => return Err(e),
            Ok(()) => {},
        }
        let card = details.card();
        match self.is_target_valid(player_idx, details.target(), card) {
            Err(e) => return Err(e),
            Ok(()) => {},
        }
        match self.is_player_allowed_to_play_card(player_idx, card) {
            Err(e) => return Err(e),
            Ok(()) => {},
        }
        let mut events = Vec::new();
        match self.play_card_from_player_hand(player_idx, card) {
            Err(e) => return Err(e),
            Ok(e) => events.push(e),
        }
        let ghost g1 = self@;
        proof {
            assert(g1.is_active(g1.turn));
            assert forall|i: int| #[trigger]
                g1.is_active(i) implies g1.players[i].hand.len() == 1 by {
                assert(g.is_active(i));
            }
            let o = choose|i: int| #[trigger] g.is_active(i) && i != g.turn;
            assert(g1.is_active(o));
            assert(g1.mid_play());
        }
        proof {
            if let Some(t) = details.spec_target() {
                assert(g1.players[t as int].active == g.players[t as int].active);
            }
        }
        let mut effect = self.resolve_effect(player_idx, details);
        events.append(&mut effect);
        let ghost g2 = self@;
        let ghost before = events@;
        let mut rest = self.finish_turn();
        let ghost rv = rest@;
        events.append(&mut rest);
        proof {
            assert(events@ == before + rv);
            assert(events@[events@.len() - 1] == rv[rv.len() - 1]);
            lemma_log_prefix(before, rv, finish_step(g2).1, finish_step(g2).2);
            assert(before == seq![Event::PlayCard { player_idx, card }] + effect_step(
                g1,
                player_idx,
                *details,
            ).1);
        }
        proof {
            let h = self@;
            if let PlayCardDetails::PlayGuard { target_idx: Some(t), guess } = *details {
                assert(g.players[t as int] == g1.players[t as int]);
                assert(h.is_active(t as int) == g2.is_active(t as int));
            }
            if let PlayCardDetails::PlayBaron { target_idx: Some(t) } = *details {
                assert(g.players[t as int] == g1.players[t as int]);
                assert(h.is_active(t as int) == g2.is_active(t as int));
                assert(h.is_active(player_idx as int) == g2.is_active(player_idx as int));
            }
        }
        Ok(events)
    }

    /// Begin a player's turn.
    fn start_player_turn(&mut self, player_idx: usize) -> (e: Event)
        requires
            player_idx < old(self)@.players.len(),
        ensures
            final(self)@ == (GameView {
                turn: player_idx as int,
                players: old(self)@.players.update(
                    player_idx as int,
                    PlayerView { protected: false, ..old(self)@.players[player_idx as int] },
                ),
                ..old(self)@
            }),
            final(self)@.all_cards() == old(self)@.all_cards(),
            e == (Event::ReadyToPlay { player_idx }),
    {
        let ghost g = self@;
        self.turn_counter = player_idx;
        self.players[player_idx].make_unprotected();
        proof {
            let i = player_idx as int;
            let p = PlayerView { protected: false, ..g.players[i] };
            assert(self@.players =~= g.players.update(i, p));
            lemma_seat_cards_same(g.players, i, p);
        }
        Event::ReadyToPlay { player_idx }
    }

    /// Carry out the given action on the game, returning all of the events which occur as a
    /// result.
    ///
    /// The first action carried out on a new `Game` must be a `StartGame` action, which
    /// shuffles the deck and seats the players; a play before it is refused.
    pub fn perform_action(&mut self, action: &Action) -> (r: Result<Vec<Event>, GameError>)
        requires
            old(self)@.wf(),
        ensures
            final(self)@.wf(),
            *action matches Action::StartGame { players } ==> start_outcome(
                old(self)@,
                final(self)@,
                players,
                r,
            ),
            *action matches Action::PlayCard { player_idx, details } ==> play_outcome(
                old(self)@,
                final(self)@,
                player_idx,
                details,
                r,
            ),
    {
        match action {
            Action::StartGame { players } => self.start_game(*players),
            Action::PlayCard { player_idx, details } => self.play_card(*player_idx, details),
        }
    }

    /// Start a new game with the given number of players and a freshly shuffled deck.
    fn start_game(&mut self, players: usize) -> (r: Result<Vec<Event>, GameError>)
        requires
            old(self)@.wf(),
        ensures
            final(self)@.wf(),
            start_outcome(old(self)@, final(self)@, players, r),
    {
        let mut deck = Deck::new();
        deck.shuffle();
        let ghost d = deck@;
        let r = self.start_game_with_deck(players, deck);
        proof {
            if 2 <= players <= 4 {
                assert(d.to_multiset() == full_deck().to_multiset());
            }
        }
        r
    }

    /// Start a new game with the given number of players, drawing from the given deck, which
    /// must hold a full set of cards in any order.
    pub fn start_game_with_deck(&mut self, players: usize, deck: Deck) -> (r: Result<
        Vec<Event>,
        GameError,
    >)
        requires
            old(self)@.wf(),
            deck@.to_multiset() == full_deck().to_multiset(),
        ensures
            start_with_deck_outcome(old(self)@, final(self)@, players, deck@, r),
            final(self)@.wf(),
    {
        if players < 2 || players > 4 {
            return Err(GameError::InvalidNumberOfPlayers(players));
        }
        let ghost d = deck@;
        let ghost n = players as int;
        assert(d.len() == 16) by {
            assert(d.to_multiset().len() == full_deck().to_multiset().len());
        }
        let mut events = vec![Event::NewGame { players }];
        self.deck = deck;
        self.burned_card = None;
        self.removed = Vec::new();
        self.players = Vec::new();
        proof {
            assert(self@.players =~= Seq::empty());
            assert(self@.all_cards() =~= full_deck().to_multiset());
        }
        let mut i: usize = 0;
        while i < players
            invariant
                i <= players <= 4,
                d.len() == 16,
                self@.deck == d,
                self@.burned is None,
                self@.removed.len() == 0,
                self@.all_cards() == full_deck().to_multiset(),
                self@.players =~= Seq::new(i as nat, |j: int| fresh_player(Seq::empty())),
                events@ =~= seq![Event::NewGame { players }] + Seq::new(
                    i as nat,
                    |j: int| Event::RegisterPlayer { player_idx: j as usize },
                ),
            decreases players - i,
        {
            let ghost ps = self@.players;
            self.players.push(Player::new());
            events.push(Event::RegisterPlayer { player_idx: i });
            proof {
                lemma_seat_cards_push_empty(ps, fresh_player(Seq::empty()));
                assert(self@.players =~= ps.push(fresh_player(Seq::empty())));
            }
            i = i + 1;
        }
        self.burned_card = self.deck.pop();
        events.push(Event::BurnCard {  });
        proof {
            assert(d =~= d.drop_last().push(d[15]));
            assert(self@.all_cards() =~= full_deck().to_multiset());
        }
        if players == 2 {
            let mut k: usize = 0;
            while k < 3
                invariant
                    k <= 3,
                    players == 2,
                    d.len() == 16,
                    self@.deck =~= d.subrange(0, 15 - k),
                    self@.burned == Some(d[15]),
                    self@.removed =~= Seq::new(k as nat, |j: int| d[14 - j]),
                    self@.players =~= Seq::new(2, |j: int| fresh_player(Seq::empty())),
                    self@.all_cards() == full_deck().to_multiset(),
                    events@ =~= seq![Event::NewGame { players }] + Seq::new(
                        2,
                        |j: int| Event::RegisterPlayer { player_idx: j as usize },
                    ) + seq![Event::BurnCard {  }] + Seq::new(
                        k as nat,
                        |j: int| Event::RemoveCardFromGame { card: d[14 - j] },
                    ),
                decreases 3 - k,
            {
                let ghost g = self@;
                let c = self.deck.pop().unwrap();
                self.removed.push(c);
                events.push(Event::RemoveCardFromGame { card: c });
                proof {
                    assert(g.deck =~= g.deck.drop_last().push(c));
                    assert(self@.all_cards() =~= g.all_cards());
                }
                k = k + 1;
            }
        }
        let ghost top = first_deal(n);
        let ghost before_deals = events@;
        assert(self@.removed =~= (if n == 2 {
            seq![d[14], d[13], d[12]]
        } else {
            Seq::empty()
        }));
        let mut i: usize = 0;
        while i < players
            invariant
                i <= players,
                n == players,
                d.len() == 16,
                2 <= n <= 4,
                top == first_deal(n),
                self@.deck =~= d.subrange(0, top + 1 - i),
                self@.burned == Some(d[15]),
                self@.removed =~= (if n == 2 {
                    seq![d[14], d[13], d[12]]
                } else {
                    Seq::empty()
                }),
                self@.players =~= Seq::new(
                    n as nat,
                    |j: int|
                        if j < i {
                            fresh_player(seq![d[top - j]])
                        } else {
                            fresh_player(Seq::empty())
                        },
                ),
                self@.all_cards() == full_deck().to_multiset(),
                events@ =~= before_deals + Seq::new(
                    i as nat,
                    |j: int| Event::DealCard { player_idx: j as usize, card: d[top - j] },
                ),
            decreases players - i,
        {
            let e = self.draw_and_give_card_to_player(i);
            events.push(e);
            i = i + 1;
        }
        let e = self.draw_and_give_card_to_player(0);
        events.push(e);
        let e = self.start_player_turn(0);
        events.push(e);
        self.state = GameState::InProgress;
        proof {
            let st = started(d, n);
            assert(self@.deck =~= st.deck);
            assert(self@.players[0].hand =~= st.players[0].hand);
            assert(self@.players =~= st.players);
            assert(self@ =~= st);
            assert(events@ =~= start_events(d, n));
            assert(self@.is_active(1) && 1 != self@.turn);
        }
        Ok(events)
    }
}

impl Default for Game {
    fn default() -> (r: Game)
        ensures
            r@.wf(),
            r@.state == GameState::NotStarted,
            r@.players.len() == 0,
    {
        Game::new()
    }
}

} // verus!
