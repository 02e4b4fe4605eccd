//! What holds of every game the engine runs, proved from the contracts of `Game`.
use vstd::multiset::Multiset;
use vstd::prelude::*;

use crate::action::PlayCardDetails;
use crate::card::Card;
use crate::deck::full_deck;
use crate::event::Event;
use crate::game::{
    announces_winners, option_cards, play_outcome, seat_cards, start_with_deck_outcome,
    turn_passed, GameError, GameState, GameView,
};

verus! {

/// While a game with three or four players is in progress, the deck, the burned card and the
/// hands and discards of all players make up exactly one full deck. With two players the three
/// cards removed face up at the start complete it.
pub proof fn cards_are_conserved(g: GameView)
    requires
        g.wf(),
        g.state == GameState::InProgress,
    ensures
        g.players.len() > 2 ==> g.deck.to_multiset().add(option_cards(g.burned)).add(
            seat_cards(g.players),
        ) =~= full_deck().to_multiset(),
        g.players.len() == 2 ==> g.deck.to_multiset().add(option_cards(g.burned)).add(
            seat_cards(g.players),
        ).add(g.removed.to_multiset()) =~= full_deck().to_multiset(),
{
    broadcast use vstd::seq_lib::group_to_multiset_ensures, vstd::multiset::group_multiset_axioms;

    if g.players.len() > 2 {
        assert(g.removed.to_multiset() =~= Multiset::empty());
    }
}

/// While a game is in progress, the turn belongs to an active player, and a successful play
/// hands the turn on to the first active player after the one who played, going round the
/// table, unless it ends the game.
pub proof fn turn_goes_to_active_player(
    g: GameView,
    h: GameView,
    player_idx: usize,
    details: PlayCardDetails,
    r: Result<Vec<Event>, GameError>,
)
    requires
        g.wf(),
        h.wf(),
        play_outcome(g, h, player_idx, details, r),
    ensures
        g.state == GameState::InProgress ==> g.is_active(g.turn),
        r is Ok && h.state == GameState::InProgress ==> h.is_active(h.turn) && turn_passed(
            h,
            g.turn,
            h.turn,
        ),
{
}

/// A Guard knocks out its target exactly when the guess names the target's card, and a Guard
/// aimed at the player who plays it is refused.
pub proof fn guard_hits_exactly_on_right_guess(
    g: GameView,
    h: GameView,
    player_idx: usize,
    target_idx: usize,
    guess: Card,
    r: Result<Vec<Event>, GameError>,
)
    requires
        g.wf(),
        play_outcome(
            g,
            h,
            player_idx,
            PlayCardDetails::PlayGuard { target_idx: Some(target_idx), guess },
            r,
        ),
    ensures
        r is Ok ==> (h.players[target_idx as int].active <==> g.players[target_idx as int].hand[0]
            != guess),
        target_idx == player_idx ==> r is Err,
        target_idx == player_idx && g.state == GameState::InProgress && player_idx == g.turn
            ==> r == Err::<Vec<Event>, GameError>(GameError::CannotTargetSelf(Card::Guard)),
{
}

/// A Baron knocks out whichever of the player and the target holds the lower card, and
/// neither of them on equal cards.
pub proof fn baron_knocks_out_lower_card(
    g: GameView,
    h: GameView,
    player_idx: usize,
    target_idx: usize,
    r: Result<Vec<Event>, GameError>,
)
    requires
        g.wf(),
        play_outcome(g, h, player_idx, PlayCardDetails::PlayBaron { target_idx: Some(target_idx) }, r),
        r is Ok,
    ensures
        ({
            let pc = crate::game::other_card(g.players[player_idx as int].hand, Card::Baron);
            let tc = g.players[target_idx as int].hand[0];
            &&& pc.spec_rank() < tc.spec_rank() ==> !h.players[player_idx as int].active
                && h.players[target_idx as int].active
            &&& tc.spec_rank() < pc.spec_rank() ==> h.players[player_idx as int].active
                && !h.players[target_idx as int].active
            &&& pc == tc ==> h.players[player_idx as int].active
                && h.players[target_idx as int].active
        }),
{
}

/// A player who holds the Countess can never play the Prince or the King, whatever the
/// order of the two cards in hand.
pub proof fn countess_locks_prince_and_king(
    g: GameView,
    h: GameView,
    player_idx: usize,
    details: PlayCardDetails,
    r: Result<Vec<Event>, GameError>,
)
    requires
        g.wf(),
        play_outcome(g, h, player_idx, details, r),
        details.spec_card() == Card::Prince || details.spec_card() == Card::King,
        g.players[player_idx as int].hand.contains(Card::Countess),
    ensures
        r is Err,
        h == g,
{
}

/// When a play ends the game, the winners announced are exactly the active players whose
/// card, then sum of discarded ranks, is the best, listed by seat.
pub proof fn winners_hold_best_key(
    g: GameView,
    h: GameView,
    player_idx: usize,
    details: PlayCardDetails,
    r: Result<Vec<Event>, GameError>,
)
    requires
        g.wf(),
        play_outcome(g, h, player_idx, details, r),
        r is Ok,
        h.state == GameState::Complete,
    ensures
        r->Ok_0@.last() matches Event::GameOver { winner_indices } && announces_winners(
            h,
            winner_indices@,
        ),
        forall|i: int|
            h.is_winner(i) <==> h.is_active(i) && forall|j: int| #[trigger]
                h.is_active(j) ==> crate::game::scores_at_least(h.players[i], h.players[j]),
{
}

/// Two event logs are the same: event for event equal, the winners of a game over compared by
/// their seats.
pub open spec fn same_log(a: Seq<Event>, b: Seq<Event>) -> bool {
    &&& a.len() == b.len()
    &&& forall|k: int|
        0 <= k < a.len() ==> a[k] == b[k] || (a[k] matches Event::GameOver { winner_indices: x }
            && b[k] matches Event::GameOver { winner_indices: y } && x@ == y@)
}

/// Starting a game is determined by the state before, the number of players and the order of
/// the deck.
pub proof fn starts_are_deterministic(
    g: GameView,
    h1: GameView,
    h2: GameView,
    players: usize,
    d: Seq<Card>,
    r1: Result<Vec<Event>, GameError>,
    r2: Result<Vec<Event>, GameError>,
)
    requires
        start_with_deck_outcome(g, h1, players, d, r1),
        start_with_deck_outcome(g, h2, players, d, r2),
    ensures
        h1 == h2,
        r1 is Ok <==> r2 is Ok,
        r1 is Err ==> r1 == r2,
        r1 is Ok ==> r1->Ok_0@ == r2->Ok_0@,
{
}

/// A play is determined by the state before it, the seat and the details: the same play on the
/// same state gives the same state and the same events.
pub proof fn plays_are_deterministic(
    g: GameView,
    h1: GameView,
    h2: GameView,
    player_idx: usize,
    details: PlayCardDetails,
    r1: Result<Vec<Event>, GameError>,
    r2: Result<Vec<Event>, GameError>,
)
    requires
        play_outcome(g, h1, player_idx, details, r1),
        play_outcome(g, h2, player_idx, details, r2),
    ensures
        h1 == h2,
        r1 is Ok <==> r2 is Ok,
        r1 is Err ==> r1 == r2,
        r1 is Ok ==> same_log(r1->Ok_0@, r2->Ok_0@),
{
    if let (Ok(a), Ok(b)) = (r1, r2) {
        let (a, b) = (a@, b@);
        let e = crate::game::effect_step(
            crate::game::after_hand(g, player_idx, details.spec_card()),
            player_idx,
            details,
        );
        let f = crate::game::finish_step(e.0);
        let pre = seq![Event::PlayCard { player_idx, card: details.spec_card() }] + e.1 + f.1;
        if f.2 is Some {
            assert forall|k: int| 0 <= k < a.len() implies a[k] == b[k] || (a[k] matches Event::GameOver {
                winner_indices: x,
            } && b[k] matches Event::GameOver { winner_indices: y } && x@ == y@) by {
                if k < pre.len() {
                    assert(a[k] == a.subrange(0, pre.len() as int)[k]);
                    assert(b[k] == b.subrange(0, pre.len() as int)[k]);
                }
            }
        }
    }
}

/// Replaying the plays of a game on a fresh engine started from the same deck reproduces the
/// same states and the same event log, play for play.
pub proof fn replays_are_identical(
    gs1: Seq<GameView>,
    gs2: Seq<GameView>,
    plays: Seq<(usize, PlayCardDetails)>,
    rs1: Seq<Result<Vec<Event>, GameError>>,
    rs2: Seq<Result<Vec<Event>, GameError>>,
)
    requires
        gs1.len() == plays.len() + 1,
        gs2.len() == plays.len() + 1,
        rs1.len() == plays.len(),
        rs2.len() == plays.len(),
        gs1[0] == gs2[0],
        forall|k: int|
            0 <= k < plays.len() ==> play_outcome(
                gs1[k],
                #[trigger] gs1[k + 1],
                plays[k].0,
                plays[k].1,
                rs1[k],
            ),
        forall|k: int|
            0 <= k < plays.len() ==> play_outcome(
                gs2[k],
                #[trigger] gs2[k + 1],
                plays[k].0,
                plays[k].1,
                rs2[k],
            ),
    ensures
        forall|k: int| 0 <= k <= plays.len() ==> gs1[k] == gs2[k],
        forall|k: int|
            0 <= k < plays.len() ==> (rs1[k] is Ok <==> rs2[k] is Ok) && (rs1[k] is Err
                ==> rs1[k] == rs2[k]) && (rs1[k] is Ok ==> same_log(
                rs1[k]->Ok_0@,
                rs2[k]->Ok_0@,
            )),
    decreases plays.len(),
{
    if plays.len() > 0 {
        let m = plays.len() - 1;
        replays_are_identical(
            gs1.drop_last(),
            gs2.drop_last(),
            plays.drop_last(),
            rs1.drop_last(),
            rs2.drop_last(),
        );
        assert(gs1[m] == gs1.drop_last()[m]);
        assert(gs2[m] == gs2.drop_last()[m]);
        assert(play_outcome(gs1[m], gs1[m + 1], plays[m].0, plays[m].1, rs1[m]));
        assert(play_outcome(gs2[m], gs2[m + 1], plays[m].0, plays[m].1, rs2[m]));
        plays_are_deterministic(gs1[m], gs1[m + 1], gs2[m + 1], plays[m].0, plays[m].1, rs1[m], rs2[m]);
        assert forall|k: int| 0 <= k <= plays.len() implies gs1[k] == gs2[k] by {
            if k <= m {
                assert(gs1[k] == gs1.drop_last()[k]);
                assert(gs2[k] == gs2.drop_last()[k]);
            }
        }
        assert forall|k: int| 0 <= k < plays.len() implies (rs1[k] is Ok <==> rs2[k] is Ok) && (
        rs1[k] is Err ==> rs1[k] == rs2[k]) && (rs1[k] is Ok ==> same_log(
            rs1[k]->Ok_0@,
            rs2[k]->Ok_0@,
        )) by {
            if k < m {
                assert(rs1[k] == rs1.drop_last()[k]);
                assert(rs2[k] == rs2.drop_last()[k]);
            }
        }
    }
}

} // verus!
