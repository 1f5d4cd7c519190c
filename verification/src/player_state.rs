use vstd::prelude::*;

use crate::player::PlayerHand;
use crate::rank::Rank;
use crate::state::GameState;

verus! {

/// What a presentation layer knows about one seat.
#[derive(Debug, Default)]
pub struct PlayerState {
    pub name: String,
    pub hand: Option<PlayerHand>,
    pub rank: Option<Rank>,
    pub cash: i32,
    pub bet: i32,
    pub turn: bool,
    pub can_raise: bool,
    pub folded: bool,
    pub all_in: bool,
}

impl Clone for PlayerState {
    /// An exact copy of the seat's display state.
    fn clone(&self) -> (r: Self)
        ensures
            r.name@ == self.name@,
            r.hand == self.hand,
            r.rank == self.rank,
            r.cash == self.cash,
            r.bet == self.bet,
            r.turn == self.turn,
            r.can_raise == self.can_raise,
            r.folded == self.folded,
            r.all_in == self.all_in,
    {
        PlayerState {
            name: self.name.clone(),
            hand: self.hand,
            rank: self.rank,
            cash: self.cash,
            bet: self.bet,
            turn: self.turn,
            can_raise: self.can_raise,
            folded: self.folded,
            all_in: self.all_in,
        }
    }
}

impl PlayerState {
    /// Marks or clears the turn flag of this seat.
    pub fn set_turn(&mut self, turn: bool)
        ensures
            *final(self) == (PlayerState { turn, ..*old(self) }),
    {
        self.turn = turn;
    }
}

/// A decision intent sent by a human player: the raise amount is the
/// margin on top of the chips needed to call.
#[derive(Debug, Clone, Copy, PartialEq, Eq, Structural, Hash)]
pub enum PlayerAction {
    Fold,
    Call,
    Raise(i32),
}

/// The first seat at or after `t` that still has to act: neither folded
/// nor all in; the seat count when no such seat exists.
pub open spec fn next_turn_spec(state: GameState, n: int, t: int) -> int
    decreases n - t,
{
    if t < 0 {
        -1
    } else if t >= n {
        n
    } else if !state.folded_players@.contains(t as usize) && !state.players_all_in@.contains(
        t as usize,
    ) {
        t
    } else {
        next_turn_spec(state, n, t + 1)
    }
}

/// Moves the highlighted turn from its current seat to the next seat that
/// still has to act, clearing the old highlight and setting the new one.
pub fn update_turn(turn: &mut usize, state: &GameState, players: &mut Vec<PlayerState>)
    requires
        *old(turn) < old(players)@.len(),
    ensures
        *final(turn) == next_turn_spec(*state, old(players)@.len() as int, *old(turn) + 1),
        final(players)@.len() == old(players)@.len(),
        forall|j: int|
            0 <= j < old(players)@.len() && j != *old(turn) && j != *final(turn)
                ==> final(players)@[j] == old(players)@[j],
        *final(turn) < old(players)@.len() ==> final(players)@[*final(turn) as int] == (
        PlayerState { turn: true, ..old(players)@[*final(turn) as int] }),
        *final(turn) == *old(turn) || final(players)@[*old(turn) as int] == (PlayerState {
            turn: false,
            ..old(players)@[*old(turn) as int]
        }),
{
    let n = players.len();
    players[*turn].set_turn(false);
    *turn += 1;

    while *turn < players.len()
        invariant
            *old(turn) + 1 <= *turn <= players@.len(),
            next_turn_spec(*state, players@.len() as int, *old(turn) + 1) == next_turn_spec(
                *state,
                players@.len() as int,
                *turn as int,
            ),
            players@.len() == old(players)@.len(),
            forall|j: int|
                0 <= j < players@.len() && j != *old(turn) ==> players@[j] == old(players)@[j],
            players@[*old(turn) as int] == (PlayerState {
                turn: false,
                ..old(players)@[*old(turn) as int]
            }),
        decreases players@.len() - *turn,
    {
        let f = crate::util::contains_seat(&state.folded_players, *turn);
        let a = crate::util::contains_seat(&state.players_all_in, *turn);
        if !f && !a {
            players[*turn].set_turn(true);
            return;
        }
        *turn += 1;
    }
}

} // verus!
