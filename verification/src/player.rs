use vstd::prelude::*;

use crate::card::Card;
use crate::error::EngineError;
use crate::state::{GameState, Round};

pub mod dummy;
pub mod montecarlo;
pub mod myself;
pub mod scripted;

verus! {

/// The two private hole cards dealt to a seat.
pub type PlayerHand = (Card, Card);

/// A decision returned by a strategy. The amount carried by `Call` and
/// `Raise` is the number of chips the seat adds to its bet.
#[derive(Debug, Clone, PartialEq, Eq, Structural, Copy, Hash)]
pub enum PlayerAction {
    Fold,
    Raise(i32),
    Call(i32),
}

/// Relies on `rand::random`: a fresh uniformly distributed machine word
/// from the thread-local generator. Nothing is promised of its value.
#[verifier::external_body]
pub(crate) fn random_u64() -> u64 {
    rand::random()
}

/// One seat's decision making. The engine asks `blind` during the blind
/// phase and `play` during the open betting phases, always with a well
/// formed state and the seat's own index, after dealing it cards.
pub trait Player: Sized {
    /// Whether the strategy is ready to act in a hand.
    spec fn ready(&self) -> bool;

    /// The hole cards the strategy holds, at the specification level.
    spec fn hole(&self) -> Option<PlayerHand>;

    /// The hole cards currently held, if any.
    fn cards(&self) -> (r: Option<PlayerHand>)
        ensures
            r == self.hole(),
    ;

    /// Hands the strategy its hole cards for this hand; afterwards it
    /// holds exactly that pair and is ready to act.
    fn give_cards(&mut self, hand: PlayerHand)
        ensures
            final(self).ready(),
            final(self).hole() == Some(hand),
    ;

    /// The decision for the blind phase.
    fn blind(&mut self, state: &GameState, i: usize) -> (r: Result<PlayerAction, EngineError>)
        requires
            old(self).ready(),
            state.wf(),
            state.seats_bet(),
            state.round != Round::Starting,
            state.round != Round::Complete,
            i < state.players_money@.len(),
        ensures
            final(self).ready(),
    ;

    /// The decision for an open betting phase.
    fn play(&mut self, state: &GameState, i: usize) -> (r: Result<PlayerAction, EngineError>)
        requires
            old(self).ready(),
            state.wf(),
            state.seats_bet(),
            state.round != Round::Starting,
            state.round != Round::Complete,
            i < state.players_money@.len(),
        ensures
            final(self).ready(),
    ;
}

/// Every seat of the table plays the cheap heuristic; the roster nested
/// simulations use, and the one for which a hand provably completes.
pub open spec fn all_dummy(players: Seq<SeatPlayer>) -> bool {
    forall|j: int| 0 <= j < players.len() ==> (#[trigger] players[j]) is Dummy
}

/// The closed set of strategies a table can seat; the engine dispatches
/// on the variant.
#[derive(Debug)]
pub enum SeatPlayer {
    Dummy(dummy::DummyPlayer),
    Montecarlo(montecarlo::MontecarloPlayer),
    Myself(myself::MyselfPlayer),
    Scripted(scripted::ScriptedPlayer),
}

impl Player for SeatPlayer {
    open spec fn ready(&self) -> bool {
        match self {
            SeatPlayer::Dummy(p) => p.ready(),
            SeatPlayer::Montecarlo(p) => p.ready(),
            SeatPlayer::Myself(p) => p.ready(),
            SeatPlayer::Scripted(p) => p.ready(),
        }
    }

    open spec fn hole(&self) -> Option<PlayerHand> {
        match self {
            SeatPlayer::Dummy(p) => p.hole(),
            SeatPlayer::Montecarlo(p) => p.hole(),
            SeatPlayer::Myself(p) => p.hole(),
            SeatPlayer::Scripted(p) => p.hole(),
        }
    }

    fn cards(&self) -> Option<PlayerHand> {
        match self {
            SeatPlayer::Dummy(p) => p.cards(),
            SeatPlayer::Montecarlo(p) => p.cards(),
            SeatPlayer::Myself(p) => p.cards(),
            SeatPlayer::Scripted(p) => p.cards(),
        }
    }

    fn give_cards(&mut self, hand: PlayerHand)
        ensures
            (*old(self)) is Dummy ==> (*final(self)) is Dummy,
    {
        match self {
            SeatPlayer::Dummy(p) => p.give_cards(hand),
            SeatPlayer::Montecarlo(p) => p.give_cards(hand),
            SeatPlayer::Myself(p) => p.give_cards(hand),
            SeatPlayer::Scripted(p) => p.give_cards(hand),
        }
    }

    /// Dispatches the blind decision; a heuristic seat keeps its exact
    /// contract: it folds weak cards or short stacks and otherwise calls
    /// the blind, never failing and never raising.
    fn blind(&mut self, state: &GameState, i: usize) -> (r: Result<PlayerAction, EngineError>)
        ensures
            (*old(self)) is Dummy ==> (*final(self) == *old(self) && ({
                let weak = ((*old(self))->Dummy_0).hole_sum() < 10;
                if weak || state.players_money@[i as int] < state.bet_amount {
                    r == Ok::<PlayerAction, EngineError>(PlayerAction::Fold)
                } else {
                    r == Ok::<PlayerAction, EngineError>(PlayerAction::Call(state.bet_amount))
                }
            })),
    {
        match self {
            SeatPlayer::Dummy(p) => p.blind(state, i),
            SeatPlayer::Montecarlo(p) => p.blind(state, i),
            SeatPlayer::Myself(p) => p.blind(state, i),
            SeatPlayer::Scripted(p) => p.blind(state, i),
        }
    }

    /// Dispatches the open-phase decision; a heuristic seat keeps its
    /// exact outcome envelope: it fails exactly on a short board, and
    /// otherwise folds, calls the margin, or raises within its stack.
    fn play(&mut self, state: &GameState, i: usize) -> (r: Result<PlayerAction, EngineError>)
        ensures
            (*old(self)) is Dummy ==> (*final(self) == *old(self) && (r is Err
                <==> state.community@.len() < 3) && (r is Err ==> r == Err::<
                PlayerAction,
                EngineError,
            >(EngineError::SmallHandError)) && ({
                let diff = state.bet_amount - state.players_bet@[i as int];
                r matches Ok(a) ==> (a == PlayerAction::Fold || a == PlayerAction::Call(
                    diff as i32,
                ) || (a matches PlayerAction::Raise(amt) && diff < amt
                    <= state.players_money@[i as int]))
            })),
    {
        match self {
            SeatPlayer::Dummy(p) => p.play(state, i),
            SeatPlayer::Montecarlo(p) => p.play(state, i),
            SeatPlayer::Myself(p) => p.play(state, i),
            SeatPlayer::Scripted(p) => p.play(state, i),
        }
    }
}

} // verus!
