use vstd::prelude::*;

use crate::error::EngineError;
use crate::player_state;
use crate::state::GameState;

use super::{Player, PlayerAction, PlayerHand};

verus! {

#[verifier::external_type_specification]
#[verifier::external_body]
#[verifier::reject_recursive_types(T)]
pub struct ExReceiver<T>(std::sync::mpsc::Receiver<T>);

/// Relies on `std::sync::mpsc::Receiver::recv`: it blocks until a value
/// arrives or every sender is gone; a closed channel becomes the engine's
/// channel error. Which intent arrives depends on the other thread, so
/// nothing more is promised.
#[verifier::external_body]
fn recv_intent(rx: &std::sync::mpsc::Receiver<player_state::PlayerAction>) -> (r: Result<
    player_state::PlayerAction,
    EngineError,
>)
    ensures
        r matches Err(e) ==> e == EngineError::RecvMyselfError,
{
    rx.recv().map_err(|_| EngineError::RecvMyselfError)
}

/// The human seat: every decision is received over a channel from the
/// presentation layer, and translated into the amount-relative contract.
#[derive(Debug)]
pub struct MyselfPlayer {
    hand: Option<PlayerHand>,
    rx: std::sync::mpsc::Receiver<player_state::PlayerAction>,
}

impl MyselfPlayer {
    /// A human seat reading its decisions from the given channel.
    pub fn new(rx: std::sync::mpsc::Receiver<player_state::PlayerAction>) -> Self {
        MyselfPlayer { hand: None, rx }
    }
}

/// Where a raise lands once its margin is added to the chips owed,
/// clamped to the machine range.
pub open spec fn clamped_raise(diff: int, n: int) -> int {
    if diff + n > i32::MAX as int {
        i32::MAX as int
    } else if diff + n < i32::MIN as int {
        i32::MIN as int
    } else {
        diff + n
    }
}

/// How a received open-phase intent becomes a table action: a fold stays
/// a fold, a call owes the margin `diff`, and a raise adds its amount on
/// top of the margin, clamped to the machine range.
pub fn translate(intent: player_state::PlayerAction, diff: i32) -> (a: PlayerAction)
    ensures
        intent == player_state::PlayerAction::Fold ==> a == PlayerAction::Fold,
        intent == player_state::PlayerAction::Call ==> a == PlayerAction::Call(diff),
        intent matches player_state::PlayerAction::Raise(n) ==> (a matches PlayerAction::Raise(m)
            && m == clamped_raise(diff as int, n as int)),
{
    match intent {
        player_state::PlayerAction::Fold => PlayerAction::Fold,
        player_state::PlayerAction::Call => PlayerAction::Call(diff),
        player_state::PlayerAction::Raise(raised) => {
            let sum = diff as i64 + raised as i64;
            let amt: i32 = if sum > i32::MAX as i64 {
                i32::MAX
            } else if sum < i32::MIN as i64 {
                i32::MIN
            } else {
                sum as i32
            };
            PlayerAction::Raise(amt)
        },
    }
}

impl Player for MyselfPlayer {
    /// The human can always be asked; a decision needs no cards.
    open spec fn ready(&self) -> bool {
        true
    }

    closed spec fn hole(&self) -> Option<PlayerHand> {
        self.hand
    }

    fn cards(&self) -> Option<PlayerHand> {
        self.hand
    }

    fn give_cards(&mut self, hand: PlayerHand) {
        self.hand = Some(hand);
    }

    /// Waits for an intent; raising is not allowed during the blind, so a
    /// raise intent is a strategy error and folds the seat.
    fn blind(&mut self, state: &GameState, i: usize) -> (r: Result<PlayerAction, EngineError>)
        ensures
            r matches Err(e) ==> (e == EngineError::RecvMyselfError
                || e == EngineError::NoRaiseAllowedError),
            ({
                let diff = state.bet_amount - state.players_bet@[i as int];
                r matches Ok(a) ==> (a == PlayerAction::Fold || a == PlayerAction::Call(
                    diff as i32,
                ))
            }),
    {
        let my_bet = state.players_bet[i];
        let diff = state.bet_amount - my_bet;

        let intent = match recv_intent(&self.rx) {
            Ok(g) => g,
            Err(e) => {
                return Err(e);
            },
        };

        match intent {
            player_state::PlayerAction::Fold => Ok(PlayerAction::Fold),
            player_state::PlayerAction::Call => Ok(PlayerAction::Call(diff)),
            player_state::PlayerAction::Raise(_) => Err(EngineError::NoRaiseAllowedError),
        }
    }

    /// Waits for an intent and passes it through `translate`: the raise
    /// margin is added on top of the chips needed to call, clamped to the
    /// machine range.
    fn play(&mut self, state: &GameState, i: usize) -> (r: Result<PlayerAction, EngineError>)
        ensures
            r matches Err(e) ==> e == EngineError::RecvMyselfError,
            ({
                let diff = state.bet_amount - state.players_bet@[i as int];
                r matches Ok(a) ==> (a == PlayerAction::Fold || a == PlayerAction::Call(
                    diff as i32,
                ) || a matches PlayerAction::Raise(_))
            }),
    {
        let my_bet = state.players_bet[i];
        let diff = state.bet_amount - my_bet;

        let intent = match recv_intent(&self.rx) {
            Ok(g) => g,
            Err(e) => {
                return Err(e);
            },
        };

        Ok(translate(intent, diff))
    }
}

} // verus!
