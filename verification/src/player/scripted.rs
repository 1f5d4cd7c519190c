use vstd::prelude::*;

use crate::error::EngineError;
use crate::state::GameState;

use super::{Player, PlayerAction, PlayerHand};

verus! {

/// A strategy that plays a fixed list of decisions in order, whatever the
/// table looks like, and fails once the list runs out. It makes a hand
/// fully deterministic, which nested simulations and tests rely on.
#[derive(Debug)]
pub struct ScriptedPlayer {
    pub hand: Option<PlayerHand>,
    pub script: Vec<PlayerAction>,
    pub next: usize,
}

impl ScriptedPlayer {
    /// A seat that will play exactly the given decisions, first to last.
    pub fn new(script: Vec<PlayerAction>) -> (r: Self)
        ensures
            r.script@ == script@,
            r.next == 0,
            r.ready(),
    {
        ScriptedPlayer { hand: None, script, next: 0 }
    }

    /// The next scripted decision, or the channel error once the script is
    /// exhausted.
    fn step(&mut self) -> (r: Result<PlayerAction, EngineError>)
        ensures
            final(self).script@ == old(self).script@,
            final(self).hand == old(self).hand,
            old(self).next < old(self).script@.len() ==> (r == Ok::<PlayerAction, EngineError>(
                old(self).script@[old(self).next as int],
            ) && final(self).next == old(self).next + 1),
            old(self).next >= old(self).script@.len() ==> (r == Err::<PlayerAction, EngineError>(
                EngineError::RecvMyselfError,
            ) && final(self).next == old(self).next),
    {
        if self.next < self.script.len() {
            let a = self.script[self.next];
            self.next = self.next + 1;
            Ok(a)
        } else {
            Err(EngineError::RecvMyselfError)
        }
    }
}

impl Player for ScriptedPlayer {
    /// A scripted seat can always act; cards play no part in its choices.
    open spec fn ready(&self) -> bool {
        true
    }

    open spec fn hole(&self) -> Option<PlayerHand> {
        self.hand
    }

    fn cards(&self) -> Option<PlayerHand> {
        self.hand
    }

    fn give_cards(&mut self, hand: PlayerHand) {
        self.hand = Some(hand);
    }

    fn blind(&mut self, _state: &GameState, _i: usize) -> (r: Result<PlayerAction, EngineError>)
        ensures
            final(self).script@ == old(self).script@,
            old(self).next < old(self).script@.len() ==> (r == Ok::<PlayerAction, EngineError>(
                old(self).script@[old(self).next as int],
            ) && final(self).next == old(self).next + 1),
            old(self).next >= old(self).script@.len() ==> (r == Err::<PlayerAction, EngineError>(
                EngineError::RecvMyselfError,
            ) && final(self).next == old(self).next),
    {
        self.step()
    }

    fn play(&mut self, _state: &GameState, _i: usize) -> (r: Result<PlayerAction, EngineError>)
        ensures
            final(self).script@ == old(self).script@,
            old(self).next < old(self).script@.len() ==> (r == Ok::<PlayerAction, EngineError>(
                old(self).script@[old(self).next as int],
            ) && final(self).next == old(self).next + 1),
            old(self).next >= old(self).script@.len() ==> (r == Err::<PlayerAction, EngineError>(
                EngineError::RecvMyselfError,
            ) && final(self).next == old(self).next),
    {
        self.step()
    }
}

} // verus!
