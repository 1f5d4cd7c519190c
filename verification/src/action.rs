use vstd::prelude::*;

use crate::state::GameState;

pub mod empty_queue;
pub mod game_action;
pub mod mpsc_queue;
pub mod test_queue;

use game_action::GameAction;

verus! {

/// One engine event paired with a copy of the state right after it.
#[derive(Debug)]
pub struct GameMessage {
    pub action: GameAction,
    pub state: GameState,
}

impl GameMessage {
    pub fn new(action: GameAction, state: GameState) -> (r: Self)
        ensures
            r.action == action,
            r.state == state,
    {
        GameMessage { action, state }
    }
}

/// A sink for the engine's event stream. Adding a message must always
/// succeed and never stalls the hand; every sink keeps (at least as ghost
/// state) the full list of messages it was handed, in arrival order, so
/// the emission discipline is part of its contract: the log only ever
/// grows at the end, one message per call.
pub trait GameActionQueue: Sized {
    /// Every message this sink has been handed, oldest first.
    spec fn log(&self) -> Seq<GameMessage>;

    fn add(&mut self, msg: GameMessage)
        ensures
            final(self).log() == old(self).log().push(msg),
    ;
}

} // verus!
