use vstd::prelude::*;

use super::{GameActionQueue, GameMessage};

verus! {

/// A sink that drops every message; only its ghost history remembers what
/// went through.
pub struct EmptyQueue {
    history: Ghost<Seq<GameMessage>>,
}

impl Default for EmptyQueue {
    /// The sink that drops every message.
    fn default() -> (r: Self)
        ensures
            r.log().len() == 0,
    {
        EmptyQueue { history: Ghost(Seq::empty()) }
    }
}

impl GameActionQueue for EmptyQueue {
    closed spec fn log(&self) -> Seq<GameMessage> {
        self.history@
    }

    fn add(&mut self, msg: GameMessage) {
        proof {
            self.history@ = self.history@.push(msg);
        }
    }
}

} // verus!
