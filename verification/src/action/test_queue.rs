use vstd::prelude::*;

use crate::hand::{Hand, Rankable};
use crate::player::PlayerHand;
use crate::rank::{rank_spec, Rank};

use super::game_action::GameAction;
use super::{GameActionQueue, GameMessage};

verus! {

/// A diagnostic sink that keeps every message and remembers the hole
/// cards it saw dealt, so observers can replay a hand afterwards.
#[derive(Debug, Default)]
pub struct TestQueue {
    pub queue: Vec<GameMessage>,
    pub cards: Vec<PlayerHand>,
}

impl GameActionQueue for TestQueue {
    /// The buffer itself is the log.
    open spec fn log(&self) -> Seq<GameMessage> {
        self.queue@
    }

    fn add(&mut self, msg: GameMessage)
        ensures
            final(self).queue@ == old(self).queue@.push(msg),
    {
        if let GameAction::DealStartHand { hand, i: _ } = msg.action {
            self.cards.push(hand);
        }
        self.queue.push(msg);
    }
}

impl TestQueue {
    /// The rank commentary the queue can attach to seat `i`: its recorded
    /// hole cards evaluated against the community of the latest message,
    /// or nothing while the seat is unknown or the board is too short.
    pub fn seat_rank(&self, i: usize) -> (r: Option<Rank>)
        ensures
            ({
                if i < self.cards@.len() && self.queue@.len() > 0 {
                    let hole = self.cards@[i as int];
                    let community = self.queue@.last().state.community@;
                    if community.len() >= 3 {
                        r == Some(rank_spec(seq![hole.0, hole.1] + community))
                    } else {
                        r == None::<Rank>
                    }
                } else {
                    r == None::<Rank>
                }
            }),
    {
        if i >= self.cards.len() || self.queue.len() == 0 {
            return None;
        }
        let msg = &self.queue[self.queue.len() - 1];
        let hand = Hand::new_from_hand(self.cards[i], &msg.state.community);
        match hand.rank() {
            Ok(rk) => Some(rk),
            Err(_) => None,
        }
    }
}

/// A second name for a sink that drops everything, kept for callers that
/// reach it through the diagnostic module.
pub struct EmptyQueue {
    history: Ghost<Seq<GameMessage>>,
}

impl Default for EmptyQueue {
    /// The sink that drops every message.
    fn default() -> (r: Self)
        ensures
            r.log().len() == 0,
    {
        EmptyQueue { history: Ghost(Seq::empty()) }
    }
}

impl GameActionQueue for EmptyQueue {
    closed spec fn log(&self) -> Seq<GameMessage> {
        self.history@
    }

    fn add(&mut self, msg: GameMessage) {
        proof {
            self.history@ = self.history@.push(msg);
        }
    }
}

} // verus!
