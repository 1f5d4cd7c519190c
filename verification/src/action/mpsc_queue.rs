use vstd::prelude::*;

use super::{GameActionQueue, GameMessage};

verus! {

#[verifier::external_type_specification]
#[verifier::external_body]
#[verifier::reject_recursive_types(T)]
pub struct ExSender<T>(std::sync::mpsc::Sender<T>);

/// Relies on `std::sync::mpsc::Sender::send`: it hands the message to the
/// channel and only fails when the receiver is gone; the failure is
/// swallowed so emission never stalls the hand.
#[verifier::external_body]
fn send_message(tx: &std::sync::mpsc::Sender<GameMessage>, msg: GameMessage) {
    let _ = tx.send(msg);
}

/// A best-effort sink backed by a channel: messages go to whoever listens,
/// and a closed channel is silently ignored.
pub struct MpscQueue {
    tx: std::sync::mpsc::Sender<GameMessage>,
    history: Ghost<Seq<GameMessage>>,
}

impl MpscQueue {
    pub fn new(tx: std::sync::mpsc::Sender<GameMessage>) -> (r: Self)
        ensures
            r.log().len() == 0,
    {
        MpscQueue { tx, history: Ghost(Seq::empty()) }
    }
}

impl GameActionQueue for MpscQueue {
    closed spec fn log(&self) -> Seq<GameMessage> {
        self.history@
    }

    fn add(&mut self, msg: GameMessage) {
        let msg = msg;
        proof {
            self.history@ = self.history@.push(msg);
        }
        send_message(&self.tx, msg);
    }
}

} // verus!
