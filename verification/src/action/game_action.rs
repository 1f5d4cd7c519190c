use vstd::prelude::*;

use crate::card::Card;
use crate::error::EngineError;
use crate::player::{PlayerAction, PlayerHand};
use crate::rank::Rank;
use crate::state::Round;

verus! {

/// Every externally observable event of a hand, in the order the engine
/// produces them.
#[derive(Debug)]
pub enum GameAction {
    /// The two hole cards dealt to seat `i`.
    DealStartHand { hand: PlayerHand, i: usize },
    /// A new betting round begins.
    RoundChanged { round: Round },
    /// A community card is dealt.
    DealCommunity { card: Card },
    /// Seat `i` put chips in, going all in or not.
    PlayedBet { action: PlayerAction, i: usize, all_in: bool },
    /// Seat `i` folded.
    PlayedFolded { action: PlayerAction, i: usize },
    /// Seat `i` failed to act and was folded.
    ErroredPlay { error: EngineError, i: usize },
    /// Seat `i` showed its hand at showdown.
    ShowdownHand { hand: PlayerHand, rank: Rank, i: usize },
    /// Seat `i` won the pot.
    WinGame { rank: Rank, i: usize, pot: i32 },
}

} // verus!
