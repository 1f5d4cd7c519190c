use vstd::prelude::*;

verus! {

/// Every failure the engine can report, from setup mistakes to mid-hand
/// resource problems.
#[derive(PartialEq, Eq, Structural, Debug, Clone, Copy, Hash)]
pub enum EngineError {
    /// The deck ran out of cards while dealing.
    BadDeckError,
    /// A seat tried to bet more than it owns.
    NotEnoughMoney,
    /// No highest card could be produced from an empty hand.
    HighestCardNotAvailable,
    /// A hand was ranked with fewer than five cards.
    SmallHandError,
    /// The game ended without reaching a normal completion.
    GameNotCompletedSuccessfully,
    /// A raise was attempted in a phase that forbids raising.
    NoRaiseAllowedError,
    /// The blind was not at least one chip.
    SmallBlindError,
    /// The starting parameters of the game do not fit together.
    BadGameError,
    /// The human seat could not be reached for a decision.
    RecvMyselfError,
}

impl EngineError {
    /// A short human-readable description of the failure.
    pub fn message(&self) -> &'static str {
        match self {
            EngineError::BadDeckError => "Cannot take card from deck",
            EngineError::NotEnoughMoney => "Not enough money to bet",
            EngineError::HighestCardNotAvailable => "Cannot get the highest card in the hand",
            EngineError::SmallHandError => "The hand must have more than 5 cards",
            EngineError::GameNotCompletedSuccessfully => "The game did not ended well",
            EngineError::NoRaiseAllowedError => "You cannot raise in this round",
            EngineError::SmallBlindError => "The blind must be at least one",
            EngineError::BadGameError => "The initial parameters of this game aren't correct",
            EngineError::RecvMyselfError => "The communication to my player couldn't be done",
        }
    }
}

} // verus!
