//! Why the engine turned an action down.

use vstd::prelude::*;

verus! {

/// The reasons for which the engine refuses an action. A refused action
/// leaves the game as it was.
#[derive(Debug, Clone, Copy, PartialEq, Eq, Structural)]
pub enum GameError {
    /// A hand needs two players at least.
    InsufficientPlayers,
    /// There is no seat with that number.
    InvalidPlayerIndex,
    /// A player who owes chips to the current bet cannot check.
    IllegalCheck,
    /// The player's balance does not cover the amount.
    InsufficientFunds,
    /// A bet of nothing.
    InvalidAmount,
}

impl GameError {
    /// The words that are reported to the player.
    pub open spec fn spec_message(self) -> Seq<char> {
        match self {
            GameError::InsufficientPlayers => "Need at least 2 players to start a hand"@,
            GameError::InvalidPlayerIndex => "Invalid player index"@,
            GameError::IllegalCheck => "Cannot check when there's a bet to call"@,
            GameError::InsufficientFunds => "Insufficient funds"@,
            GameError::InvalidAmount => "Bet amount must be positive"@,
        }
    }

    /// The words that are reported to the player.
    pub fn message(&self) -> (text: String)
        ensures
            text@ == self.spec_message(),
    {
        match self {
            GameError::InsufficientPlayers => "Need at least 2 players to start a hand".to_string(),
            GameError::InvalidPlayerIndex => "Invalid player index".to_string(),
            GameError::IllegalCheck => "Cannot check when there's a bet to call".to_string(),
            GameError::InsufficientFunds => "Insufficient funds".to_string(),
            GameError::InvalidAmount => "Bet amount must be positive".to_string(),
        }
    }
}

} // verus!
