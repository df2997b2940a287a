//! The game description model: the rules and representations shared by the
//! puzzles of one game type.

use vstd::prelude::*;
use vstd::string::*;

verus! {

/// Errors raised while reading a game definition.
#[derive(Debug)]
pub enum GameError {
    /// The document does not describe a valid game.
    InvalidDefinition(String),
}

impl GameError {
    /// The human-readable text of this error.
    pub open spec fn message_spec(&self) -> Seq<char> {
        match self {
            GameError::InvalidDefinition(s) => "Invalid game definition: "@ + s@,
        }
    }

    /// Renders the error as text, exactly as `message_spec` states.
    pub fn message(&self) -> (r: String)
        ensures
            r@ == self.message_spec(),
    {
        match self {
            GameError::InvalidDefinition(s) => {
                String::from_str("Invalid game definition: ").concat(s.as_str())
            },
        }
    }
}

/// A description of one abstract board game: its rules and how boards and
/// moves are written down.
#[derive(Debug, Clone)]
pub struct Game {
    pub game_type: String,
    pub rules: String,
    pub board_representation: String,
    pub move_representation: String,
}

} // verus!
