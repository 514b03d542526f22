//! The errors that the library reports.

use vstd::prelude::*;
use vstd::string::*;

verus! {

/// What can go wrong in the library or around it. Each variant carries the
/// text that describes the failure.
#[derive(Debug)]
pub enum GameError {
    /// A read, a write or a connection failed.
    IoError(String),
    /// A message could not be encoded or decoded.
    SerializationError(String),
    /// The system clock could not be read.
    TimeError(String),
    /// A rule of the game was broken.
    GameError(String),
    /// A peer or a channel did not answer as the protocol asks.
    NetworkError(String),
}

impl GameError {
    /// The words that introduce an error of this kind.
    pub open spec fn prefix(&self) -> Seq<char> {
        match self {
            GameError::IoError(_) => "IO error: "@,
            GameError::SerializationError(_) => "Serialization error: "@,
            GameError::TimeError(_) => "Time error: "@,
            GameError::GameError(_) => "Game error: "@,
            GameError::NetworkError(_) => "Network error: "@,
        }
    }

    /// The text that the error carries.
    pub open spec fn detail(&self) -> Seq<char> {
        match self {
            GameError::IoError(text) => text@,
            GameError::SerializationError(text) => text@,
            GameError::TimeError(text) => text@,
            GameError::GameError(text) => text@,
            GameError::NetworkError(text) => text@,
        }
    }

    /// The error in words: the kind, then the text that it carries.
    pub fn message(&self) -> (text: String)
        ensures
            text@ == self.prefix() + self.detail(),
    {
        match self {
            GameError::IoError(detail) => String::from_str("IO error: ").concat(detail.as_str()),
            GameError::SerializationError(detail) => String::from_str(
                "Serialization error: ",
            ).concat(detail.as_str()),
            GameError::TimeError(detail) => String::from_str("Time error: ").concat(
                detail.as_str(),
            ),
            GameError::GameError(detail) => String::from_str("Game error: ").concat(
                detail.as_str(),
            ),
            GameError::NetworkError(detail) => String::from_str("Network error: ").concat(
                detail.as_str(),
            ),
        }
    }
}

} // verus!
