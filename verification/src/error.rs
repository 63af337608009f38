use vstd::prelude::*;

verus! {

/// What a query can fail with.
#[derive(Clone, Copy, Debug, PartialEq, Eq, Structural)]
pub enum Error {
    /// A history step names a player action that the node does not offer.
    ActionNotFound,
    /// A dealt card has neither a branch of its own nor an isomorphic one.
    CardNotReachable,
    /// A board has a number of cards that no street has.
    InvalidBoardLength,
    /// A history token is not a well-formed action.
    MalformedActionToken,
}

impl Error {
    /// The text shown to the user for this error.
    pub open spec fn message_spec(self) -> Seq<char> {
        match self {
            Error::ActionNotFound => "Action not found"@,
            Error::CardNotReachable => "Card not reachable"@,
            Error::InvalidBoardLength => "Invalid board length"@,
            Error::MalformedActionToken => "Malformed action token"@,
        }
    }

    pub fn message(&self) -> (text: String)
        ensures
            text@ == self.message_spec(),
    {
        match self {
            Error::ActionNotFound => String::from_str("Action not found"),
            Error::CardNotReachable => String::from_str("Card not reachable"),
            Error::InvalidBoardLength => String::from_str("Invalid board length"),
            Error::MalformedActionToken => String::from_str("Malformed action token"),
        }
    }
}

} // verus!
