use vstd::prelude::*;

verus! {

/// Errors raised while reading card effects from text.
#[derive(Debug)]
pub enum Error {
    Message(String),
    ExpectedToken,
    ExpectedString,
    /// (what was being read, the token that was found)
    UnexpectedToken(String, String),
    RemainingTokens,
    NoTokens,
    MissingBracket,
    UnbalancedBrackets,
}

/// The mathematical value of an [`Error`].
pub enum ErrorV {
    Message(Seq<char>),
    ExpectedToken,
    ExpectedString,
    UnexpectedToken(Seq<char>, Seq<char>),
    RemainingTokens,
    NoTokens,
    MissingBracket,
    UnbalancedBrackets,
}

impl View for Error {
    type V = ErrorV;

    open spec fn view(&self) -> ErrorV {
        match self {
            Error::Message(m) => ErrorV::Message(m@),
            Error::ExpectedToken => ErrorV::ExpectedToken,
            Error::ExpectedString => ErrorV::ExpectedString,
            Error::UnexpectedToken(a, b) => ErrorV::UnexpectedToken(a@, b@),
            Error::RemainingTokens => ErrorV::RemainingTokens,
            Error::NoTokens => ErrorV::NoTokens,
            Error::MissingBracket => ErrorV::MissingBracket,
            Error::UnbalancedBrackets => ErrorV::UnbalancedBrackets,
        }
    }
}

} // verus!
