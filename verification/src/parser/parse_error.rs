//! What can be wrong with a command of the first form of the protocol.

use vstd::prelude::*;
use vstd::string::StringExecFns;

verus! {

#[derive(Debug, PartialEq)]
pub enum ParseError {
    InvalidCommand(String),
    MissingKey,
    MissingValue,
}

/// A `ParseError` with its text as a character sequence.
pub enum ParseErrorModel {
    InvalidCommand(Seq<char>),
    MissingKey,
    MissingValue,
}

impl View for ParseError {
    type V = ParseErrorModel;

    open spec fn view(&self) -> ParseErrorModel {
        match self {
            ParseError::InvalidCommand(s) => ParseErrorModel::InvalidCommand(s@),
            ParseError::MissingKey => ParseErrorModel::MissingKey,
            ParseError::MissingValue => ParseErrorModel::MissingValue,
        }
    }
}

impl ParseErrorModel {
    pub open spec fn message(self) -> Seq<char> {
        match self {
            ParseErrorModel::InvalidCommand(command) => "Invalid command: "@ + command,
            ParseErrorModel::MissingKey => "Missing key"@,
            ParseErrorModel::MissingValue => "Missing value"@,
        }
    }
}

impl ParseError {
    /// A sentence that says what was wrong.
    pub fn message(&self) -> (text: String)
        ensures
            text@ == self@.message(),
    {
        match self {
            ParseError::InvalidCommand(command) => String::from_str("Invalid command: ").concat(
                command.as_str(),
            ),
            ParseError::MissingKey => String::from_str("Missing key"),
            ParseError::MissingValue => String::from_str("Missing value"),
        }
    }
}

} // verus!
