//! What can be wrong with a command or a value as text.

use vstd::prelude::*;
use vstd::string::StringExecFns;

verus! {

#[derive(Debug, PartialEq)]
pub enum ParseError {
    InvalidCommand(String),
    MissingKey,
    MissingValue,
    InvalidValue(String),
}

/// A `ParseError` with its texts as character sequences.
pub enum ParseErrorModel {
    InvalidCommand(Seq<char>),
    MissingKey,
    MissingValue,
    InvalidValue(Seq<char>),
}

impl View for ParseError {
    type V = ParseErrorModel;

    open spec fn view(&self) -> ParseErrorModel {
        match self {
            ParseError::InvalidCommand(s) => ParseErrorModel::InvalidCommand(s@),
            ParseError::MissingKey => ParseErrorModel::MissingKey,
            ParseError::MissingValue => ParseErrorModel::MissingValue,
            ParseError::InvalidValue(s) => ParseErrorModel::InvalidValue(s@),
        }
    }
}

impl ParseErrorModel {
    pub open spec fn message(self) -> Seq<char> {
        match self {
            ParseErrorModel::InvalidCommand(command) => "Invalid command: "@ + command,
            ParseErrorModel::MissingKey => "Missing key"@,
            ParseErrorModel::MissingValue => "Missing value"@,
            ParseErrorModel::InvalidValue(value) => "Invalid value: "@ + value,
        }
    }
}

impl ParseError {
    /// A sentence that says what was wrong.
    pub fn message(&self) -> (text: String)
        ensures
            text@ == self@.message(),
    {
        match self {
            ParseError::InvalidCommand(command) => String::from_str("Invalid command: ").concat(
                command.as_str(),
            ),
            ParseError::MissingKey => String::from_str("Missing key"),
            ParseError::MissingValue => String::from_str("Missing value"),
            ParseError::InvalidValue(value) => String::from_str("Invalid value: ").concat(
                value.as_str(),
            ),
        }
    }
}

} // verus!
