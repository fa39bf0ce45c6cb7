//! What can go wrong with the file behind the log.

use vstd::prelude::*;
use vstd::string::StringExecFns;

verus! {

/// A failure of the log's file. Each variant holds what the system said of
/// the failure, as text.
#[derive(Debug, PartialEq)]
pub enum WALError {
    ReadError(String),
    WriteError(String),
    OpenError(String),
}

/// A `WALError` with its text as a character sequence.
pub enum WALErrorModel {
    ReadError(Seq<char>),
    WriteError(Seq<char>),
    OpenError(Seq<char>),
}

impl View for WALError {
    type V = WALErrorModel;

    open spec fn view(&self) -> WALErrorModel {
        match self {
            WALError::ReadError(s) => WALErrorModel::ReadError(s@),
            WALError::WriteError(s) => WALErrorModel::WriteError(s@),
            WALError::OpenError(s) => WALErrorModel::OpenError(s@),
        }
    }
}

impl WALErrorModel {
    pub open spec fn message(self) -> Seq<char> {
        match self {
            WALErrorModel::ReadError(detail) => "Cannot read from log file: "@ + detail,
            WALErrorModel::WriteError(detail) => "Cannot write to log file: "@ + detail,
            WALErrorModel::OpenError(detail) => "Cannot open log file: "@ + detail,
        }
    }
}

impl WALError {
    /// A sentence that says what failed.
    pub fn message(&self) -> (text: String)
        ensures
            text@ == self@.message(),
    {
        match self {
            WALError::ReadError(detail) => String::from_str("Cannot read from log file: ").concat(
                detail.as_str(),
            ),
            WALError::WriteError(detail) => String::from_str("Cannot write to log file: ").concat(
                detail.as_str(),
            ),
            WALError::OpenError(detail) => String::from_str("Cannot open log file: ").concat(
                detail.as_str(),
            ),
        }
    }
}

} // verus!
