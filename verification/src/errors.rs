//! The closed set of failures that reach a client, each with its code and
//! the line of text it is reported as.

use crate::num::{i64_chars, int_text};
use crate::text::from_chars;
use vstd::prelude::*;
use vstd::string::StringExecFns;

verus! {

#[derive(PartialEq, Debug)]
pub enum TransactionError {
    UnknownCommand(String),
    MissingKey,
    InvalidKey(String),
    MissingValue,
    InvalidValue(String),
    LogWriteFail(String),
    LogReadFail(String),
    LogLoadFail,
    KeyNotFound(String),
    RestoreError(String),
    OperationFailure(String),
    InternalError,
    SerializationFailure,
    MissingCommand,
    InvalidExpiration(i64),
}

/// A `TransactionError` with its texts as character sequences.
pub enum ErrorModel {
    UnknownCommand(Seq<char>),
    MissingKey,
    InvalidKey(Seq<char>),
    MissingValue,
    InvalidValue(Seq<char>),
    LogWriteFail(Seq<char>),
    LogReadFail(Seq<char>),
    LogLoadFail,
    KeyNotFound(Seq<char>),
    RestoreError(Seq<char>),
    OperationFailure(Seq<char>),
    InternalError,
    SerializationFailure,
    MissingCommand,
    InvalidExpiration(i64),
}

impl View for TransactionError {
    type V = ErrorModel;

    open spec fn view(&self) -> ErrorModel {
        match self {
            TransactionError::UnknownCommand(s) => ErrorModel::UnknownCommand(s@),
            TransactionError::MissingKey => ErrorModel::MissingKey,
            TransactionError::InvalidKey(s) => ErrorModel::InvalidKey(s@),
            TransactionError::MissingValue => ErrorModel::MissingValue,
            TransactionError::InvalidValue(s) => ErrorModel::InvalidValue(s@),
            TransactionError::LogWriteFail(s) => ErrorModel::LogWriteFail(s@),
            TransactionError::LogReadFail(s) => ErrorModel::LogReadFail(s@),
            TransactionError::LogLoadFail => ErrorModel::LogLoadFail,
            TransactionError::KeyNotFound(s) => ErrorModel::KeyNotFound(s@),
            TransactionError::RestoreError(s) => ErrorModel::RestoreError(s@),
            TransactionError::OperationFailure(s) => ErrorModel::OperationFailure(s@),
            TransactionError::InternalError => ErrorModel::InternalError,
            TransactionError::SerializationFailure => ErrorModel::SerializationFailure,
            TransactionError::MissingCommand => ErrorModel::MissingCommand,
            TransactionError::InvalidExpiration(t) => ErrorModel::InvalidExpiration(*t),
        }
    }
}

impl ErrorModel {
    /// The three-character code of the failure.
    pub open spec fn code(self) -> Seq<char> {
        match self {
            ErrorModel::UnknownCommand(_) => "E01"@,
            ErrorModel::MissingKey => "E02"@,
            ErrorModel::InvalidKey(_) => "E03"@,
            ErrorModel::MissingValue => "E04"@,
            ErrorModel::InvalidValue(_) => "E05"@,
            ErrorModel::LogWriteFail(_) => "E06"@,
            ErrorModel::LogReadFail(_) => "E07"@,
            ErrorModel::LogLoadFail => "E08"@,
            ErrorModel::KeyNotFound(_) => "E09"@,
            ErrorModel::RestoreError(_) => "E10"@,
            ErrorModel::OperationFailure(_) => "E11"@,
            ErrorModel::InternalError => "E12"@,
            ErrorModel::SerializationFailure => "E13"@,
            ErrorModel::MissingCommand => "E14"@,
            ErrorModel::InvalidExpiration(_) => "E15"@,
        }
    }

    /// What follows the code and the colon in the reported line.
    pub open spec fn detail(self) -> Seq<char> {
        match self {
            ErrorModel::UnknownCommand(command) => ": Command "@ + command + " not recognized"@,
            ErrorModel::MissingKey => ": Missing key"@,
            ErrorModel::InvalidKey(key) => ": Invalid key \""@ + key + "\""@,
            ErrorModel::MissingValue => ": Missing value"@,
            ErrorModel::InvalidValue(value) => ": Invalid value "@ + value,
            ErrorModel::LogWriteFail(statement) => ": Failed to write statement to log - "@
                + statement,
            ErrorModel::LogReadFail(line) => ": Failed to read line "@ + line + " from log"@,
            ErrorModel::LogLoadFail => ": Failed to load logfile"@,
            ErrorModel::KeyNotFound(key) => ": Key "@ + key + " not found"@,
            ErrorModel::RestoreError(message) => ": Unable to restore database from logs - "@
                + message,
            ErrorModel::OperationFailure(message) => ": Unable to complete operation - "@
                + message,
            ErrorModel::InternalError => ": An internal server error occurred"@,
            ErrorModel::SerializationFailure => ": Unable to serialize request into JSON"@,
            ErrorModel::MissingCommand => ": Invalid command"@,
            ErrorModel::InvalidExpiration(timestamp) => ": Invalid expiration "@ + int_text(
                timestamp as int,
            ),
        }
    }

    /// The line a client receives: the code, a colon and the detail.
    pub open spec fn message(self) -> Seq<char> {
        self.code() + self.detail()
    }
}

impl TransactionError {
    /// The line a client receives for this failure.
    pub fn message(&self) -> (text: String)
        ensures
            text@ == self@.message(),
    {
        let mut text = self.get_code();
        match self {
            TransactionError::UnknownCommand(command) => {
                text.append(": Command ");
                text.append(command.as_str());
                text.append(" not recognized");
            },
            TransactionError::MissingKey => {
                text.append(": Missing key");
            },
            TransactionError::InvalidKey(key) => {
                text.append(": Invalid key \"");
                text.append(key.as_str());
                text.append("\"");
            },
            TransactionError::MissingValue => {
                text.append(": Missing value");
            },
            TransactionError::InvalidValue(value) => {
                text.append(": Invalid value ");
                text.append(value.as_str());
            },
            TransactionError::LogWriteFail(statement) => {
                text.append(": Failed to write statement to log - ");
                text.append(statement.as_str());
            },
            TransactionError::LogReadFail(line) => {
                text.append(": Failed to read line ");
                text.append(line.as_str());
                text.append(" from log");
            },
            TransactionError::LogLoadFail => {
                text.append(": Failed to load logfile");
            },
            TransactionError::KeyNotFound(key) => {
                text.append(": Key ");
                text.append(key.as_str());
                text.append(" not found");
            },
            TransactionError::RestoreError(message) => {
                text.append(": Unable to restore database from logs - ");
                text.append(message.as_str());
            },
            TransactionError::OperationFailure(message) => {
                text.append(": Unable to complete operation - ");
                text.append(message.as_str());
            },
            TransactionError::InternalError => {
                text.append(": An internal server error occurred");
            },
            TransactionError::SerializationFailure => {
                text.append(": Unable to serialize request into JSON");
            },
            TransactionError::MissingCommand => {
                text.append(": Invalid command");
            },
            TransactionError::InvalidExpiration(timestamp) => {
                text.append(": Invalid expiration ");
                let digits = from_chars(&i64_chars(*timestamp));
                text.append(digits.as_str());
            },
        }
        assert(text@ =~= self@.message());
        text
    }

    /// The three-character code of this failure.
    pub fn get_code(&self) -> (code: String)
        ensures
            code@ == self@.code(),
    {
        match self {
            TransactionError::UnknownCommand(_) => String::from_str("E01"),
            TransactionError::MissingKey => String::from_str("E02"),
            TransactionError::InvalidKey(_) => String::from_str("E03"),
            TransactionError::MissingValue => String::from_str("E04"),
            TransactionError::InvalidValue(_) => String::from_str("E05"),
            TransactionError::LogWriteFail(_) => String::from_str("E06"),
            TransactionError::LogReadFail(_) => String::from_str("E07"),
            TransactionError::LogLoadFail => String::from_str("E08"),
            TransactionError::KeyNotFound(_) => String::from_str("E09"),
            TransactionError::RestoreError(_) => String::from_str("E10"),
            TransactionError::OperationFailure(_) => String::from_str("E11"),
            TransactionError::InternalError => String::from_str("E12"),
            TransactionError::SerializationFailure => String::from_str("E13"),
            TransactionError::MissingCommand => String::from_str("E14"),
            TransactionError::InvalidExpiration(_) => String::from_str("E15"),
        }
    }
}

} // verus!
