//! Failures of the engine, told apart by what they are about.

use vstd::prelude::*;
use vstd::string::StringExecFns;

verus! {

#[derive(Debug, PartialEq)]
pub enum MapError {
    KeyNotFound(String),
    InvalidKey(String),
    EmptyValue(String),
    RestoreError(String),
}

/// A `MapError` with its text as a character sequence.
pub enum MapErrorModel {
    KeyNotFound(Seq<char>),
    InvalidKey(Seq<char>),
    EmptyValue(Seq<char>),
    RestoreError(Seq<char>),
}

impl View for MapError {
    type V = MapErrorModel;

    open spec fn view(&self) -> MapErrorModel {
        match self {
            MapError::KeyNotFound(s) => MapErrorModel::KeyNotFound(s@),
            MapError::InvalidKey(s) => MapErrorModel::InvalidKey(s@),
            MapError::EmptyValue(s) => MapErrorModel::EmptyValue(s@),
            MapError::RestoreError(s) => MapErrorModel::RestoreError(s@),
        }
    }
}

impl MapErrorModel {
    pub open spec fn message(self) -> Seq<char> {
        match self {
            MapErrorModel::KeyNotFound(key) => "Key not found: "@ + key,
            MapErrorModel::InvalidKey(key) => "Invalid key: "@ + key,
            MapErrorModel::EmptyValue(key) => "No value found at: "@ + key,
            MapErrorModel::RestoreError(error) => "Failed to restore db from file: "@ + error,
        }
    }
}

impl MapError {
    /// A sentence that says what failed.
    pub fn message(&self) -> (text: String)
        ensures
            text@ == self@.message(),
    {
        match self {
            MapError::KeyNotFound(key) => String::from_str("Key not found: ").concat(key.as_str()),
            MapError::InvalidKey(key) => String::from_str("Invalid key: ").concat(key.as_str()),
            MapError::EmptyValue(key) => String::from_str("No value found at: ").concat(
                key.as_str(),
            ),
            MapError::RestoreError(error) => String::from_str(
                "Failed to restore db from file: ",
            ).concat(error.as_str()),
        }
    }
}

} // verus!
