//! What a read or a write on the index alone can fail with.

use vstd::prelude::*;

verus! {

#[derive(Debug, Clone, PartialEq)]
pub enum RadixError {
    InvalidKey(String),
    KeyNotFound(String),
    SerializationFailure,
}

} // verus!
