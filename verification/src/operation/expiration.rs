//! The moment at which a key is to be removed.

use crate::atomicheap::Ranked;
use std::cmp::Ordering;
use vstd::prelude::*;
use vstd::std_specs::cmp::PartialOrdSpecImpl;

verus! {

/// A key and the time, in milliseconds since the Unix epoch, at which it
/// expires.
#[derive(Debug, PartialEq, Eq)]
pub struct Expiration {
    pub key: String,
    pub timestamp: i64,
}

impl Expiration {
    pub fn new(key: String, timestamp: i64) -> (e: Self)
        ensures
            e.key == key,
            e.timestamp == timestamp,
    {
        Expiration { key, timestamp }
    }
}

impl Clone for Expiration {
    fn clone(&self) -> (copy: Self)
        ensures
            copy == *self,
    {
        Expiration { key: self.key.clone(), timestamp: self.timestamp }
    }
}

/// Expirations are ordered by time, the later one being the lesser: the
/// greatest of a set is the one that is due first.
impl PartialOrd for Expiration {
    fn partial_cmp(&self, other: &Self) -> (r: Option<Ordering>) {
        if other.timestamp < self.timestamp {
            Some(Ordering::Less)
        } else if other.timestamp > self.timestamp {
            Some(Ordering::Greater)
        } else {
            Some(Ordering::Equal)
        }
    }
}

impl PartialOrdSpecImpl for Expiration {
    open spec fn obeys_partial_cmp_spec() -> bool {
        true
    }

    open spec fn partial_cmp_spec(&self, other: &Self) -> Option<Ordering> {
        if other.timestamp < self.timestamp {
            Some(Ordering::Less)
        } else if other.timestamp > self.timestamp {
            Some(Ordering::Greater)
        } else {
            Some(Ordering::Equal)
        }
    }
}

impl Ranked for Expiration {
    open spec fn rank(&self) -> int {
        -self.timestamp
    }

    fn outranks(&self, other: &Self) -> (b: bool) {
        self.timestamp < other.timestamp
    }

    fn duplicate(&self) -> (copy: Self) {
        self.clone()
    }
}

} // verus!
