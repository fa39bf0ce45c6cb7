//! What is told to subscribers.

use vstd::prelude::*;

verus! {

#[derive(Debug, PartialEq)]
pub enum Event {
    Get { key: String, result: String },
    Put { key: String, value: String },
    Delete { key: String },
}

/// An `Event` with its texts as character sequences.
pub enum EventModel {
    Get { key: Seq<char>, result: Seq<char> },
    Put { key: Seq<char>, value: Seq<char> },
    Delete { key: Seq<char> },
}

impl View for Event {
    type V = EventModel;

    open spec fn view(&self) -> EventModel {
        match self {
            Event::Get { key, result } => EventModel::Get { key: key@, result: result@ },
            Event::Put { key, value } => EventModel::Put { key: key@, value: value@ },
            Event::Delete { key } => EventModel::Delete { key: key@ },
        }
    }
}

impl Clone for Event {
    fn clone(&self) -> (copy: Self)
        ensures
            copy@ == self@,
    {
        match self {
            Event::Get { key, result } => Event::Get { key: key.clone(), result: result.clone() },
            Event::Put { key, value } => Event::Put { key: key.clone(), value: value.clone() },
            Event::Delete { key } => Event::Delete { key: key.clone() },
        }
    }
}

} // verus!
