//! Who is told of events.

use super::event::{Event, EventModel};
use vstd::prelude::*;

verus! {

/// Something that takes note of each event it is told of.
pub trait Subscriber: Send {
    /// The events this subscriber has been told of, first to last.
    spec fn seen(&self) -> Seq<EventModel>;

    fn notify(&mut self, event: &Event)
        ensures
            final(self).seen() == old(self).seen().push(event@),
    ;
}

/// A subscriber that keeps every event it is told of.
pub struct Recorder {
    events: Vec<Event>,
}

/// The events of a list as values.
pub open spec fn event_models(events: Seq<Event>) -> Seq<EventModel> {
    Seq::new(events.len(), |i: int| events[i]@)
}

impl Recorder {
    pub fn new() -> (recorder: Self)
        ensures
            recorder.seen() == Seq::<EventModel>::empty(),
    {
        let recorder = Recorder { events: Vec::new() };
        assert(recorder.seen() =~= Seq::<EventModel>::empty());
        recorder
    }

    /// How many events have been kept.
    pub fn len(&self) -> (n: usize)
        ensures
            n == self.seen().len(),
    {
        self.events.len()
    }

    /// The event kept at position `i`.
    pub fn event(&self, i: usize) -> (event: &Event)
        requires
            i < self.seen().len(),
        ensures
            event@ == self.seen()[i as int],
    {
        &self.events[i]
    }
}

impl Subscriber for Recorder {
    closed spec fn seen(&self) -> Seq<EventModel> {
        event_models(self.events@)
    }

    fn notify(&mut self, event: &Event) {
        self.events.push(event.clone());
        assert(self.seen() =~= old(self).seen().push(event@));
    }
}

} // verus!
