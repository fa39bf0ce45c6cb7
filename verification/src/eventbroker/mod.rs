//! Tells every subscriber of every event.

pub mod event;
pub mod subscriber;

use self::event::{Event, EventModel};
use self::subscriber::Subscriber;
use vstd::prelude::*;

verus! {

/// A list of subscribers of one kind.
pub struct EventBroker<S: Subscriber> {
    subscribers: Vec<S>,
}

impl<S: Subscriber> EventBroker<S> {
    /// How many subscribers there are.
    pub closed spec fn count(&self) -> nat {
        self.subscribers.len() as nat
    }

    /// What the subscriber at position `i` has been told of.
    pub closed spec fn seen_by(&self, i: int) -> Seq<EventModel> {
        self.subscribers[i].seen()
    }

    pub fn new() -> (broker: Self)
        ensures
            broker.count() == 0,
    {
        EventBroker { subscribers: Vec::new() }
    }

    /// Adds `subscriber` after those that are there.
    pub fn subscribe(&mut self, subscriber: S)
        ensures
            final(self).count() == old(self).count() + 1,
            final(self).seen_by(old(self).count() as int) == subscriber.seen(),
            forall|i: int|
                0 <= i < old(self).count() ==> final(self).seen_by(i) == old(self).seen_by(i),
    {
        self.subscribers.push(subscriber);
    }

    /// The subscriber at position `i`.
    pub fn subscriber(&self, i: usize) -> (subscriber: &S)
        requires
            i < self.count(),
        ensures
            subscriber.seen() == self.seen_by(i as int),
    {
        &self.subscribers[i]
    }

    /// Tells each subscriber of `event`, once.
    pub fn publish(&mut self, event: &Event)
        ensures
            final(self).count() == old(self).count(),
            forall|i: int|
                0 <= i < old(self).count() ==> final(self).seen_by(i) == old(self).seen_by(i).push(
                    event@,
                ),
    {
        let mut i: usize = 0;
        while i < self.subscribers.len()
            invariant
                i <= self.subscribers.len(),
                self.subscribers.len() == old(self).subscribers.len(),
                forall|j: int|
                    0 <= j < i ==> (#[trigger] self.subscribers[j]).seen() == old(self).subscribers[j].seen().push(event@),
                forall|j: int|
                    i <= j < self.subscribers.len() ==> (#[trigger] self.subscribers[j]) == old(self).subscribers[j],
            decreases self.subscribers.len() - i,
        {
            self.subscribers[i].notify(event);
            i += 1;
        }
    }
}

} // verus!
