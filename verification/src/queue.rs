//! The event queue: events wait here, in the order in which they were
//! enqueued, until a dispatch cycle drains them.

use crate::ids::{EntityId, EventType, ObserverKey};
use vstd::prelude::*;

verus! {

/// An event as it was enqueued: its type, the entity it is aimed at and an
/// opaque payload that is handed through to the callbacks. Nothing that
/// happens to the scene afterwards changes it.
#[derive(Clone, Copy, Debug, PartialEq, Eq, Structural)]
pub struct QueuedEvent {
    pub event_type: EventType,
    pub target: EntityId,
    pub payload: u64,
}

impl QueuedEvent {
    /// The key under which observers of this event are registered.
    pub open spec fn key(self) -> ObserverKey {
        ObserverKey { watched: self.target, event_type: self.event_type }
    }
}

/// A first-in, first-out queue of events. Its view is the sequence of
/// waiting events, oldest first.
pub struct EventQueue {
    events: Vec<QueuedEvent>,
}

impl View for EventQueue {
    type V = Seq<QueuedEvent>;

    closed spec fn view(&self) -> Seq<QueuedEvent> {
        self.events@
    }
}

impl EventQueue {
    /// An empty queue.
    pub fn new() -> (queue: EventQueue)
        ensures
            queue@ == Seq::<QueuedEvent>::empty(),
    {
        EventQueue { events: Vec::new() }
    }

    /// The number of waiting events.
    pub fn len(&self) -> (n: usize)
        ensures
            n == self@.len(),
    {
        self.events.len()
    }

    /// Whether no event is waiting.
    pub fn is_empty(&self) -> (yes: bool)
        ensures
            yes == (self@.len() == 0),
    {
        self.events.len() == 0
    }

    /// Appends `event` behind the waiting events.
    pub fn enqueue(&mut self, event: QueuedEvent)
        ensures
            final(self)@ == old(self)@.push(event),
    {
        self.events.push(event);
    }

    /// Appends every event of `events`, in their order, and leaves `events`
    /// empty.
    pub fn enqueue_all(&mut self, events: &mut Vec<QueuedEvent>)
        ensures
            final(self)@ == old(self)@ + old(events)@,
            final(events)@ == Seq::<QueuedEvent>::empty(),
    {
        self.events.append(events);
    }

    /// Takes every waiting event out of the queue and returns them, oldest
    /// first. Each event is handed out once.
    pub fn drain(&mut self) -> (batch: Vec<QueuedEvent>)
        ensures
            batch@ == old(self)@,
            final(self)@ == Seq::<QueuedEvent>::empty(),
    {
        let mut batch: Vec<QueuedEvent> = Vec::new();
        batch.append(&mut self.events);
        batch
    }
}

} // verus!
