//! Identifiers shared by every part of the mechanism.

use vstd::prelude::*;

verus! {

/// An opaque, stable name for an entity. Identifiers are handed out in
/// increasing order and never reused.
#[derive(Clone, Copy, Debug, PartialEq, Eq, Structural, Hash)]
pub struct EntityId(pub u64);

/// An opaque, stable name for one observer component.
#[derive(Clone, Copy, Debug, PartialEq, Eq, Structural, Hash)]
pub struct ObserverId(pub u64);

/// Names the callback that an observer runs. The mechanism never looks
/// inside: it hands the name back to the host at invocation time.
#[derive(Clone, Copy, Debug, PartialEq, Eq, Structural, Hash)]
pub struct CallbackId(pub u64);

/// The kind of a data component; an entity carries at most one value per kind.
#[derive(Clone, Copy, Debug, PartialEq, Eq, Structural, Hash)]
pub struct ComponentKind(pub u32);

/// The type of an event. Zero is the null type, which no event or observer
/// may carry.
#[derive(Clone, Copy, Debug, PartialEq, Eq, Structural, Hash)]
pub struct EventType(pub u32);

impl EventType {
    /// Whether this is a usable event type, that is, not the null type.
    pub open spec fn valid(self) -> bool {
        self.0 != 0
    }

    /// Tests whether this is a usable event type.
    pub fn is_valid(&self) -> (ok: bool)
        ensures
            ok == self.valid(),
    {
        self.0 != 0
    }
}

/// What an observer reacts to: events of one type aimed at one entity.
#[derive(Clone, Copy, Debug, PartialEq, Eq, Structural, Hash)]
pub struct ObserverKey {
    pub watched: EntityId,
    pub event_type: EventType,
}

/// Why an operation was turned down. Every variant is an ordinary,
/// recoverable outcome.
#[derive(Clone, Copy, Debug, PartialEq, Eq, Structural)]
pub enum Error {
    /// The entity or observer named by the caller does not exist (any more).
    NotFound,
    /// The null event type was given.
    InvalidEventType,
    /// Every identifier has been handed out.
    Exhausted,
}

/// The first place at which `id` stands in `ids`, or their length where it
/// stands nowhere.
pub(crate) fn position_of(ids: &Vec<ObserverId>, id: ObserverId) -> (at: usize)
    ensures
        at <= ids.len(),
        at < ids.len() ==> ids[at as int] == id,
        at == ids.len() ==> !ids@.contains(id),
{
    let mut i: usize = 0;
    while i < ids.len()
        invariant
            i <= ids.len(),
            forall|j: int| 0 <= j < i ==> ids[j] != id,
        decreases ids.len() - i,
    {
        if ids[i] == id {
            return i;
        }
        i += 1;
    }
    i
}

} // verus!
