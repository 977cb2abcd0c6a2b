use observer_dispatch::commands::{Applied, Command};
use observer_dispatch::dispatch::{Invocation, Reaction};
use observer_dispatch::ids::{CallbackId, EntityId, Error, EventType, ObserverId};
use observer_dispatch::queue::QueuedEvent;
use observer_dispatch::world::{Callbacks, Quiet, World};

const DOWN: EventType = EventType(1);

/// Counts the calls of each callback and asks for nothing.
struct Counter {
    calls: Vec<Invocation>,
}

impl Callbacks for Counter {
    fn invoke(&mut self, invocation: &Invocation) -> Reaction {
        self.calls.push(*invocation);
        Reaction::none()
    }
}

#[test]
fn an_observer_is_invoked_exactly_once() {
    let mut world = World::new();
    let x = world.spawn(&vec![]).unwrap();
    let o = world.attach_observer(x, DOWN, CallbackId(7)).unwrap();
    assert_eq!(world.enqueue_event(DOWN, x, 42), Ok(()));
    let mut counter = Counter { calls: Vec::new() };
    let report = world.run_cycle(&mut counter);
    let expected = Invocation {
        observer: o,
        callback: CallbackId(7),
        event: QueuedEvent { event_type: DOWN, target: x, payload: 42 },
    };
    assert_eq!(report.invocations, vec![expected]);
    assert_eq!(counter.calls, vec![expected]);
    assert_eq!(world.pending_events(), 0);
    // The event is gone: a second cycle invokes nothing.
    let report = world.run_cycle(&mut counter);
    assert!(report.invocations.is_empty());
    assert_eq!(counter.calls.len(), 1);
}

#[test]
fn a_detach_applied_before_resolution_skips_the_callback() {
    let mut world = World::new();
    let x = world.spawn(&vec![]).unwrap();
    let o = world.attach_observer(x, DOWN, CallbackId(1)).unwrap();
    world.defer(Command::DetachObserver(o));
    assert_eq!(world.enqueue_event(DOWN, x, 0), Ok(()));
    // The sync point falls between enqueue and dispatch.
    assert_eq!(world.sync(), vec![Ok(Applied::Detached)]);
    let mut counter = Counter { calls: Vec::new() };
    let report = world.run_cycle(&mut counter);
    assert!(report.invocations.is_empty());
    assert!(counter.calls.is_empty());
    assert!(!world.has_observer(o));
    assert!(world.lookup(x, DOWN).is_empty());
}

#[test]
fn detaching_an_unknown_observer_is_not_found() {
    let mut world = World::new();
    let x = world.spawn(&vec![]).unwrap();
    let o = world.attach_observer(x, DOWN, CallbackId(1)).unwrap();
    assert_eq!(world.detach_observer(ObserverId(99)), Err(Error::NotFound));
    assert!(world.has_observer(o));
    assert_eq!(world.lookup(x, DOWN), vec![o]);
}

#[test]
fn an_event_for_a_despawned_owner_resolves_to_no_observer() {
    let mut world = World::new();
    let x = world.spawn(&vec![]).unwrap();
    let o = world.attach_observer(x, DOWN, CallbackId(1)).unwrap();
    assert_eq!(world.enqueue_event(DOWN, x, 5), Ok(()));
    assert_eq!(world.despawn(x), Ok(vec![o]));
    assert_eq!(world.pending_events(), 1);
    let report = world.run_cycle(&mut Quiet);
    assert!(report.invocations.is_empty());
    assert!(report.answers.is_empty());
    assert_eq!(world.pending_events(), 0);
    assert!(!world.is_live(EntityId(x.0)));
}
