use observer_dispatch::commands::{Applied, Command, CommandBuffer};
use observer_dispatch::dispatch::{Invocation, Reaction};
use observer_dispatch::ids::{CallbackId, ComponentKind, EntityId, Error, EventType, ObserverId};
use observer_dispatch::queue::QueuedEvent;
use observer_dispatch::store::{Component, ObserverComponent};
use observer_dispatch::world::{Callbacks, Quiet, World};

const DOWN: EventType = EventType(1);
const UP: EventType = EventType(2);

/// Records every call and answers with what `react` gives for it.
struct Scripted {
    calls: Vec<Invocation>,
    react: fn(&Invocation) -> Reaction,
}

impl Scripted {
    fn new(react: fn(&Invocation) -> Reaction) -> Scripted {
        Scripted { calls: Vec::new(), react }
    }
}

impl Callbacks for Scripted {
    fn invoke(&mut self, invocation: &Invocation) -> Reaction {
        self.calls.push(*invocation);
        (self.react)(invocation)
    }
}

fn nothing(_: &Invocation) -> Reaction {
    Reaction::none()
}

fn down(target: EntityId, payload: u64) -> QueuedEvent {
    QueuedEvent { event_type: DOWN, target, payload }
}

#[test]
fn new_world_is_empty() {
    let mut world = World::new();
    assert!(!world.is_live(EntityId(0)));
    assert!(!world.has_observer(ObserverId(0)));
    assert_eq!(world.pending_events(), 0);
    assert_eq!(world.pending_commands(), 0);
    let report = world.run_cycle(&mut Quiet);
    assert!(report.invocations.is_empty());
    assert!(report.answers.is_empty());
}

#[test]
fn attach_observer_watches_its_own_entity() {
    let mut world = World::new();
    let x = world.spawn(&vec![Component { kind: ComponentKind(1), value: 2 }]).unwrap();
    let o = world.attach_observer(x, DOWN, CallbackId(4)).unwrap();
    assert_eq!(
        world.get_observer(o),
        Some(ObserverComponent { owner: x, watched: x, event_type: DOWN, callback: CallbackId(4) })
    );
    assert_eq!(world.lookup(x, DOWN), vec![o]);
    assert!(world.lookup(x, UP).is_empty());
    assert_eq!(world.get_component(x, ComponentKind(1)), Some(2));
    assert!(world.has_component(x, ComponentKind(1)));
    assert!(world.scene().store().is_live(x));
}

#[test]
fn attach_observer_reports_misuse_at_the_call() {
    let mut world = World::starting_at(5, u64::MAX);
    let x = world.spawn(&vec![]).unwrap();
    assert_eq!(x, EntityId(5));
    assert_eq!(world.attach_observer(x, EventType(0), CallbackId(0)), Err(Error::InvalidEventType));
    assert_eq!(world.attach_observer(EntityId(0), DOWN, CallbackId(0)), Err(Error::NotFound));
    assert_eq!(world.attach_observer(x, DOWN, CallbackId(0)), Err(Error::Exhausted));
    assert!(world.lookup(x, DOWN).is_empty());
}

#[test]
fn enqueue_event_checks_type_and_target() {
    let mut world = World::new();
    let x = world.spawn(&vec![]).unwrap();
    assert_eq!(world.enqueue_event(EventType(0), x, 0), Err(Error::InvalidEventType));
    assert_eq!(world.enqueue_event(EventType(0), EntityId(9), 0), Err(Error::InvalidEventType));
    assert_eq!(world.enqueue_event(DOWN, EntityId(9), 0), Err(Error::NotFound));
    assert_eq!(world.pending_events(), 0);
    assert_eq!(world.enqueue_event(DOWN, x, 0), Ok(()));
    assert_eq!(world.pending_events(), 1);
}

#[test]
fn an_observer_of_another_entity_is_invoked_for_its_target() {
    let mut world = World::new();
    let target = world.spawn(&vec![]).unwrap();
    let owner = world.spawn(&vec![]).unwrap();
    let component =
        ObserverComponent { owner, watched: target, event_type: DOWN, callback: CallbackId(2) };
    let o = world.attach_component(component).unwrap();
    assert_eq!(world.enqueue_event(DOWN, owner, 1), Ok(()));
    assert_eq!(world.enqueue_event(DOWN, target, 2), Ok(()));
    let report = world.run_cycle(&mut Quiet);
    assert_eq!(
        report.invocations,
        vec![Invocation { observer: o, callback: CallbackId(2), event: down(target, 2) }]
    );
}

#[test]
fn events_are_invoked_in_enqueue_order() {
    let mut world = World::new();
    let x = world.spawn(&vec![]).unwrap();
    let y = world.spawn(&vec![]).unwrap();
    let x1 = world.attach_observer(x, DOWN, CallbackId(1)).unwrap();
    let y1 = world.attach_observer(y, DOWN, CallbackId(2)).unwrap();
    let x2 = world.attach_observer(x, DOWN, CallbackId(3)).unwrap();
    assert_eq!(world.enqueue_event(DOWN, x, 10), Ok(()));
    assert_eq!(world.enqueue_event(DOWN, y, 20), Ok(()));
    assert_eq!(world.enqueue_event(DOWN, x, 30), Ok(()));
    let mut host = Scripted::new(nothing);
    let report = world.run_cycle(&mut host);
    let expected = vec![
        Invocation { observer: x1, callback: CallbackId(1), event: down(x, 10) },
        Invocation { observer: x2, callback: CallbackId(3), event: down(x, 10) },
        Invocation { observer: y1, callback: CallbackId(2), event: down(y, 20) },
        Invocation { observer: x1, callback: CallbackId(1), event: down(x, 30) },
        Invocation { observer: x2, callback: CallbackId(3), event: down(x, 30) },
    ];
    assert_eq!(report.invocations, expected);
    assert_eq!(host.calls, expected);
}

fn detach_second(invocation: &Invocation) -> Reaction {
    if invocation.event.payload == 2 {
        Reaction { commands: vec![Command::DetachObserver(invocation.observer)], events: vec![] }
    } else {
        Reaction::none()
    }
}

#[test]
fn a_removal_asked_for_by_a_later_event_does_not_reach_back() {
    let mut world = World::new();
    let x = world.spawn(&vec![]).unwrap();
    let o = world.attach_observer(x, DOWN, CallbackId(1)).unwrap();
    for payload in [1u64, 2, 3] {
        assert_eq!(world.enqueue_event(DOWN, x, payload), Ok(()));
    }
    let mut host = Scripted::new(detach_second);
    let report = world.run_cycle(&mut host);
    // The removal is deferred to the end of the cycle: all three events
    // still find the observer attached, the first one included.
    let payloads: Vec<u64> = report.invocations.iter().map(|call| call.event.payload).collect();
    assert_eq!(payloads, vec![1, 2, 3]);
    assert_eq!(report.answers, vec![Ok(Applied::Detached)]);
    assert!(!world.has_observer(o));
    // From the next cycle on the observer is never invoked again.
    assert_eq!(world.enqueue_event(DOWN, x, 4), Ok(()));
    let report = world.run_cycle(&mut host);
    assert!(report.invocations.is_empty());
    assert_eq!(host.calls.len(), 3);
}

fn detach_self_each_time(invocation: &Invocation) -> Reaction {
    Reaction { commands: vec![Command::DetachObserver(invocation.observer)], events: vec![] }
}

#[test]
fn racing_removals_of_one_observer_are_answered_one_by_one() {
    let mut world = World::new();
    let x = world.spawn(&vec![]).unwrap();
    let o = world.attach_observer(x, DOWN, CallbackId(1)).unwrap();
    assert_eq!(world.enqueue_event(DOWN, x, 1), Ok(()));
    assert_eq!(world.enqueue_event(DOWN, x, 2), Ok(()));
    world.defer(Command::Despawn(x));
    let mut host = Scripted::new(detach_self_each_time);
    let report = world.run_cycle(&mut host);
    assert_eq!(report.invocations.len(), 2);
    // The despawn that waited first takes the observer along; both
    // removals asked for by the callbacks then find it gone.
    assert_eq!(
        report.answers,
        vec![Ok(Applied::Despawned { observers: 1 }), Err(Error::NotFound), Err(Error::NotFound)]
    );
    assert!(!world.has_observer(o));
    assert!(world.lookup(x, DOWN).is_empty());
}

fn chain(invocation: &Invocation) -> Reaction {
    if invocation.event.payload < 3 {
        let next = QueuedEvent {
            event_type: invocation.event.event_type,
            target: invocation.event.target,
            payload: invocation.event.payload + 1,
        };
        Reaction { commands: vec![], events: vec![next] }
    } else {
        Reaction::none()
    }
}

#[test]
fn events_of_a_callback_wait_for_the_next_cycle() {
    let mut world = World::new();
    let x = world.spawn(&vec![]).unwrap();
    world.attach_observer(x, DOWN, CallbackId(1)).unwrap();
    assert_eq!(world.enqueue_event(DOWN, x, 1), Ok(()));
    let mut host = Scripted::new(chain);
    for expected in [1u64, 2, 3] {
        let report = world.run_cycle(&mut host);
        assert_eq!(report.invocations.len(), 1);
        assert_eq!(report.invocations[0].event.payload, expected);
    }
    assert_eq!(world.pending_events(), 0);
    assert!(world.run_cycle(&mut host).invocations.is_empty());
}

fn attach_another(invocation: &Invocation) -> Reaction {
    let component = ObserverComponent {
        owner: invocation.event.target,
        watched: invocation.event.target,
        event_type: invocation.event.event_type,
        callback: CallbackId(50),
    };
    Reaction { commands: vec![Command::AttachObserver(component)], events: vec![] }
}

#[test]
fn an_observer_attached_by_a_callback_joins_at_the_next_cycle() {
    let mut world = World::new();
    let x = world.spawn(&vec![]).unwrap();
    let first = world.attach_observer(x, DOWN, CallbackId(1)).unwrap();
    assert_eq!(world.enqueue_event(DOWN, x, 1), Ok(()));
    assert_eq!(world.enqueue_event(DOWN, x, 2), Ok(()));
    let mut host = Scripted::new(attach_another);
    let report = world.run_cycle(&mut host);
    assert_eq!(report.invocations.len(), 2);
    assert_eq!(
        report.answers,
        vec![Ok(Applied::Attached(ObserverId(1))), Ok(Applied::Attached(ObserverId(2)))]
    );
    assert_eq!(world.lookup(x, DOWN), vec![first, ObserverId(1), ObserverId(2)]);
}

#[test]
fn detach_twice_reports_not_found_and_changes_nothing() {
    let mut world = World::new();
    let x = world.spawn(&vec![]).unwrap();
    let keep = world.attach_observer(x, DOWN, CallbackId(1)).unwrap();
    let gone = world.attach_observer(x, DOWN, CallbackId(2)).unwrap();
    assert!(world.detach_observer(gone).is_ok());
    assert_eq!(world.lookup(x, DOWN), vec![keep]);
    assert_eq!(world.detach_observer(gone), Err(Error::NotFound));
    assert_eq!(world.lookup(x, DOWN), vec![keep]);
    assert!(world.has_observer(keep));
    assert!(world.scene().registry().is_registered(keep));
    assert!(!world.scene().registry().is_registered(gone));
}

#[test]
fn detach_after_despawn_reports_not_found() {
    let mut world = World::new();
    let x = world.spawn(&vec![]).unwrap();
    let y = world.spawn(&vec![]).unwrap();
    let ox = world.attach_observer(x, DOWN, CallbackId(1)).unwrap();
    let oy = world.attach_observer(y, DOWN, CallbackId(2)).unwrap();
    assert_eq!(world.despawn(x), Ok(vec![ox]));
    assert_eq!(world.detach_observer(ox), Err(Error::NotFound));
    assert_eq!(world.despawn(x), Err(Error::NotFound));
    assert_eq!(world.lookup(y, DOWN), vec![oy]);
    assert!(!world.scene().registry().is_registered(ox));
}

#[test]
fn lookup_equals_the_attached_observers_after_a_cycle() {
    let mut world = World::new();
    let x = world.spawn(&vec![]).unwrap();
    let y = world.spawn(&vec![]).unwrap();
    let mut attached = Vec::new();
    for (entity, event_type) in [(x, DOWN), (x, UP), (y, DOWN), (x, DOWN), (y, UP)] {
        attached.push(world.attach_observer(entity, event_type, CallbackId(0)).unwrap());
    }
    world.defer(Command::DetachObserver(attached[0]));
    world.defer(Command::Despawn(y));
    world.defer(Command::AttachObserver(ObserverComponent {
        owner: x,
        watched: x,
        event_type: UP,
        callback: CallbackId(0),
    }));
    assert_eq!(world.pending_commands(), 3);
    assert_eq!(world.enqueue_event(DOWN, x, 0), Ok(()));
    let report = world.run_cycle(&mut Quiet);
    assert_eq!(report.invocations.len(), 2);
    assert_eq!(world.pending_commands(), 0);
    for (entity, event_type) in [(x, DOWN), (x, UP), (y, DOWN), (y, UP)] {
        let listed = world.lookup(entity, event_type);
        let mut expected = Vec::new();
        for raw in 0..10u64 {
            match world.get_observer(ObserverId(raw)) {
                Some(component) if component.watched == entity && component.event_type == event_type => {
                    expected.push(ObserverId(raw));
                }
                _ => {}
            }
        }
        assert_eq!(listed, expected);
    }
    assert_eq!(world.lookup(x, DOWN), vec![attached[3]]);
    assert_eq!(world.lookup(x, UP), vec![attached[1], ObserverId(5)]);
}

#[test]
fn submit_and_sync_apply_a_buffer() {
    let mut world = World::new();
    let x = world.spawn(&vec![]).unwrap();
    let o = world.attach_observer(x, DOWN, CallbackId(1)).unwrap();
    let mut buffer = CommandBuffer::new();
    buffer.push(Command::RemoveObservers(x));
    world.defer(Command::Spawn(vec![]));
    world.submit(&mut buffer);
    assert!(buffer.is_empty());
    assert!(world.has_observer(o));
    assert_eq!(
        world.sync(),
        vec![Ok(Applied::Spawned(EntityId(1))), Ok(Applied::ObserversRemoved { observers: 1 })]
    );
    assert!(!world.has_observer(o));
    assert!(world.is_live(x));
    assert_eq!(world.sync(), vec![]);
}

#[test]
fn a_detach_that_waits_is_applied_after_the_batch() {
    let mut world = World::new();
    let x = world.spawn(&vec![]).unwrap();
    let o = world.attach_observer(x, DOWN, CallbackId(1)).unwrap();
    world.defer(Command::DetachObserver(o));
    assert_eq!(world.enqueue_event(DOWN, x, 0), Ok(()));
    // No sync point before the cycle: the observer is still attached when
    // the event is dispatched, and gone when the cycle has ended.
    let report = world.run_cycle(&mut Quiet);
    assert_eq!(report.invocations.len(), 1);
    assert_eq!(report.answers, vec![Ok(Applied::Detached)]);
    assert!(!world.has_observer(o));
}

fn react_with_everything(invocation: &Invocation) -> Reaction {
    let target = invocation.event.target;
    let mut reaction = Reaction::none();
    assert_eq!(reaction.attach_observer(target, EventType(0), CallbackId(9)), Err(Error::InvalidEventType));
    assert_eq!(reaction.enqueue_event(EventType(0), target, 0), Err(Error::InvalidEventType));
    assert!(reaction.commands.is_empty());
    assert!(reaction.events.is_empty());
    reaction.spawn(vec![Component { kind: ComponentKind(1), value: 1 }]);
    assert_eq!(reaction.attach_observer(target, UP, CallbackId(9)), Ok(()));
    assert_eq!(reaction.attach_observer(EntityId(77), UP, CallbackId(9)), Ok(()));
    reaction.detach_observer(invocation.observer);
    reaction.despawn(EntityId(78));
    assert_eq!(reaction.enqueue_event(UP, target, 5), Ok(()));
    reaction
}

#[test]
fn what_a_callback_asks_for_is_applied_at_the_end_of_the_cycle() {
    let mut world = World::new();
    let x = world.spawn(&vec![]).unwrap();
    let o = world.attach_observer(x, DOWN, CallbackId(1)).unwrap();
    assert_eq!(world.enqueue_event(DOWN, x, 0), Ok(()));
    let mut host = Scripted::new(react_with_everything);
    let report = world.run_cycle(&mut host);
    assert_eq!(report.invocations.len(), 1);
    assert_eq!(
        report.answers,
        vec![
            Ok(Applied::Spawned(EntityId(1))),
            Ok(Applied::Attached(ObserverId(1))),
            Err(Error::NotFound),
            Ok(Applied::Detached),
            Err(Error::NotFound),
        ]
    );
    assert!(!world.has_observer(o));
    assert_eq!(world.get_component(EntityId(1), ComponentKind(1)), Some(1));
    assert_eq!(world.lookup(x, UP), vec![ObserverId(1)]);
    assert_eq!(world.pending_events(), 1);
    // The event that the callback enqueued reaches the observer that it
    // attached, in the next cycle.
    let report = world.run_cycle(&mut Quiet);
    assert_eq!(
        report.invocations,
        vec![Invocation {
            observer: ObserverId(1),
            callback: CallbackId(9),
            event: QueuedEvent { event_type: UP, target: x, payload: 5 },
        }]
    );
}
