use observer_dispatch::commands::{Applied, Command, CommandBuffer};
use observer_dispatch::dispatch::{Dispatcher, Invocation, Phase, Reaction};
use observer_dispatch::ids::{CallbackId, EntityId, Error, EventType, ObserverId};
use observer_dispatch::queue::{EventQueue, QueuedEvent};
use observer_dispatch::registry::ObserverRegistry;
use observer_dispatch::scene::Scene;
use observer_dispatch::store::{EntityStore, ObserverComponent};

const DOWN: EventType = EventType(1);
const UP: EventType = EventType(2);

fn on(owner: EntityId, watched: EntityId, event_type: EventType, callback: u64) -> ObserverComponent {
    ObserverComponent { owner, watched, event_type, callback: CallbackId(callback) }
}

#[test]
fn phases_follow_the_cycle() {
    let mut scene = Scene::new();
    let x = scene.spawn(&vec![]).unwrap();
    let o = scene.attach_observer(on(x, x, DOWN, 1)).unwrap();
    let mut queue = EventQueue::new();
    let mut commands = CommandBuffer::new();
    let event = QueuedEvent { event_type: DOWN, target: x, payload: 3 };
    queue.enqueue(event);

    let mut dispatcher = Dispatcher::new();
    assert_eq!(dispatcher.phase(), Phase::Idle);
    dispatcher.begin(&mut queue);
    assert_eq!(dispatcher.phase(), Phase::Draining);
    assert!(queue.is_empty());
    assert!(!dispatcher.is_exhausted());

    assert!(dispatcher.resolve(scene.registry()));
    assert_eq!(dispatcher.phase(), Phase::Resolving);

    let chosen = dispatcher.select(scene.store());
    assert_eq!(chosen, Some(Invocation { observer: o, callback: CallbackId(1), event }));
    assert_eq!(dispatcher.phase(), Phase::Invoking);

    dispatcher.complete(Reaction::none(), &mut commands, &mut queue);
    assert_eq!(dispatcher.phase(), Phase::Resolving);

    assert_eq!(dispatcher.select(scene.store()), None);
    assert_eq!(dispatcher.phase(), Phase::Draining);
    assert!(dispatcher.is_exhausted());
    assert!(!dispatcher.resolve(scene.registry()));
    assert_eq!(dispatcher.phase(), Phase::Draining);

    assert_eq!(dispatcher.finish(&mut commands, &mut scene), vec![]);
    assert_eq!(dispatcher.phase(), Phase::Idle);
}

#[test]
fn an_empty_batch_is_exhausted_at_once() {
    let scene = Scene::new();
    let mut queue = EventQueue::new();
    let mut dispatcher = Dispatcher::new();
    dispatcher.begin(&mut queue);
    assert!(dispatcher.is_exhausted());
    assert_eq!(dispatcher.advance(&scene), None);
    assert!(dispatcher.is_exhausted());
}

#[test]
fn a_stale_registry_entry_is_passed_over() {
    // A registry that lists an observer which the store never had, one that
    // the store has under another key, and one that is in order.
    let mut store = EntityStore::new();
    let x = store.spawn(&vec![]).unwrap();
    let other = store.attach_observer(on(x, x, UP, 1)).unwrap();
    let good = store.attach_observer(on(x, x, DOWN, 2)).unwrap();
    let mut registry = ObserverRegistry::new();
    assert_eq!(registry.register(ObserverId(77), x, DOWN), Ok(true));
    assert_eq!(registry.register(other, x, DOWN), Ok(true));
    assert_eq!(registry.register(good, x, DOWN), Ok(true));

    let mut queue = EventQueue::new();
    let event = QueuedEvent { event_type: DOWN, target: x, payload: 0 };
    queue.enqueue(event);
    let mut dispatcher = Dispatcher::new();
    dispatcher.begin(&mut queue);
    assert!(dispatcher.resolve(&registry));
    assert_eq!(
        dispatcher.select(&store),
        Some(Invocation { observer: good, callback: CallbackId(2), event })
    );
}

#[test]
fn an_observer_removed_after_the_snapshot_is_passed_over() {
    let mut scene = Scene::new();
    let x = scene.spawn(&vec![]).unwrap();
    let first = scene.attach_observer(on(x, x, DOWN, 1)).unwrap();
    let second = scene.attach_observer(on(x, x, DOWN, 2)).unwrap();
    let third = scene.attach_observer(on(x, x, DOWN, 3)).unwrap();
    let mut queue = EventQueue::new();
    let mut commands = CommandBuffer::new();
    let event = QueuedEvent { event_type: DOWN, target: x, payload: 0 };
    queue.enqueue(event);

    let mut dispatcher = Dispatcher::new();
    dispatcher.begin(&mut queue);
    let chosen = dispatcher.advance(&scene).unwrap();
    assert_eq!(chosen.observer, first);
    // The first callback asks for the second observer to be removed, and a
    // sync point falls before the second observer's turn.
    let reaction = Reaction { commands: vec![Command::DetachObserver(second)], events: vec![] };
    dispatcher.complete(reaction, &mut commands, &mut queue);
    assert_eq!(commands.apply_all(&mut scene), vec![Ok(Applied::Detached)]);

    let chosen = dispatcher.advance(&scene).unwrap();
    assert_eq!(chosen, Invocation { observer: third, callback: CallbackId(3), event });
    dispatcher.complete(Reaction::none(), &mut commands, &mut queue);
    assert_eq!(dispatcher.advance(&scene), None);
    assert_eq!(dispatcher.finish(&mut commands, &mut scene), vec![]);
    assert_eq!(scene.lookup(x, DOWN), vec![first, third]);
}

#[test]
fn an_observer_removed_between_two_events_misses_the_second() {
    let mut scene = Scene::new();
    let x = scene.spawn(&vec![]).unwrap();
    let o = scene.attach_observer(on(x, x, DOWN, 1)).unwrap();
    let mut queue = EventQueue::new();
    let mut commands = CommandBuffer::new();
    let e1 = QueuedEvent { event_type: DOWN, target: x, payload: 1 };
    let e2 = QueuedEvent { event_type: DOWN, target: x, payload: 2 };
    queue.enqueue(e1);
    queue.enqueue(e2);

    let mut dispatcher = Dispatcher::new();
    dispatcher.begin(&mut queue);
    assert_eq!(
        dispatcher.advance(&scene),
        Some(Invocation { observer: o, callback: CallbackId(1), event: e1 })
    );
    let reaction = Reaction { commands: vec![Command::DetachObserver(o)], events: vec![] };
    dispatcher.complete(reaction, &mut commands, &mut queue);
    assert_eq!(commands.apply_all(&mut scene), vec![Ok(Applied::Detached)]);
    // The second event finds nobody.
    assert_eq!(dispatcher.advance(&scene), None);
    assert!(dispatcher.is_exhausted());
    assert_eq!(dispatcher.finish(&mut commands, &mut scene), vec![]);
}

#[test]
fn complete_defers_commands_and_events() {
    let mut scene = Scene::new();
    let x = scene.spawn(&vec![]).unwrap();
    let o = scene.attach_observer(on(x, x, DOWN, 1)).unwrap();
    let mut queue = EventQueue::new();
    let mut commands = CommandBuffer::new();
    commands.push(Command::Spawn(vec![]));
    let event = QueuedEvent { event_type: DOWN, target: x, payload: 0 };
    queue.enqueue(event);

    let mut dispatcher = Dispatcher::new();
    dispatcher.begin(&mut queue);
    assert!(dispatcher.advance(&scene).is_some());
    let later = QueuedEvent { event_type: UP, target: x, payload: 9 };
    let reaction = Reaction { commands: vec![Command::DetachObserver(o)], events: vec![later] };
    dispatcher.complete(reaction, &mut commands, &mut queue);
    // Nothing has been applied yet.
    assert!(scene.store().has_observer(o));
    assert_eq!(commands.len(), 2);
    assert_eq!(queue.len(), 1);
    assert_eq!(dispatcher.advance(&scene), None);
    assert_eq!(
        dispatcher.finish(&mut commands, &mut scene),
        vec![Ok(Applied::Spawned(EntityId(1))), Ok(Applied::Detached)]
    );
    assert!(!scene.store().has_observer(o));
    assert_eq!(queue.drain(), vec![later]);
}

#[test]
fn advance_resolves_each_event_when_its_turn_comes() {
    let mut scene = Scene::new();
    let x = scene.spawn(&vec![]).unwrap();
    let y = scene.spawn(&vec![]).unwrap();
    let ox = scene.attach_observer(on(x, x, DOWN, 1)).unwrap();
    let oy = scene.attach_observer(on(y, y, UP, 2)).unwrap();
    let mut queue = EventQueue::new();
    let mut commands = CommandBuffer::new();
    let nobody = QueuedEvent { event_type: UP, target: x, payload: 0 };
    let ex = QueuedEvent { event_type: DOWN, target: x, payload: 1 };
    let ey = QueuedEvent { event_type: UP, target: y, payload: 2 };
    queue.enqueue(nobody);
    queue.enqueue(ex);
    queue.enqueue(nobody);
    queue.enqueue(ey);
    let mut dispatcher = Dispatcher::new();
    dispatcher.begin(&mut queue);
    assert_eq!(
        dispatcher.advance(&scene),
        Some(Invocation { observer: ox, callback: CallbackId(1), event: ex })
    );
    dispatcher.complete(Reaction::none(), &mut commands, &mut queue);
    assert_eq!(
        dispatcher.advance(&scene),
        Some(Invocation { observer: oy, callback: CallbackId(2), event: ey })
    );
    dispatcher.complete(Reaction::none(), &mut commands, &mut queue);
    assert_eq!(dispatcher.advance(&scene), None);
    let unused: Result<Applied, Error> = Err(Error::NotFound);
    assert!(!dispatcher.finish(&mut commands, &mut scene).contains(&unused));
}
