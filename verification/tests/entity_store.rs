use observer_dispatch::ids::{CallbackId, ComponentKind, EntityId, Error, EventType, ObserverId};
use observer_dispatch::store::{Component, EntityStore, ObserverComponent};

const DOWN: EventType = EventType(1);

fn watching(owner: EntityId, watched: EntityId) -> ObserverComponent {
    ObserverComponent { owner, watched, event_type: DOWN, callback: CallbackId(0) }
}

#[test]
fn spawn_hands_out_increasing_identifiers() {
    let mut store = EntityStore::new();
    assert_eq!(store.next_entity(), 0);
    assert_eq!(store.spawn(&vec![]), Ok(EntityId(0)));
    assert_eq!(store.spawn(&vec![]), Ok(EntityId(1)));
    assert_eq!(store.next_entity(), 2);
    assert!(store.is_live(EntityId(0)));
    assert!(store.is_live(EntityId(1)));
    assert!(!store.is_live(EntityId(2)));
}

#[test]
fn identifiers_are_not_reused_after_despawn() {
    let mut store = EntityStore::new();
    let a = store.spawn(&vec![]).unwrap();
    assert_eq!(store.despawn(a), Ok(vec![]));
    let b = store.spawn(&vec![]).unwrap();
    assert_ne!(a, b);
    assert!(!store.is_live(a));
    assert!(store.is_live(b));
}

#[test]
fn spawn_fails_when_identifiers_are_exhausted() {
    let mut store = EntityStore::starting_at(u64::MAX - 1, 0);
    assert_eq!(store.spawn(&vec![]), Ok(EntityId(u64::MAX - 1)));
    assert_eq!(store.spawn(&vec![]), Err(Error::Exhausted));
    assert_eq!(store.next_entity(), u64::MAX);
    assert!(!store.is_live(EntityId(u64::MAX)));
}

#[test]
fn spawned_components_can_be_read_back() {
    let mut store = EntityStore::new();
    let parts = vec![
        Component { kind: ComponentKind(1), value: 10 },
        Component { kind: ComponentKind(2), value: 20 },
    ];
    let e = store.spawn(&parts).unwrap();
    assert_eq!(store.get_component(e, ComponentKind(1)), Some(10));
    assert_eq!(store.get_component(e, ComponentKind(2)), Some(20));
    assert_eq!(store.get_component(e, ComponentKind(3)), None);
    assert!(store.has_component(e, ComponentKind(1)));
    assert!(!store.has_component(e, ComponentKind(3)));
    assert!(!store.has_component(EntityId(7), ComponentKind(1)));
    assert_eq!(store.get_component(EntityId(7), ComponentKind(1)), None);
}

#[test]
fn of_two_components_of_one_kind_the_later_stays() {
    let mut store = EntityStore::new();
    let parts = vec![
        Component { kind: ComponentKind(1), value: 10 },
        Component { kind: ComponentKind(1), value: 11 },
    ];
    let e = store.spawn(&parts).unwrap();
    assert_eq!(store.get_component(e, ComponentKind(1)), Some(11));
}

#[test]
fn insert_and_remove_component_return_the_previous_value() {
    let mut store = EntityStore::new();
    let e = store.spawn(&vec![]).unwrap();
    let part = Component { kind: ComponentKind(4), value: 1 };
    assert_eq!(store.insert_component(e, part), Ok(None));
    assert_eq!(store.insert_component(e, Component { kind: ComponentKind(4), value: 2 }), Ok(Some(1)));
    assert_eq!(store.get_component(e, ComponentKind(4)), Some(2));
    assert_eq!(store.remove_component(e, ComponentKind(4)), Ok(Some(2)));
    assert_eq!(store.remove_component(e, ComponentKind(4)), Ok(None));
    assert_eq!(store.get_component(e, ComponentKind(4)), None);
}

#[test]
fn components_of_an_unknown_entity_are_not_found() {
    let mut store = EntityStore::new();
    let part = Component { kind: ComponentKind(4), value: 1 };
    assert_eq!(store.insert_component(EntityId(3), part), Err(Error::NotFound));
    assert_eq!(store.remove_component(EntityId(3), ComponentKind(4)), Err(Error::NotFound));
}

#[test]
fn attach_hands_out_increasing_observer_identifiers() {
    let mut store = EntityStore::new();
    let a = store.spawn(&vec![]).unwrap();
    let b = store.spawn(&vec![]).unwrap();
    assert_eq!(store.attach_observer(watching(a, a)), Ok(ObserverId(0)));
    assert_eq!(store.attach_observer(watching(a, b)), Ok(ObserverId(1)));
    assert_eq!(store.next_observer(), 2);
    assert!(store.has_observer(ObserverId(0)));
    assert_eq!(store.get_observer(ObserverId(1)), Some(watching(a, b)));
    assert_eq!(store.get_observer(ObserverId(2)), None);
}

#[test]
fn attach_reports_errors_in_order() {
    let mut store = EntityStore::starting_at(0, u64::MAX);
    let a = store.spawn(&vec![]).unwrap();
    let ghost = EntityId(9);
    let null = ObserverComponent {
        owner: ghost,
        watched: ghost,
        event_type: EventType(0),
        callback: CallbackId(0),
    };
    // The null event type comes before the missing entity.
    assert_eq!(store.attach_observer(null), Err(Error::InvalidEventType));
    // A missing owner or watched entity comes before exhaustion.
    assert_eq!(store.attach_observer(watching(ghost, a)), Err(Error::NotFound));
    assert_eq!(store.attach_observer(watching(a, ghost)), Err(Error::NotFound));
    assert_eq!(store.attach_observer(watching(a, a)), Err(Error::Exhausted));
    assert!(!store.has_observer(ObserverId(u64::MAX)));
}

#[test]
fn detach_returns_the_component_once() {
    let mut store = EntityStore::new();
    let a = store.spawn(&vec![]).unwrap();
    let o = store.attach_observer(watching(a, a)).unwrap();
    assert_eq!(store.detach_observer(o), Ok(watching(a, a)));
    assert!(!store.has_observer(o));
    assert_eq!(store.detach_observer(o), Err(Error::NotFound));
    assert!(store.is_live(a));
}

#[test]
fn observer_identifiers_are_not_reused_after_detach() {
    let mut store = EntityStore::new();
    let a = store.spawn(&vec![]).unwrap();
    let first = store.attach_observer(watching(a, a)).unwrap();
    assert_eq!(store.detach_observer(first), Ok(watching(a, a)));
    let second = store.attach_observer(watching(a, a)).unwrap();
    assert_ne!(first, second);
    assert!(!store.has_observer(first));
}

#[test]
fn despawn_takes_the_owned_observers_along() {
    let mut store = EntityStore::new();
    let a = store.spawn(&vec![]).unwrap();
    let b = store.spawn(&vec![]).unwrap();
    let a1 = store.attach_observer(watching(a, a)).unwrap();
    let b1 = store.attach_observer(watching(b, a)).unwrap();
    let a2 = store.attach_observer(watching(a, b)).unwrap();
    assert_eq!(store.despawn(a), Ok(vec![a1, a2]));
    assert!(!store.is_live(a));
    assert!(!store.has_observer(a1));
    assert!(!store.has_observer(a2));
    // An observer owned by another entity stays, though it watched `a`.
    assert!(store.has_observer(b1));
    assert_eq!(store.despawn(a), Err(Error::NotFound));
}

#[test]
fn remove_observers_keeps_the_entity() {
    let mut store = EntityStore::new();
    let a = store.spawn(&vec![Component { kind: ComponentKind(1), value: 5 }]).unwrap();
    let b = store.spawn(&vec![]).unwrap();
    let a1 = store.attach_observer(watching(a, b)).unwrap();
    let b1 = store.attach_observer(watching(b, b)).unwrap();
    let a2 = store.attach_observer(watching(a, a)).unwrap();
    assert_eq!(store.detach_observer(a1), Ok(watching(a, b)));
    assert_eq!(store.remove_observers(a), Ok(vec![a2]));
    assert!(store.is_live(a));
    assert_eq!(store.get_component(a, ComponentKind(1)), Some(5));
    assert!(store.has_observer(b1));
    assert_eq!(store.remove_observers(a), Ok(vec![]));
    assert_eq!(store.remove_observers(EntityId(8)), Err(Error::NotFound));
}
