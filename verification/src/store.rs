//! The entity store: which entities exist, the data components they carry
//! and the observer components attached to them.
//!
//! The store is the source of truth. An observer exists exactly as long as
//! its component is attached here, whatever any index may still list.

use crate::ids::{
    position_of, CallbackId, ComponentKind, EntityId, Error, EventType, ObserverId, ObserverKey,
};
use std::collections::HashMap;
use vstd::prelude::*;

verus! {

broadcast use vstd::std_specs::hash::group_hash_axioms;

/// A data component: one value, filed under its kind.
#[derive(Clone, Copy, Debug, PartialEq, Eq, Structural)]
pub struct Component {
    pub kind: ComponentKind,
    pub value: u64,
}

/// An observer component. It belongs to `owner` and reacts to events of
/// `event_type` that are aimed at `watched`, which may be another entity.
#[derive(Clone, Copy, Debug, PartialEq, Eq, Structural)]
pub struct ObserverComponent {
    pub owner: EntityId,
    pub watched: EntityId,
    pub event_type: EventType,
    pub callback: CallbackId,
}

impl ObserverComponent {
    /// What this observer reacts to.
    pub open spec fn key(self) -> ObserverKey {
        ObserverKey { watched: self.watched, event_type: self.event_type }
    }

    /// Whether this observer reacts to events of `event_type` aimed at `target`.
    pub open spec fn watches(self, target: EntityId, event_type: EventType) -> bool {
        self.watched == target && self.event_type == event_type
    }
}

/// The components that a list of components leaves on an entity: of two
/// with the same kind the later one stays.
pub open spec fn components_of(list: Seq<Component>) -> Map<ComponentKind, u64>
    decreases list.len(),
{
    if list.len() == 0 {
        Map::empty()
    } else {
        components_of(list.drop_last()).insert(list.last().kind, list.last().value)
    }
}

/// The store as a mathematical value.
pub struct StoreView {
    /// The live entities, each with its data components.
    pub entities: Map<EntityId, Map<ComponentKind, u64>>,
    /// The attached observer components.
    pub observers: Map<ObserverId, ObserverComponent>,
    /// The identifier that the next spawned entity gets.
    pub next_entity: u64,
    /// The identifier that the next attached observer gets.
    pub next_observer: u64,
}

impl StoreView {
    /// The store that holds nothing.
    pub open spec fn empty() -> StoreView {
        StoreView { entities: Map::empty(), observers: Map::empty(), next_entity: 0, next_observer: 0 }
    }

    /// The store that holds nothing and hands out identifiers from the given
    /// ones on.
    pub open spec fn starting_at(next_entity: u64, next_observer: u64) -> StoreView {
        StoreView { entities: Map::empty(), observers: Map::empty(), next_entity, next_observer }
    }

    /// Whether `entity` exists.
    pub open spec fn live(self, entity: EntityId) -> bool {
        self.entities.contains_key(entity)
    }

    /// Whether the observer `id` is attached.
    pub open spec fn attached(self, id: ObserverId) -> bool {
        self.observers.contains_key(id)
    }

    /// Whether `id` is attached and reacts to events of `event_type` aimed
    /// at `target`.
    pub open spec fn eligible(self, id: ObserverId, target: EntityId, event_type: EventType) -> bool {
        self.observers.contains_key(id) && self.observers[id].watches(target, event_type)
    }

    /// The observers that `entity` owns.
    pub open spec fn owned_by(self, entity: EntityId) -> Set<ObserverId> {
        Set::new(|id: ObserverId| self.observers.contains_key(id) && self.observers[id].owner == entity)
    }

    /// Identifiers in use lie below the counters, every observer belongs to
    /// a live entity and watches an entity that has existed, and none
    /// carries the null event type.
    pub open spec fn wf(self) -> bool {
        &&& forall|entity: EntityId| #[trigger]
            self.entities.contains_key(entity) ==> entity.0 < self.next_entity
        &&& forall|id: ObserverId| #[trigger]
            self.observers.contains_key(id) ==> {
                &&& id.0 < self.next_observer
                &&& self.entities.contains_key(self.observers[id].owner)
                &&& self.observers[id].watched.0 < self.next_entity
                &&& self.observers[id].event_type.valid()
            }
    }

    /// The store after an entity with the given components has been spawned.
    pub open spec fn spawn(self, components: Seq<Component>) -> StoreView {
        StoreView {
            entities: self.entities.insert(EntityId(self.next_entity), components_of(components)),
            next_entity: (self.next_entity + 1) as u64,
            ..self
        }
    }

    /// The store after the observers of `entity` have been detached.
    pub open spec fn remove_observers(self, entity: EntityId) -> StoreView {
        StoreView {
            observers: Map::new(
                |id: ObserverId| self.observers.contains_key(id) && self.observers[id].owner != entity,
                |id: ObserverId| self.observers[id],
            ),
            ..self
        }
    }

    /// The store after `entity` has been despawned, together with the
    /// observers it owned.
    pub open spec fn despawn(self, entity: EntityId) -> StoreView {
        StoreView { entities: self.entities.remove(entity), ..self.remove_observers(entity) }
    }

    /// What an attempt to attach `component` answers: the null event type
    /// is turned down first, then an owner or a watched entity that does not
    /// exist, then the exhaustion of identifiers; otherwise the observer
    /// gets the next identifier.
    pub open spec fn attach_outcome(self, component: ObserverComponent) -> Result<ObserverId, Error> {
        if !component.event_type.valid() {
            Err(Error::InvalidEventType)
        } else if !self.live(component.owner) || !self.live(component.watched) {
            Err(Error::NotFound)
        } else if self.next_observer == u64::MAX {
            Err(Error::Exhausted)
        } else {
            Ok(ObserverId(self.next_observer))
        }
    }

    /// The store after `component` has been attached under the next
    /// observer identifier.
    pub open spec fn attach(self, component: ObserverComponent) -> StoreView {
        StoreView {
            observers: self.observers.insert(ObserverId(self.next_observer), component),
            next_observer: (self.next_observer + 1) as u64,
            ..self
        }
    }

    /// The store after the observer `id` has been detached.
    pub open spec fn detach(self, id: ObserverId) -> StoreView {
        StoreView { observers: self.observers.remove(id), ..self }
    }

    /// The store after `component` has been put on `entity`.
    pub open spec fn insert_component(self, entity: EntityId, component: Component) -> StoreView {
        StoreView {
            entities: self.entities.insert(
                entity,
                self.entities[entity].insert(component.kind, component.value),
            ),
            ..self
        }
    }

    /// The store after the component of `kind` has been taken off `entity`.
    pub open spec fn remove_component(self, entity: EntityId, kind: ComponentKind) -> StoreView {
        StoreView { entities: self.entities.insert(entity, self.entities[entity].remove(kind)), ..self }
    }
}

struct EntityRecord {
    components: HashMap<u32, u64>,
    observers: Vec<ObserverId>,
}

impl EntityRecord {
    spec fn components_view(self) -> Map<ComponentKind, u64> {
        Map::new(
            |kind: ComponentKind| self.components@.contains_key(kind.0),
            |kind: ComponentKind| self.components@[kind.0],
        )
    }
}

/// The store itself.
pub struct EntityStore {
    entities: HashMap<u64, EntityRecord>,
    observers: HashMap<u64, ObserverComponent>,
    next_entity: u64,
    next_observer: u64,
}

impl View for EntityStore {
    type V = StoreView;

    closed spec fn view(&self) -> StoreView {
        StoreView {
            entities: Map::new(
                |entity: EntityId| self.entities@.contains_key(entity.0),
                |entity: EntityId| self.entities@[entity.0].components_view(),
            ),
            observers: Map::new(
                |id: ObserverId| self.observers@.contains_key(id.0),
                |id: ObserverId| self.observers@[id.0],
            ),
            next_entity: self.next_entity,
            next_observer: self.next_observer,
        }
    }
}

impl EntityStore {
    /// Each entity lists exactly the observers it owns, oldest first.
    pub closed spec fn linked(&self) -> bool {
        &&& forall|raw: u64, i: int, j: int|
            self.entities@.contains_key(raw) && 0 <= i < j < self.entities@[raw].observers@.len() ==> (
            #[trigger] self.entities@[raw].observers@[i]).0 < (
            #[trigger] self.entities@[raw].observers@[j]).0
        &&& forall|raw: u64, i: int|
            self.entities@.contains_key(raw) && 0 <= i < self.entities@[raw].observers@.len() ==> {
                &&& self.observers@.contains_key((#[trigger] self.entities@[raw].observers@[i]).0)
                &&& self.observers@[self.entities@[raw].observers@[i].0].owner == EntityId(raw)
            }
        &&& forall|raw: u64| #[trigger]
            self.observers@.contains_key(raw) ==> {
                &&& self.entities@.contains_key(self.observers@[raw].owner.0)
                &&& self.entities@[self.observers@[raw].owner.0].observers@.contains(ObserverId(raw))
            }
    }

    /// The invariant of the store.
    pub open spec fn wf(&self) -> bool {
        self@.wf() && self.linked()
    }

    /// A store that holds nothing.
    pub fn new() -> (store: EntityStore)
        ensures
            store@ == StoreView::empty(),
            store.wf(),
    {
        let store = EntityStore {
            entities: HashMap::new(),
            observers: HashMap::new(),
            next_entity: 0,
            next_observer: 0,
        };
        assert(store@.entities =~= Map::empty());
        assert(store@.observers =~= Map::empty());
        store
    }

    /// A store that holds nothing and hands out identifiers from the given
    /// ones on, for a world that continues an earlier one.
    pub fn starting_at(next_entity: u64, next_observer: u64) -> (store: EntityStore)
        ensures
            store@ == StoreView::starting_at(next_entity, next_observer),
            store.wf(),
    {
        let store = EntityStore {
            entities: HashMap::new(),
            observers: HashMap::new(),
            next_entity,
            next_observer,
        };
        assert(store@.entities =~= Map::empty());
        assert(store@.observers =~= Map::empty());
        store
    }

    /// The identifier that the next spawned entity gets.
    pub fn next_entity(&self) -> (next: u64)
        ensures
            next == self@.next_entity,
    {
        self.next_entity
    }

    /// The identifier that the next attached observer gets.
    pub fn next_observer(&self) -> (next: u64)
        ensures
            next == self@.next_observer,
    {
        self.next_observer
    }

    /// Whether `entity` exists.
    pub fn is_live(&self, entity: EntityId) -> (yes: bool)
        ensures
            yes == self@.live(entity),
    {
        self.entities.contains_key(&entity.0)
    }

    /// Whether the observer `id` is attached.
    pub fn has_observer(&self, id: ObserverId) -> (yes: bool)
        ensures
            yes == self@.attached(id),
    {
        self.observers.contains_key(&id.0)
    }

    /// The observer component `id`, if it is attached.
    pub fn get_observer(&self, id: ObserverId) -> (found: Option<ObserverComponent>)
        ensures
            found == if self@.attached(id) {
                Some(self@.observers[id])
            } else {
                None
            },
    {
        match self.observers.get(&id.0) {
            Some(component) => Some(*component),
            None => None,
        }
    }

    /// The value of the component of `kind` on `entity`; `None` where the
    /// entity does not exist or carries no such component.
    pub fn get_component(&self, entity: EntityId, kind: ComponentKind) -> (found: Option<u64>)
        ensures
            found == if self@.live(entity) && self@.entities[entity].contains_key(kind) {
                Some(self@.entities[entity][kind])
            } else {
                None
            },
    {
        match self.entities.get(&entity.0) {
            Some(record) => match record.components.get(&kind.0) {
                Some(value) => Some(*value),
                None => None,
            },
            None => None,
        }
    }

    /// Whether `entity` exists and carries a component of `kind`.
    pub fn has_component(&self, entity: EntityId, kind: ComponentKind) -> (yes: bool)
        ensures
            yes == (self@.live(entity) && self@.entities[entity].contains_key(kind)),
    {
        match self.entities.get(&entity.0) {
            Some(record) => record.components.contains_key(&kind.0),
            None => false,
        }
    }

    /// Spawns an entity that carries `components` and returns its identifier.
    /// Fails only when every identifier has been handed out.
    pub fn spawn(&mut self, components: &Vec<Component>) -> (spawned: Result<EntityId, Error>)
        requires
            old(self).wf(),
        ensures
            final(self).wf(),
            old(self)@.next_entity == u64::MAX ==> spawned == Err::<EntityId, Error>(Error::Exhausted)
                && final(self)@ == old(self)@,
            old(self)@.next_entity < u64::MAX ==> spawned == Ok::<EntityId, Error>(
                EntityId(old(self)@.next_entity),
            ) && final(self)@ == old(self)@.spawn(components@),
    {
        if self.next_entity == u64::MAX {
            return Err(Error::Exhausted);
        }
        let mut map: HashMap<u32, u64> = HashMap::new();
        let mut i: usize = 0;
        while i < components.len()
            invariant
                i <= components.len(),
                Map::new(|kind: ComponentKind| map@.contains_key(kind.0), |kind: ComponentKind| map@[kind.0])
                    =~= components_of(components@.take(i as int)),
            decreases components.len() - i,
        {
            let component = components[i];
            map.insert(component.kind.0, component.value);
            proof {
                let next = components@.take(i + 1);
                assert(next.drop_last() =~= components@.take(i as int));
                assert(next.last() == component);
            }
            i += 1;
        }
        assert(components@.take(components.len() as int) =~= components@);
        let id = EntityId(self.next_entity);
        let record = EntityRecord { components: map, observers: Vec::new() };
        assert(record.components_view() =~= components_of(components@));
        self.entities.insert(id.0, record);
        self.next_entity = self.next_entity + 1;
        proof {
            assert(self@.entities =~= old(self)@.spawn(components@).entities);
            assert(self@.observers =~= old(self)@.observers);
            assert(!old(self).entities@.contains_key(id.0)) by {
                if old(self).entities@.contains_key(id.0) {
                    assert(old(self)@.entities.contains_key(id));
                }
            }
            assert forall|raw: u64| #[trigger] self.observers@.contains_key(raw) implies {
                &&& self.entities@.contains_key(self.observers@[raw].owner.0)
                &&& self.entities@[self.observers@[raw].owner.0].observers@.contains(ObserverId(raw))
            } by {
                assert(old(self).observers@.contains_key(raw));
            }
            assert forall|raw: u64, i: int, j: int|
                self.entities@.contains_key(raw) && 0 <= i < j < self.entities@[raw].observers@.len() implies (
            #[trigger] self.entities@[raw].observers@[i]).0 < (
            #[trigger] self.entities@[raw].observers@[j]).0 by {
                let prior = old(self).entities@[raw].observers@;
                assert(raw != id.0);
                assert(prior[i].0 < prior[j].0);
            }
            assert forall|raw: u64, i: int|
                self.entities@.contains_key(raw) && 0 <= i < self.entities@[raw].observers@.len() implies {
                &&& self.observers@.contains_key((#[trigger] self.entities@[raw].observers@[i]).0)
                &&& self.observers@[self.entities@[raw].observers@[i].0].owner == EntityId(raw)
            } by {
                let prior = old(self).entities@[raw].observers@;
                assert(raw != id.0);
                assert(old(self).observers@.contains_key(prior[i].0));
            }
            assert forall|entity: EntityId| #[trigger]
                self@.entities.contains_key(entity) implies entity.0 < self@.next_entity by {
                if entity != id {
                    assert(old(self)@.entities.contains_key(entity));
                }
            }
            assert forall|oid: ObserverId| #[trigger] self@.observers.contains_key(oid) implies {
                &&& oid.0 < self@.next_observer
                &&& self@.entities.contains_key(self@.observers[oid].owner)
                &&& self@.observers[oid].watched.0 < self@.next_entity
                &&& self@.observers[oid].event_type.valid()
            } by {
                assert(old(self)@.observers.contains_key(oid));
            }
        }
        Ok(id)
    }
    /// Attaches `component` to its owner and returns the new observer's
    /// identifier.
    ///
    /// The null event type is turned down first, then an owner or a watched
    /// entity that does not exist, then the exhaustion of identifiers.
    pub fn attach_observer(&mut self, component: ObserverComponent) -> (attached: Result<
        ObserverId,
        Error,
    >)
        requires
            old(self).wf(),
        ensures
            final(self).wf(),
            attached == old(self)@.attach_outcome(component),
            attached is Ok ==> final(self)@ == old(self)@.attach(component),
            attached is Err ==> final(self)@ == old(self)@,
    {
        if !component.event_type.is_valid() {
            return Err(Error::InvalidEventType);
        }
        if !self.entities.contains_key(&component.owner.0) || !self.entities.contains_key(
            &component.watched.0,
        ) {
            return Err(Error::NotFound);
        }
        if self.next_observer == u64::MAX {
            return Err(Error::Exhausted);
        }
        let id = ObserverId(self.next_observer);
        let owner = component.owner.0;
        match self.entities.remove(&owner) {
            Some(mut record) => {
                let ghost listed = record.observers@;
                record.observers.push(id);
                proof {
                    assert forall|i: int| 0 <= i < listed.len() implies (#[trigger] listed[i]).0
                        < id.0 by {
                        assert(old(self).entities@[owner].observers@[i] == listed[i]);
                        assert(old(self).observers@.contains_key(listed[i].0));
                        assert(old(self)@.observers.contains_key(listed[i]));
                    }
                    assert(record.components_view() =~= old(self).entities@[owner].components_view());
                }
                self.entities.insert(owner, record);
            },
            None => {},
        }
        self.observers.insert(id.0, component);
        self.next_observer = self.next_observer + 1;
        proof {
            assert(!old(self).observers@.contains_key(id.0)) by {
                if old(self).observers@.contains_key(id.0) {
                    assert(old(self)@.observers.contains_key(id));
                }
            }
            assert(self@.entities =~= old(self)@.entities);
            assert(self@.observers =~= old(self)@.attach(component).observers);
            assert forall|entity: EntityId| #[trigger]
                self@.entities.contains_key(entity) implies entity.0 < self@.next_entity by {
                assert(old(self)@.entities.contains_key(entity));
            }
            assert forall|oid: ObserverId| #[trigger] self@.observers.contains_key(oid) implies {
                &&& oid.0 < self@.next_observer
                &&& self@.entities.contains_key(self@.observers[oid].owner)
                &&& self@.observers[oid].watched.0 < self@.next_entity
                &&& self@.observers[oid].event_type.valid()
            } by {
                if oid != id {
                    assert(old(self)@.observers.contains_key(oid));
                } else {
                    assert(old(self)@.entities.contains_key(component.owner));
                    assert(old(self)@.entities.contains_key(component.watched));
                }
            }
            assert forall|raw: u64, i: int|
                self.entities@.contains_key(raw) && 0 <= i < self.entities@[raw].observers@.len() implies {
                &&& self.observers@.contains_key((#[trigger] self.entities@[raw].observers@[i]).0)
                &&& self.observers@[self.entities@[raw].observers@[i].0].owner == EntityId(raw)
            } by {
                if raw == owner {
                    if i < old(self).entities@[raw].observers@.len() {
                        assert(old(self).entities@[raw].observers@[i] == self.entities@[raw].observers@[i]);
                    }
                } else {
                    assert(old(self).entities@[raw].observers@[i] == self.entities@[raw].observers@[i]);
                }
            }
            assert forall|raw: u64| #[trigger] self.observers@.contains_key(raw) implies {
                &&& self.entities@.contains_key(self.observers@[raw].owner.0)
                &&& self.entities@[self.observers@[raw].owner.0].observers@.contains(ObserverId(raw))
            } by {
                if raw == id.0 {
                    let list = self.entities@[owner].observers@;
                    assert(list[list.len() - 1] == id);
                } else {
                    assert(old(self).observers@.contains_key(raw));
                    let o = old(self).observers@[raw].owner.0;
                    let before = old(self).entities@[o].observers@;
                    let at = before.index_of(ObserverId(raw));
                    assert(before[at] == ObserverId(raw));
                    assert(self.entities@[o].observers@[at] == ObserverId(raw));
                }
            }
            assert forall|raw: u64, i: int, j: int|
                self.entities@.contains_key(raw) && 0 <= i < j < self.entities@[raw].observers@.len() implies (
            #[trigger] self.entities@[raw].observers@[i]).0 < (
            #[trigger] self.entities@[raw].observers@[j]).0 by {
                let before = old(self).entities@[raw].observers@;
                if raw == owner {
                    if j < before.len() {
                        assert(before[i].0 < before[j].0);
                    } else {
                        assert(before[i].0 < id.0);
                    }
                } else {
                    assert(before[i].0 < before[j].0);
                }
            }
        }
        Ok(id)
    }

    /// Detaches the observer `id` and returns its component. An observer
    /// that is not attached is reported as not found, and nothing changes.
    pub fn detach_observer(&mut self, id: ObserverId) -> (detached: Result<ObserverComponent, Error>)
        requires
            old(self).wf(),
        ensures
            final(self).wf(),
            final(self)@ == old(self)@.detach(id),
            detached == if old(self)@.attached(id) {
                Ok::<ObserverComponent, Error>(old(self)@.observers[id])
            } else {
                Err::<ObserverComponent, Error>(Error::NotFound)
            },
            !old(self)@.attached(id) ==> final(self)@ == old(self)@,
    {
        let component = match self.observers.remove(&id.0) {
            Some(component) => component,
            None => {
                assert(self.observers@ =~= old(self).observers@);
                assert(self@.observers =~= old(self)@.observers.remove(id));
                assert(old(self)@.observers.remove(id) =~= old(self)@.observers);
                return Err(Error::NotFound);
            },
        };
        let owner = component.owner.0;
        let ghost before = old(self).entities@[owner].observers@;
        let ghost mut at_ghost: int = 0;
        match self.entities.remove(&owner) {
            Some(mut record) => {
                let at = position_of(&record.observers, id);
                if at < record.observers.len() {
                    record.observers.remove(at);
                }
                proof {
                    at_ghost = at as int;
                    assert(before.contains(id));
                    assert(record.components_view() =~= old(self).entities@[owner].components_view());
                }
                self.entities.insert(owner, record);
            },
            None => {},
        }
        proof {
            assert(old(self).observers@.contains_key(id.0));
            assert(self.entities@.contains_key(owner));
            let after = self.entities@[owner].observers@;
            assert(after == before.remove(at_ghost));
            assert(before[at_ghost] == id);
            assert(self@.entities =~= old(self)@.entities);
            assert(self@.observers =~= old(self)@.detach(id).observers);
            assert forall|entity: EntityId| #[trigger]
                self@.entities.contains_key(entity) implies entity.0 < self@.next_entity by {
                assert(old(self)@.entities.contains_key(entity));
            }
            assert forall|oid: ObserverId| #[trigger] self@.observers.contains_key(oid) implies {
                &&& oid.0 < self@.next_observer
                &&& self@.entities.contains_key(self@.observers[oid].owner)
                &&& self@.observers[oid].watched.0 < self@.next_entity
                &&& self@.observers[oid].event_type.valid()
            } by {
                assert(old(self)@.observers.contains_key(oid));
            }
            assert forall|raw: u64, i: int, j: int|
                self.entities@.contains_key(raw) && 0 <= i < j < self.entities@[raw].observers@.len() implies (
            #[trigger] self.entities@[raw].observers@[i]).0 < (
            #[trigger] self.entities@[raw].observers@[j]).0 by {
                let prior = old(self).entities@[raw].observers@;
                if raw == owner {
                    let oi = if i < at_ghost { i } else { i + 1 };
                    let oj = if j < at_ghost { j } else { j + 1 };
                    assert(after[i] == prior[oi]);
                    assert(after[j] == prior[oj]);
                    assert(prior[oi].0 < prior[oj].0);
                } else {
                    assert(prior[i].0 < prior[j].0);
                }
            }
            assert forall|raw: u64, i: int|
                self.entities@.contains_key(raw) && 0 <= i < self.entities@[raw].observers@.len() implies {
                &&& self.observers@.contains_key((#[trigger] self.entities@[raw].observers@[i]).0)
                &&& self.observers@[self.entities@[raw].observers@[i].0].owner == EntityId(raw)
            } by {
                let prior = old(self).entities@[raw].observers@;
                if raw == owner {
                    let oi = if i < at_ghost { i } else { i + 1 };
                    assert(after[i] == prior[oi]);
                    assert(old(self).observers@.contains_key(prior[oi].0));
                    if oi < at_ghost {
                        assert(prior[oi].0 < prior[at_ghost].0);
                    } else {
                        assert(prior[at_ghost].0 < prior[oi].0);
                    }
                } else {
                    assert(old(self).observers@.contains_key(prior[i].0));
                    assert(old(self).observers@[prior[i].0].owner == EntityId(raw));
                }
            }
            assert forall|raw: u64| #[trigger] self.observers@.contains_key(raw) implies {
                &&& self.entities@.contains_key(self.observers@[raw].owner.0)
                &&& self.entities@[self.observers@[raw].owner.0].observers@.contains(ObserverId(raw))
            } by {
                assert(old(self).observers@.contains_key(raw));
                let o = old(self).observers@[raw].owner.0;
                let prior = old(self).entities@[o].observers@;
                let oi = prior.index_of(ObserverId(raw));
                assert(prior[oi] == ObserverId(raw));
                if o == owner {
                    let ni = if oi < at_ghost { oi } else { oi - 1 };
                    assert(after[ni] == ObserverId(raw));
                } else {
                    assert(self.entities@[o].observers@[oi] == ObserverId(raw));
                }
            }
        }
        Ok(component)
    }
    /// Detaches every observer that `entity` owns and returns their
    /// identifiers, oldest first. An entity that does not exist is reported
    /// as not found.
    pub fn remove_observers(&mut self, entity: EntityId) -> (removed: Result<Vec<ObserverId>, Error>)
        requires
            old(self).wf(),
        ensures
            final(self).wf(),
            !old(self)@.live(entity) ==> removed == Err::<Vec<ObserverId>, Error>(Error::NotFound)
                && final(self)@ == old(self)@,
            old(self)@.live(entity) ==> removed is Ok && final(self)@ == old(self)@.remove_observers(
                entity,
            ),
            removed is Ok ==> listing(removed->Ok_0@, old(self)@.owned_by(entity)),
    {
        let mut record = match self.entities.remove(&entity.0) {
            Some(record) => record,
            None => {
                assert(self.entities@ =~= old(self).entities@);
                return Err(Error::NotFound);
            },
        };
        let mut ids: Vec<ObserverId> = Vec::new();
        ids.append(&mut record.observers);
        assert(record.components_view() =~= old(self).entities@[entity.0].components_view());
        self.entities.insert(entity.0, record);
        assert(ids@ =~= old(self).entities@[entity.0].observers@);
        self.forget(&ids);
        proof {
            let before = old(self)@;
            assert forall|id: ObserverId| ids@.contains(id) <==> before.owned_by(entity).contains(
                id,
            ) by {
                if ids@.contains(id) {
                    let i = ids@.index_of(id);
                    assert(old(self).entities@[entity.0].observers@[i] == id);
                    assert(old(self).observers@.contains_key(id.0));
                }
                if before.owned_by(entity).contains(id) {
                    assert(old(self).observers@.contains_key(id.0));
                }
            }
            assert(self@.entities =~= before.entities);
            assert(self@.observers =~= before.remove_observers(entity).observers);
            assert forall|e: EntityId| #[trigger]
                self@.entities.contains_key(e) implies e.0 < self@.next_entity by {
                assert(before.entities.contains_key(e));
            }
            assert forall|oid: ObserverId| #[trigger] self@.observers.contains_key(oid) implies {
                &&& oid.0 < self@.next_observer
                &&& self@.entities.contains_key(self@.observers[oid].owner)
                &&& self@.observers[oid].watched.0 < self@.next_entity
                &&& self@.observers[oid].event_type.valid()
            } by {
                assert(before.observers.contains_key(oid));
            }
            assert forall|raw: u64, i: int|
                self.entities@.contains_key(raw) && 0 <= i < self.entities@[raw].observers@.len() implies {
                &&& self.observers@.contains_key((#[trigger] self.entities@[raw].observers@[i]).0)
                &&& self.observers@[self.entities@[raw].observers@[i].0].owner == EntityId(raw)
            } by {
                let prior = old(self).entities@[raw].observers@;
                assert(raw != entity.0);
                assert(old(self).observers@.contains_key(prior[i].0));
                assert(old(self).observers@[prior[i].0].owner == EntityId(raw));
                assert(!ids@.contains(prior[i]));
            }
            assert forall|raw: u64| #[trigger] self.observers@.contains_key(raw) implies {
                &&& self.entities@.contains_key(self.observers@[raw].owner.0)
                &&& self.entities@[self.observers@[raw].owner.0].observers@.contains(ObserverId(raw))
            } by {
                assert(old(self).observers@.contains_key(raw));
                let o = old(self).observers@[raw].owner.0;
                let prior = old(self).entities@[o].observers@;
                let oi = prior.index_of(ObserverId(raw));
                assert(prior[oi] == ObserverId(raw));
                assert(!ids@.contains(ObserverId(raw)));
                assert(o != entity.0);
                assert(self.entities@[o].observers@[oi] == ObserverId(raw));
            }
            assert forall|raw: u64, i: int, j: int|
                self.entities@.contains_key(raw) && 0 <= i < j < self.entities@[raw].observers@.len() implies (
            #[trigger] self.entities@[raw].observers@[i]).0 < (
            #[trigger] self.entities@[raw].observers@[j]).0 by {
                let prior = old(self).entities@[raw].observers@;
                assert(raw != entity.0);
                assert(prior[i].0 < prior[j].0);
            }
        }
        Ok(ids)
    }

    /// Takes the observers named in `ids` out of the table of observers.
    fn forget(&mut self, ids: &Vec<ObserverId>)
        ensures
            final(self).entities == old(self).entities,
            final(self).next_entity == old(self).next_entity,
            final(self).next_observer == old(self).next_observer,
            forall|raw: u64|
                final(self).observers@.contains_key(raw) <==> old(self).observers@.contains_key(raw)
                    && !ids@.contains(ObserverId(raw)),
            forall|raw: u64| #[trigger]
                final(self).observers@.contains_key(raw) ==> final(self).observers@[raw] == old(
                    self,
                ).observers@[raw],
    {
        let mut i: usize = 0;
        while i < ids.len()
            invariant
                i <= ids.len(),
                self.entities == old(self).entities,
                self.next_entity == old(self).next_entity,
                self.next_observer == old(self).next_observer,
                forall|raw: u64|
                    self.observers@.contains_key(raw) <==> old(self).observers@.contains_key(raw)
                        && !ids@.take(i as int).contains(ObserverId(raw)),
                forall|raw: u64| #[trigger]
                    self.observers@.contains_key(raw) ==> self.observers@[raw] == old(
                        self,
                    ).observers@[raw],
            decreases ids.len() - i,
        {
            let ghost listed = ids@.take(i as int);
            let ghost longer = ids@.take(i + 1);
            let id = ids[i];
            self.observers.remove(&id.0);
            proof {
                assert(longer =~= listed.push(id));
                assert forall|raw: u64|
                    self.observers@.contains_key(raw) <==> old(self).observers@.contains_key(raw)
                        && !longer.contains(ObserverId(raw)) by {
                    if listed.contains(ObserverId(raw)) {
                        let at = listed.index_of(ObserverId(raw));
                        assert(longer[at] == ObserverId(raw));
                    }
                    if raw == id.0 {
                        assert(longer[i as int] == ObserverId(raw));
                    }
                    if longer.contains(ObserverId(raw)) && raw != id.0 {
                        let at = longer.index_of(ObserverId(raw));
                        assert(listed[at] == ObserverId(raw));
                    }
                }
            }
            i += 1;
        }
        assert(ids@.take(ids.len() as int) =~= ids@);
    }

    /// Despawns `entity` together with the observers it owns, and returns
    /// their identifiers, oldest first. An entity that does not exist is
    /// reported as not found.
    pub fn despawn(&mut self, entity: EntityId) -> (removed: Result<Vec<ObserverId>, Error>)
        requires
            old(self).wf(),
        ensures
            final(self).wf(),
            !old(self)@.live(entity) ==> removed == Err::<Vec<ObserverId>, Error>(Error::NotFound)
                && final(self)@ == old(self)@,
            old(self)@.live(entity) ==> removed is Ok && final(self)@ == old(self)@.despawn(entity),
            removed is Ok ==> listing(removed->Ok_0@, old(self)@.owned_by(entity)),
    {
        let ids = match self.remove_observers(entity) {
            Ok(ids) => ids,
            Err(error) => {
                return Err(error);
            },
        };
        let ghost middle = *self;
        assert(middle@.owned_by(entity) =~= Set::empty());
        assert(middle.entities@[entity.0].observers@.len() == 0) by {
            if middle.entities@[entity.0].observers@.len() > 0 {
                let first = middle.entities@[entity.0].observers@[0];
                assert(middle.observers@.contains_key(first.0));
                assert(middle@.observers.contains_key(first));
                assert(middle@.owned_by(entity).contains(first));
            }
        }
        self.entities.remove(&entity.0);
        proof {
            assert(self@.entities =~= old(self)@.despawn(entity).entities);
            assert(self@.observers =~= old(self)@.despawn(entity).observers);
            assert forall|e: EntityId| #[trigger]
                self@.entities.contains_key(e) implies e.0 < self@.next_entity by {
                assert(middle@.entities.contains_key(e));
            }
            assert forall|oid: ObserverId| #[trigger] self@.observers.contains_key(oid) implies {
                &&& oid.0 < self@.next_observer
                &&& self@.entities.contains_key(self@.observers[oid].owner)
                &&& self@.observers[oid].watched.0 < self@.next_entity
                &&& self@.observers[oid].event_type.valid()
            } by {
                assert(middle@.observers.contains_key(oid));
                assert(!middle@.owned_by(entity).contains(oid));
            }
            assert forall|raw: u64| #[trigger] self.observers@.contains_key(raw) implies {
                &&& self.entities@.contains_key(self.observers@[raw].owner.0)
                &&& self.entities@[self.observers@[raw].owner.0].observers@.contains(ObserverId(raw))
            } by {
                assert(middle.observers@.contains_key(raw));
                assert(middle@.observers.contains_key(ObserverId(raw)));
                assert(!middle@.owned_by(entity).contains(ObserverId(raw)));
            }
            assert forall|raw: u64, i: int, j: int|
                self.entities@.contains_key(raw) && 0 <= i < j < self.entities@[raw].observers@.len() implies (
            #[trigger] self.entities@[raw].observers@[i]).0 < (
            #[trigger] self.entities@[raw].observers@[j]).0 by {
                let prior = middle.entities@[raw].observers@;
                assert(middle.entities@.contains_key(raw));
                assert(prior[i].0 < prior[j].0);
            }
            assert forall|raw: u64, i: int|
                self.entities@.contains_key(raw) && 0 <= i < self.entities@[raw].observers@.len() implies {
                &&& self.observers@.contains_key((#[trigger] self.entities@[raw].observers@[i]).0)
                &&& self.observers@[self.entities@[raw].observers@[i].0].owner == EntityId(raw)
            } by {
                let prior = middle.entities@[raw].observers@;
                assert(middle.entities@.contains_key(raw));
                assert(middle.observers@.contains_key(prior[i].0));
            }
        }
        Ok(ids)
    }

    /// Puts `component` on `entity`, in place of any component of the same
    /// kind, whose value is returned. An entity that does not exist is
    /// reported as not found.
    pub fn insert_component(&mut self, entity: EntityId, component: Component) -> (previous: Result<
        Option<u64>,
        Error,
    >)
        requires
            old(self).wf(),
        ensures
            final(self).wf(),
            !old(self)@.live(entity) ==> previous == Err::<Option<u64>, Error>(Error::NotFound)
                && final(self)@ == old(self)@,
            old(self)@.live(entity) ==> final(self)@ == old(self)@.insert_component(entity, component)
                && previous == Ok::<Option<u64>, Error>(
                if old(self)@.entities[entity].contains_key(component.kind) {
                    Some(old(self)@.entities[entity][component.kind])
                } else {
                    None
                },
            ),
    {
        let mut record = match self.entities.remove(&entity.0) {
            Some(record) => record,
            None => {
                assert(self.entities@ =~= old(self).entities@);
                return Err(Error::NotFound);
            },
        };
        let previous = record.components.insert(component.kind.0, component.value);
        assert(record.components_view() =~= old(self).entities@[entity.0].components_view().insert(
            component.kind,
            component.value,
        ));
        self.entities.insert(entity.0, record);
        proof {
            self.lemma_components_changed(*old(self), entity);
            assert(self@.entities =~= old(self)@.insert_component(entity, component).entities);
        }
        Ok(previous)
    }

    /// Takes the component of `kind` off `entity` and returns its value, or
    /// `None` where the entity carries none. An entity that does not exist
    /// is reported as not found.
    pub fn remove_component(&mut self, entity: EntityId, kind: ComponentKind) -> (previous: Result<
        Option<u64>,
        Error,
    >)
        requires
            old(self).wf(),
        ensures
            final(self).wf(),
            !old(self)@.live(entity) ==> previous == Err::<Option<u64>, Error>(Error::NotFound)
                && final(self)@ == old(self)@,
            old(self)@.live(entity) ==> final(self)@ == old(self)@.remove_component(entity, kind)
                && previous == Ok::<Option<u64>, Error>(
                if old(self)@.entities[entity].contains_key(kind) {
                    Some(old(self)@.entities[entity][kind])
                } else {
                    None
                },
            ),
    {
        let mut record = match self.entities.remove(&entity.0) {
            Some(record) => record,
            None => {
                assert(self.entities@ =~= old(self).entities@);
                return Err(Error::NotFound);
            },
        };
        let previous = record.components.remove(&kind.0);
        assert(record.components_view() =~= old(self).entities@[entity.0].components_view().remove(
            kind,
        ));
        self.entities.insert(entity.0, record);
        proof {
            self.lemma_components_changed(*old(self), entity);
            assert(self@.entities =~= old(self)@.remove_component(entity, kind).entities);
        }
        Ok(previous)
    }

    /// A store that differs from a well-formed one only in the data
    /// components of one live entity is well formed.
    proof fn lemma_components_changed(&self, before: EntityStore, entity: EntityId)
        requires
            before.wf(),
            before.entities@.contains_key(entity.0),
            self.entities@.dom() == before.entities@.dom(),
            forall|raw: u64| #[trigger]
                self.entities@.contains_key(raw) ==> self.entities@[raw].observers == before.entities@[raw].observers,
            forall|raw: u64|
                self.entities@.contains_key(raw) && raw != entity.0 ==> #[trigger] self.entities@[raw]
                    == before.entities@[raw],
            self.observers == before.observers,
            self.next_entity == before.next_entity,
            self.next_observer == before.next_observer,
        ensures
            self.wf(),
            self@.observers == before@.observers,
    {
        assert(self@.observers =~= before@.observers);
        assert forall|e: EntityId| #[trigger]
            self@.entities.contains_key(e) implies e.0 < self@.next_entity by {
            assert(before@.entities.contains_key(e));
        }
        assert forall|oid: ObserverId| #[trigger] self@.observers.contains_key(oid) implies {
            &&& oid.0 < self@.next_observer
            &&& self@.entities.contains_key(self@.observers[oid].owner)
            &&& self@.observers[oid].watched.0 < self@.next_entity
            &&& self@.observers[oid].event_type.valid()
        } by {
            assert(before@.observers.contains_key(oid));
            assert(before@.entities.contains_key(before@.observers[oid].owner));
        }
        assert forall|raw: u64, i: int|
            self.entities@.contains_key(raw) && 0 <= i < self.entities@[raw].observers@.len() implies {
            &&& self.observers@.contains_key((#[trigger] self.entities@[raw].observers@[i]).0)
            &&& self.observers@[self.entities@[raw].observers@[i].0].owner == EntityId(raw)
        } by {
            assert(before.entities@.contains_key(raw));
            assert(before.observers@.contains_key(before.entities@[raw].observers@[i].0));
        }
        assert forall|raw: u64, i: int, j: int|
            self.entities@.contains_key(raw) && 0 <= i < j < self.entities@[raw].observers@.len() implies (
        #[trigger] self.entities@[raw].observers@[i]).0 < (
        #[trigger] self.entities@[raw].observers@[j]).0 by {
            assert(before.entities@.contains_key(raw));
            assert(before.entities@[raw].observers@[i].0 < before.entities@[raw].observers@[j].0);
        }
        assert forall|raw: u64| #[trigger] self.observers@.contains_key(raw) implies {
            &&& self.entities@.contains_key(self.observers@[raw].owner.0)
            &&& self.entities@[self.observers@[raw].owner.0].observers@.contains(ObserverId(raw))
        } by {
            assert(before.observers@.contains_key(raw));
            let o = before.observers@[raw].owner.0;
            assert(before.entities@.contains_key(o));
            assert(self.entities@.contains_key(o));
        }
    }
}

/// `ids` lists exactly the members of `set`, in increasing order.
pub open spec fn listing(ids: Seq<ObserverId>, set: Set<ObserverId>) -> bool {
    &&& forall|id: ObserverId| ids.contains(id) <==> set.contains(id)
    &&& forall|i: int, j: int| 0 <= i < j < ids.len() ==> ids[i].0 < ids[j].0
}

/// A set that has a listing is finite and has as many members as the
/// listing has places.
pub proof fn lemma_listing_len(ids: Seq<ObserverId>, set: Set<ObserverId>)
    requires
        listing(ids, set),
    ensures
        set.finite(),
        set.len() == ids.len(),
        ids.no_duplicates(),
        ids.to_set() == set,
{
    assert(ids.no_duplicates());
    ids.unique_seq_to_set();
    vstd::seq_lib::seq_to_set_is_finite(ids);
    assert(ids.to_set() =~= set);
}

} // verus!
