//! The scene: the entity store together with the registry that indexes its
//! observers.
//!
//! Every structural change goes through here, and each one updates the store
//! and the registry in the same step. So between any two operations the
//! registry lists exactly the observers that are attached.

use crate::ids::{ComponentKind, EntityId, Error, EventType, ObserverId, ObserverKey};
use crate::registry::{ObserverRegistry, RegistryView};
use crate::store::{listing, Component, EntityStore, ObserverComponent, StoreView};
use vstd::prelude::*;

verus! {

/// The scene as a mathematical value.
pub struct SceneView {
    pub store: StoreView,
    pub registry: RegistryView,
}

impl SceneView {
    /// The scene that holds nothing.
    pub open spec fn empty() -> SceneView {
        SceneView { store: StoreView::empty(), registry: RegistryView::empty() }
    }

    /// Both parts are well formed, and the registry lists exactly the
    /// attached observers, each under what it reacts to.
    pub open spec fn wf(self) -> bool {
        &&& self.store.wf()
        &&& self.registry.wf()
        &&& forall|id: ObserverId|
            #![trigger self.registry.keys.contains_key(id)]
            #![trigger self.store.observers.contains_key(id)]
            self.registry.keys.contains_key(id) <==> self.store.observers.contains_key(id)
        &&& forall|id: ObserverId| #[trigger]
            self.store.observers.contains_key(id) ==> self.registry.keys[id]
                == self.store.observers[id].key()
    }

    /// The scene after an entity with the given components has been spawned.
    pub open spec fn spawn(self, components: Seq<Component>) -> SceneView {
        SceneView { store: self.store.spawn(components), ..self }
    }

    /// The scene after `component` has been attached and registered.
    pub open spec fn attach(self, component: ObserverComponent) -> SceneView {
        SceneView {
            store: self.store.attach(component),
            registry: self.registry.register(ObserverId(self.store.next_observer), component.key()),
        }
    }

    /// The scene after the observer `id` has been detached and unregistered.
    pub open spec fn detach(self, id: ObserverId) -> SceneView {
        SceneView { store: self.store.detach(id), registry: self.registry.unregister(id) }
    }

    /// The scene after the observers of `entity` have been detached and
    /// unregistered.
    pub open spec fn remove_observers(self, entity: EntityId) -> SceneView {
        SceneView {
            store: self.store.remove_observers(entity),
            registry: self.registry.without(self.store.owned_by(entity)),
        }
    }

    /// The scene after `entity` has been despawned and its observers
    /// unregistered.
    pub open spec fn despawn(self, entity: EntityId) -> SceneView {
        SceneView {
            store: self.store.despawn(entity),
            registry: self.registry.without(self.store.owned_by(entity)),
        }
    }

    /// The scene after `component` has been put on `entity`.
    pub open spec fn insert_component(self, entity: EntityId, component: Component) -> SceneView {
        SceneView { store: self.store.insert_component(entity, component), ..self }
    }

    /// The scene after the component of `kind` has been taken off `entity`.
    pub open spec fn remove_component(self, entity: EntityId, kind: ComponentKind) -> SceneView {
        SceneView { store: self.store.remove_component(entity, kind), ..self }
    }

    /// Spawning keeps the scene well formed.
    pub proof fn lemma_spawn_wf(self, components: Seq<Component>)
        requires
            self.wf(),
            self.store.next_entity < u64::MAX,
        ensures
            self.spawn(components).wf(),
    {
    }

    /// Attaching keeps the scene well formed.
    pub proof fn lemma_attach_wf(self, component: ObserverComponent)
        requires
            self.wf(),
            self.store.attach_outcome(component) is Ok,
        ensures
            self.attach(component).wf(),
    {
        let id = ObserverId(self.store.next_observer);
        self.registry.lemma_register_wf(id, component.key());
        assert(!self.store.observers.contains_key(id));
        assert(!self.registry.keys.contains_key(id));
    }

    /// Detaching keeps the scene well formed.
    pub proof fn lemma_detach_wf(self, id: ObserverId)
        requires
            self.wf(),
        ensures
            self.detach(id).wf(),
    {
        self.registry.lemma_unregister_wf(id);
    }

    /// Removing the observers of an entity keeps the scene well formed.
    pub proof fn lemma_remove_observers_wf(self, entity: EntityId)
        requires
            self.wf(),
        ensures
            self.remove_observers(entity).wf(),
    {
        self.registry.lemma_without_wf(self.store.owned_by(entity));
    }

    /// Despawning keeps the scene well formed.
    pub proof fn lemma_despawn_wf(self, entity: EntityId)
        requires
            self.wf(),
        ensures
            self.despawn(entity).wf(),
    {
        self.registry.lemma_without_wf(self.store.owned_by(entity));
    }
}

/// The store and its registry, kept in step.
pub struct Scene {
    store: EntityStore,
    registry: ObserverRegistry,
}

impl View for Scene {
    type V = SceneView;

    closed spec fn view(&self) -> SceneView {
        SceneView { store: self.store@, registry: self.registry@ }
    }
}

impl Scene {
    /// The invariant of the scene. It implies that the view is well formed.
    pub closed spec fn wf(&self) -> bool {
        self.store.wf() && self@.wf()
    }

    /// A well-formed scene has a well-formed view.
    pub proof fn lemma_view_wf(&self)
        requires
            self.wf(),
        ensures
            self@.wf(),
    {
    }

    /// A scene that holds nothing.
    pub fn new() -> (scene: Scene)
        ensures
            scene.wf(),
            scene@ == SceneView::empty(),
    {
        Scene { store: EntityStore::new(), registry: ObserverRegistry::new() }
    }

    /// A scene that holds nothing and hands out identifiers from the given
    /// ones on.
    pub fn starting_at(next_entity: u64, next_observer: u64) -> (scene: Scene)
        ensures
            scene.wf(),
            scene@ == (SceneView {
                store: StoreView::starting_at(next_entity, next_observer),
                registry: RegistryView::empty(),
            }),
    {
        Scene {
            store: EntityStore::starting_at(next_entity, next_observer),
            registry: ObserverRegistry::new(),
        }
    }

    /// The entity store, to read from.
    pub fn store(&self) -> (store: &EntityStore)
        ensures
            store@ == self@.store,
            self.wf() ==> store.wf(),
    {
        &self.store
    }

    /// The registry, to read from.
    pub fn registry(&self) -> (registry: &ObserverRegistry)
        ensures
            registry@ == self@.registry,
            self.wf() ==> registry.wf(),
    {
        &self.registry
    }

    /// The observers registered for `watched` and `event_type` right now,
    /// oldest first.
    pub fn lookup(&self, watched: EntityId, event_type: EventType) -> (found: Vec<ObserverId>)
        ensures
            found@ == self@.registry.bucket(ObserverKey { watched, event_type }),
    {
        self.registry.lookup(watched, event_type)
    }

    /// Spawns an entity that carries `components`.
    pub fn spawn(&mut self, components: &Vec<Component>) -> (spawned: Result<EntityId, Error>)
        requires
            old(self).wf(),
        ensures
            final(self).wf(),
            old(self)@.store.next_entity == u64::MAX ==> spawned == Err::<EntityId, Error>(
                Error::Exhausted,
            ) && final(self)@ == old(self)@,
            old(self)@.store.next_entity < u64::MAX ==> spawned == Ok::<EntityId, Error>(
                EntityId(old(self)@.store.next_entity),
            ) && final(self)@ == old(self)@.spawn(components@),
    {
        self.store.spawn(components)
    }

    /// Attaches `component` to its owner and registers it, in one step.
    pub fn attach_observer(&mut self, component: ObserverComponent) -> (attached: Result<
        ObserverId,
        Error,
    >)
        requires
            old(self).wf(),
        ensures
            final(self).wf(),
            attached == old(self)@.store.attach_outcome(component),
            attached is Ok ==> final(self)@ == old(self)@.attach(component),
            attached is Err ==> final(self)@ == old(self)@,
    {
        let id = match self.store.attach_observer(component) {
            Ok(id) => id,
            Err(error) => {
                return Err(error);
            },
        };
        let _ = self.registry.register(id, component.watched, component.event_type);
        proof {
            old(self)@.registry.lemma_register_wf(id, component.key());
            assert(!old(self)@.store.observers.contains_key(id));
        }
        Ok(id)
    }

    /// Detaches the observer `id` and unregisters it, in one step. An
    /// observer that is not attached is reported as not found, and nothing
    /// changes.
    pub fn detach_observer(&mut self, id: ObserverId) -> (detached: Result<ObserverComponent, Error>)
        requires
            old(self).wf(),
        ensures
            final(self).wf(),
            final(self)@ == old(self)@.detach(id),
            detached == if old(self)@.store.attached(id) {
                Ok::<ObserverComponent, Error>(old(self)@.store.observers[id])
            } else {
                Err::<ObserverComponent, Error>(Error::NotFound)
            },
            !old(self)@.store.attached(id) ==> final(self)@ == old(self)@,
    {
        let detached = self.store.detach_observer(id);
        self.registry.unregister(id);
        proof {
            old(self)@.registry.lemma_unregister_wf(id);
            if !old(self)@.store.attached(id) {
                assert(!old(self)@.registry.keys.contains_key(id));
            }
        }
        detached
    }

    /// Unregisters the observers in `ids`, which the store has just let go.
    fn unregister_owned(&mut self, ids: &Vec<ObserverId>, Ghost(before): Ghost<SceneView>, Ghost(
        entity,
    ): Ghost<EntityId>)
        requires
            before.wf(),
            old(self).registry@ == before.registry,
            listing(ids@, before.store.owned_by(entity)),
        ensures
            final(self).store == old(self).store,
            final(self).registry@ == before.registry.without(before.store.owned_by(entity)),
            final(self).registry.wf(),
    {
        let mut i: usize = 0;
        proof {
            assert(ids@.take(0).to_set() =~= Set::<ObserverId>::empty());
            before.registry.lemma_without_nobody();
        }
        while i < ids.len()
            invariant
                i <= ids.len(),
                before.registry.wf(),
                self.store == old(self).store,
                self.registry.wf(),
                self.registry@ == before.registry.without(ids@.take(i as int).to_set()),
            decreases ids.len() - i,
        {
            let ghost done = ids@.take(i as int).to_set();
            self.registry.unregister(ids[i]);
            proof {
                let id = ids@[i as int];
                let middle = before.registry.without(done);
                middle.lemma_unregister_is_without(id);
                before.registry.lemma_without_twice(done, set![id]);
                assert(ids@.take(i + 1) =~= ids@.take(i as int).push(id));
                assert(ids@.take(i + 1).to_set() =~= done.union(set![id])) by {
                    assert forall|other: ObserverId|
                        ids@.take(i + 1).to_set().contains(other) <==> done.union(set![id]).contains(
                            other,
                        ) by {
                        if ids@.take(i + 1).contains(other) {
                            let at = ids@.take(i + 1).index_of(other);
                            if at < i {
                                assert(ids@.take(i as int)[at] == other);
                            }
                        }
                        if ids@.take(i as int).contains(other) {
                            let at = ids@.take(i as int).index_of(other);
                            assert(ids@.take(i + 1)[at] == other);
                        }
                        if other == id {
                            assert(ids@.take(i + 1)[i as int] == other);
                        }
                    }
                }
            }
            i += 1;
        }
        proof {
            assert(ids@.take(ids.len() as int) =~= ids@);
            assert(ids@.to_set() =~= before.store.owned_by(entity));
        }
    }

    /// Detaches and unregisters every observer that `entity` owns, and
    /// returns their identifiers, oldest first.
    pub fn remove_observers(&mut self, entity: EntityId) -> (removed: Result<Vec<ObserverId>, Error>)
        requires
            old(self).wf(),
        ensures
            final(self).wf(),
            !old(self)@.store.live(entity) ==> removed == Err::<Vec<ObserverId>, Error>(
                Error::NotFound,
            ) && final(self)@ == old(self)@,
            old(self)@.store.live(entity) ==> removed is Ok && final(self)@
                == old(self)@.remove_observers(entity),
            removed is Ok ==> listing(removed->Ok_0@, old(self)@.store.owned_by(entity)),
    {
        let ids = match self.store.remove_observers(entity) {
            Ok(ids) => ids,
            Err(error) => {
                return Err(error);
            },
        };
        self.unregister_owned(&ids, Ghost(old(self)@), Ghost(entity));
        Ok(ids)
    }

    /// Despawns `entity`, detaching and unregistering the observers it owns
    /// in the same step, and returns their identifiers, oldest first.
    pub fn despawn(&mut self, entity: EntityId) -> (removed: Result<Vec<ObserverId>, Error>)
        requires
            old(self).wf(),
        ensures
            final(self).wf(),
            !old(self)@.store.live(entity) ==> removed == Err::<Vec<ObserverId>, Error>(
                Error::NotFound,
            ) && final(self)@ == old(self)@,
            old(self)@.store.live(entity) ==> removed is Ok && final(self)@ == old(self)@.despawn(
                entity,
            ),
            removed is Ok ==> listing(removed->Ok_0@, old(self)@.store.owned_by(entity)),
    {
        let ids = match self.store.despawn(entity) {
            Ok(ids) => ids,
            Err(error) => {
                return Err(error);
            },
        };
        self.unregister_owned(&ids, Ghost(old(self)@), Ghost(entity));
        Ok(ids)
    }

    /// Puts `component` on `entity` and returns the value it replaces.
    pub fn insert_component(&mut self, entity: EntityId, component: Component) -> (previous: Result<
        Option<u64>,
        Error,
    >)
        requires
            old(self).wf(),
        ensures
            final(self).wf(),
            !old(self)@.store.live(entity) ==> previous == Err::<Option<u64>, Error>(Error::NotFound)
                && final(self)@ == old(self)@,
            old(self)@.store.live(entity) ==> final(self)@ == old(self)@.insert_component(
                entity,
                component,
            ) && previous == Ok::<Option<u64>, Error>(
                if old(self)@.store.entities[entity].contains_key(component.kind) {
                    Some(old(self)@.store.entities[entity][component.kind])
                } else {
                    None
                },
            ),
    {
        self.store.insert_component(entity, component)
    }

    /// Takes the component of `kind` off `entity` and returns its value.
    pub fn remove_component(&mut self, entity: EntityId, kind: ComponentKind) -> (previous: Result<
        Option<u64>,
        Error,
    >)
        requires
            old(self).wf(),
        ensures
            final(self).wf(),
            !old(self)@.store.live(entity) ==> previous == Err::<Option<u64>, Error>(Error::NotFound)
                && final(self)@ == old(self)@,
            old(self)@.store.live(entity) ==> final(self)@ == old(self)@.remove_component(entity, kind)
                && previous == Ok::<Option<u64>, Error>(
                if old(self)@.store.entities[entity].contains_key(kind) {
                    Some(old(self)@.store.entities[entity][kind])
                } else {
                    None
                },
            ),
    {
        self.store.remove_component(entity, kind)
    }
}

} // verus!
