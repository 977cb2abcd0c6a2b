//! The command buffer: structural changes that were decided on while the
//! scene could not be touched, kept in order until the next sync point.

use crate::ids::{ComponentKind, EntityId, Error, ObserverId};
use crate::scene::{Scene, SceneView};
use crate::store::{lemma_listing_len, Component, ObserverComponent};
use vstd::prelude::*;

verus! {

/// A structural change, to be applied at a sync point.
#[derive(Debug)]
pub enum Command {
    /// Spawn an entity that carries these components.
    Spawn(Vec<Component>),
    /// Despawn an entity together with the observers it owns.
    Despawn(EntityId),
    /// Attach an observer component to its owner.
    AttachObserver(ObserverComponent),
    /// Detach one observer.
    DetachObserver(ObserverId),
    /// Detach every observer that an entity owns.
    RemoveObservers(EntityId),
    /// Put a data component on an entity.
    InsertComponent(EntityId, Component),
    /// Take a data component off an entity.
    RemoveComponent(EntityId, ComponentKind),
}

/// What a command did when it was applied.
#[derive(Clone, Copy, Debug, PartialEq, Eq, Structural)]
pub enum Applied {
    /// The entity that was spawned.
    Spawned(EntityId),
    /// An entity was despawned, and with it this many observers.
    Despawned { observers: usize },
    /// The observer that was attached.
    Attached(ObserverId),
    /// One observer was detached.
    Detached,
    /// This many observers were detached from an entity.
    ObserversRemoved { observers: usize },
    /// A data component was put on an entity.
    ComponentInserted,
    /// A data component was taken off an entity, if it carried one.
    ComponentRemoved,
}

impl SceneView {
    /// The scene after `command`, and what the command answers. A command
    /// that is turned down leaves the scene as it is.
    pub open spec fn apply(self, command: Command) -> (SceneView, Result<Applied, Error>) {
        match command {
            Command::Spawn(components) => {
                if self.store.next_entity == u64::MAX {
                    (self, Err(Error::Exhausted))
                } else {
                    (
                        self.spawn(components@),
                        Ok(Applied::Spawned(EntityId(self.store.next_entity))),
                    )
                }
            },
            Command::Despawn(entity) => {
                if self.store.live(entity) {
                    (
                        self.despawn(entity),
                        Ok(
                            Applied::Despawned {
                                observers: self.store.owned_by(entity).len() as usize,
                            },
                        ),
                    )
                } else {
                    (self, Err(Error::NotFound))
                }
            },
            Command::AttachObserver(component) => {
                match self.store.attach_outcome(component) {
                    Ok(id) => (self.attach(component), Ok(Applied::Attached(id))),
                    Err(error) => (self, Err(error)),
                }
            },
            Command::DetachObserver(observer) => {
                if self.store.attached(observer) {
                    (self.detach(observer), Ok(Applied::Detached))
                } else {
                    (self, Err(Error::NotFound))
                }
            },
            Command::RemoveObservers(entity) => {
                if self.store.live(entity) {
                    (
                        self.remove_observers(entity),
                        Ok(
                            Applied::ObserversRemoved {
                                observers: self.store.owned_by(entity).len() as usize,
                            },
                        ),
                    )
                } else {
                    (self, Err(Error::NotFound))
                }
            },
            Command::InsertComponent(entity, component) => {
                if self.store.live(entity) {
                    (self.insert_component(entity, component), Ok(Applied::ComponentInserted))
                } else {
                    (self, Err(Error::NotFound))
                }
            },
            Command::RemoveComponent(entity, kind) => {
                if self.store.live(entity) {
                    (self.remove_component(entity, kind), Ok(Applied::ComponentRemoved))
                } else {
                    (self, Err(Error::NotFound))
                }
            },
        }
    }

    /// The scene after `commands` have been applied in order, and their
    /// answers in the same order.
    pub open spec fn apply_all(self, commands: Seq<Command>) -> (SceneView, Seq<Result<Applied, Error>>)
        decreases commands.len(),
    {
        if commands.len() == 0 {
            (self, Seq::empty())
        } else {
            let (middle, answers) = self.apply_all(commands.drop_last());
            let (after, answer) = middle.apply(commands.last());
            (after, answers.push(answer))
        }
    }

    /// Whatever the command, applying it keeps the scene well formed: the
    /// registry still lists exactly the attached observers.
    pub proof fn lemma_apply_wf(self, command: Command)
        requires
            self.wf(),
        ensures
            self.apply(command).0.wf(),
    {
        match command {
            Command::Spawn(components) => {
                if self.store.next_entity < u64::MAX {
                    self.lemma_spawn_wf(components@);
                }
            },
            Command::Despawn(entity) => {
                self.lemma_despawn_wf(entity);
            },
            Command::AttachObserver(component) => {
                if self.store.attach_outcome(component) is Ok {
                    self.lemma_attach_wf(component);
                }
            },
            Command::DetachObserver(observer) => {
                self.lemma_detach_wf(observer);
            },
            Command::RemoveObservers(entity) => {
                self.lemma_remove_observers_wf(entity);
            },
            Command::InsertComponent(entity, component) => {},
            Command::RemoveComponent(entity, kind) => {},
        }
    }

    /// Whatever the commands, applying them in order keeps the scene well
    /// formed.
    pub proof fn lemma_apply_all_wf(self, commands: Seq<Command>)
        requires
            self.wf(),
        ensures
            self.apply_all(commands).0.wf(),
            self.apply_all(commands).1.len() == commands.len(),
        decreases commands.len(),
    {
        if commands.len() > 0 {
            self.lemma_apply_all_wf(commands.drop_last());
            self.apply_all(commands.drop_last()).0.lemma_apply_wf(commands.last());
        }
    }
}

impl Scene {
    /// Applies one command. The store and the registry change in the same
    /// step; a command that cannot be carried out is answered with the
    /// reason and changes nothing.
    pub fn apply(&mut self, command: &Command) -> (answer: Result<Applied, Error>)
        requires
            old(self).wf(),
        ensures
            final(self).wf(),
            (final(self)@, answer) == old(self)@.apply(*command),
    {
        match command {
            Command::Spawn(components) => {
                match self.spawn(components) {
                    Ok(entity) => Ok(Applied::Spawned(entity)),
                    Err(error) => Err(error),
                }
            },
            Command::Despawn(entity) => {
                match self.despawn(*entity) {
                    Ok(ids) => {
                        proof {
                            lemma_listing_len(ids@, old(self)@.store.owned_by(*entity));
                        }
                        Ok(Applied::Despawned { observers: ids.len() })
                    },
                    Err(error) => Err(error),
                }
            },
            Command::AttachObserver(component) => {
                match self.attach_observer(*component) {
                    Ok(id) => Ok(Applied::Attached(id)),
                    Err(error) => Err(error),
                }
            },
            Command::DetachObserver(observer) => {
                match self.detach_observer(*observer) {
                    Ok(_) => Ok(Applied::Detached),
                    Err(error) => Err(error),
                }
            },
            Command::RemoveObservers(entity) => {
                match self.remove_observers(*entity) {
                    Ok(ids) => {
                        proof {
                            lemma_listing_len(ids@, old(self)@.store.owned_by(*entity));
                        }
                        Ok(Applied::ObserversRemoved { observers: ids.len() })
                    },
                    Err(error) => Err(error),
                }
            },
            Command::InsertComponent(entity, component) => {
                match self.insert_component(*entity, *component) {
                    Ok(_) => Ok(Applied::ComponentInserted),
                    Err(error) => Err(error),
                }
            },
            Command::RemoveComponent(entity, kind) => {
                match self.remove_component(*entity, *kind) {
                    Ok(_) => Ok(Applied::ComponentRemoved),
                    Err(error) => Err(error),
                }
            },
        }
    }
}

/// The buffer. Its view is the sequence of waiting commands, oldest first.
pub struct CommandBuffer {
    commands: Vec<Command>,
}

impl View for CommandBuffer {
    type V = Seq<Command>;

    closed spec fn view(&self) -> Seq<Command> {
        self.commands@
    }
}

impl CommandBuffer {
    /// An empty buffer.
    pub fn new() -> (buffer: CommandBuffer)
        ensures
            buffer@ == Seq::<Command>::empty(),
    {
        CommandBuffer { commands: Vec::new() }
    }

    /// The number of waiting commands.
    pub fn len(&self) -> (n: usize)
        ensures
            n == self@.len(),
    {
        self.commands.len()
    }

    /// Whether no command is waiting.
    pub fn is_empty(&self) -> (yes: bool)
        ensures
            yes == (self@.len() == 0),
    {
        self.commands.len() == 0
    }

    /// Appends `command` behind the waiting commands.
    pub fn push(&mut self, command: Command)
        ensures
            final(self)@ == old(self)@.push(command),
    {
        self.commands.push(command);
    }

    /// Appends every command of `commands`, in their order, and leaves
    /// `commands` empty.
    pub fn push_all(&mut self, commands: &mut Vec<Command>)
        ensures
            final(self)@ == old(self)@ + old(commands)@,
            final(commands)@ == Seq::<Command>::empty(),
    {
        self.commands.append(commands);
    }

    /// Moves every command of `other` behind the waiting commands, in their
    /// order, and leaves `other` empty.
    pub fn append(&mut self, other: &mut CommandBuffer)
        ensures
            final(self)@ == old(self)@ + old(other)@,
            final(other)@ == Seq::<Command>::empty(),
    {
        self.commands.append(&mut other.commands);
    }

    /// The sync point: applies every waiting command to `scene`, oldest
    /// first, and empties the buffer. Returns the answers in the same order.
    pub fn apply_all(&mut self, scene: &mut Scene) -> (answers: Vec<Result<Applied, Error>>)
        requires
            old(scene).wf(),
        ensures
            final(scene).wf(),
            final(self)@ == Seq::<Command>::empty(),
            (final(scene)@, answers@) == old(scene)@.apply_all(old(self)@),
    {
        let mut pending: Vec<Command> = Vec::new();
        pending.append(&mut self.commands);
        let mut answers: Vec<Result<Applied, Error>> = Vec::new();
        let mut i: usize = 0;
        while i < pending.len()
            invariant
                i <= pending.len(),
                scene.wf(),
                (scene@, answers@) == old(scene)@.apply_all(pending@.take(i as int)),
            decreases pending.len() - i,
        {
            let answer = scene.apply(&pending[i]);
            answers.push(answer);
            proof {
                let longer = pending@.take(i + 1);
                assert(longer.drop_last() =~= pending@.take(i as int));
                assert(longer.last() == pending@[i as int]);
            }
            i += 1;
        }
        assert(pending@.take(pending.len() as int) =~= pending@);
        answers
    }
}

} // verus!
