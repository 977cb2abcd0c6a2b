//! The world: a scene, the event queue and the command buffer behind one
//! interface, and the dispatch cycle that ties them together.
//!
//! Outside a cycle every structural operation is applied at once. Inside a
//! cycle the world is borrowed by `run_cycle`, so a callback can only ask
//! for changes through its `Reaction`; they are applied at the sync point
//! that ends the cycle.

use crate::commands::{Applied, Command, CommandBuffer};
use crate::dispatch::{batch_invocations, Dispatcher, Invocation, Phase, Reaction};
use crate::ids::{CallbackId, ComponentKind, EntityId, Error, EventType, ObserverId, ObserverKey};
use crate::laws::{lemma_invoked_are_eligible, lemma_lookup_matches_store};
use crate::queue::{EventQueue, QueuedEvent};
use crate::registry::RegistryView;
use crate::scene::{Scene, SceneView};
use crate::store::{listing, Component, ObserverComponent, StoreView};
use vstd::prelude::*;

verus! {

/// The callbacks of the host. The dispatcher names the callback to run; the
/// host runs it and hands back what the callback asks for. Nothing is
/// assumed of the answer.
pub trait Callbacks {
    /// Runs the callback named by `invocation` on its event.
    fn invoke(&mut self, invocation: &Invocation) -> (reaction: Reaction);
}

/// Callbacks that do nothing and ask for nothing.
#[derive(Clone, Copy, Debug, PartialEq, Eq, Structural)]
pub struct Quiet;

impl Callbacks for Quiet {
    fn invoke(&mut self, invocation: &Invocation) -> (reaction: Reaction)
        ensures
            reaction.commands@ == Seq::<Command>::empty(),
            reaction.events@ == Seq::<QueuedEvent>::empty(),
    {
        Reaction::none()
    }
}

/// The commands of a sequence of reactions, in order.
pub open spec fn commands_of(reactions: Seq<Reaction>) -> Seq<Command>
    decreases reactions.len(),
{
    if reactions.len() == 0 {
        Seq::empty()
    } else {
        commands_of(reactions.drop_last()) + reactions.last().commands@
    }
}

/// The events of a sequence of reactions, in order.
pub open spec fn events_of(reactions: Seq<Reaction>) -> Seq<QueuedEvent>
    decreases reactions.len(),
{
    if reactions.len() == 0 {
        Seq::empty()
    } else {
        events_of(reactions.drop_last()) + reactions.last().events@
    }
}

/// The world as a mathematical value.
pub struct WorldView {
    pub scene: SceneView,
    /// The waiting events, oldest first.
    pub queue: Seq<QueuedEvent>,
    /// The waiting commands, oldest first.
    pub commands: Seq<Command>,
}

impl WorldView {
    /// The world that holds nothing.
    pub open spec fn empty() -> WorldView {
        WorldView { scene: SceneView::empty(), queue: Seq::empty(), commands: Seq::empty() }
    }

    /// The invocations that the next cycle makes: those that the waiting
    /// events are due in the scene as it stands, in the order of the events.
    pub open spec fn invocations(self) -> Seq<Invocation> {
        batch_invocations(self.scene, self.queue)
    }

    /// The world after the sync point, and the answers of the commands.
    pub open spec fn sync(self) -> (WorldView, Seq<Result<Applied, Error>>) {
        let (scene, answers) = self.scene.apply_all(self.commands);
        (WorldView { scene, commands: Seq::empty(), ..self }, answers)
    }

    /// The world after a cycle whose callbacks gave `reactions`, one for
    /// each invocation in turn, and the answers of the commands applied at
    /// its end: the commands that waited before, then those of the
    /// reactions. The events of the reactions wait for the next cycle.
    pub open spec fn cycle(self, reactions: Seq<Reaction>) -> (WorldView, Seq<Result<Applied, Error>>) {
        let (scene, answers) = self.scene.apply_all(self.commands + commands_of(reactions));
        (WorldView { scene, queue: events_of(reactions), commands: Seq::empty() }, answers)
    }
}

/// What a cycle did.
#[derive(Debug)]
pub struct CycleReport {
    /// The invocations that were made, in order.
    pub invocations: Vec<Invocation>,
    /// The answers of the commands applied at the closing sync point, in
    /// the order of the commands.
    pub answers: Vec<Result<Applied, Error>>,
}

/// The world itself.
pub struct World {
    scene: Scene,
    queue: EventQueue,
    commands: CommandBuffer,
}

impl View for World {
    type V = WorldView;

    closed spec fn view(&self) -> WorldView {
        WorldView { scene: self.scene@, queue: self.queue@, commands: self.commands@ }
    }
}

impl World {
    /// The invariant of the world. It implies that the scene's view is well
    /// formed, so that the registry lists exactly the attached observers.
    pub closed spec fn wf(&self) -> bool {
        self.scene.wf()
    }

    /// A well-formed world has a well-formed scene.
    pub proof fn lemma_view_wf(&self)
        requires
            self.wf(),
        ensures
            self@.scene.wf(),
    {
        self.scene.lemma_view_wf();
    }

    /// A world that holds nothing.
    pub fn new() -> (world: World)
        ensures
            world.wf(),
            world@ == WorldView::empty(),
    {
        World { scene: Scene::new(), queue: EventQueue::new(), commands: CommandBuffer::new() }
    }

    /// A world that holds nothing and hands out identifiers from the given
    /// ones on.
    pub fn starting_at(next_entity: u64, next_observer: u64) -> (world: World)
        ensures
            world.wf(),
            world@ == (WorldView {
                scene: SceneView {
                    store: StoreView::starting_at(next_entity, next_observer),
                    registry: RegistryView::empty(),
                },
                ..WorldView::empty()
            }),
    {
        World {
            scene: Scene::starting_at(next_entity, next_observer),
            queue: EventQueue::new(),
            commands: CommandBuffer::new(),
        }
    }

    /// The scene, to read from.
    pub fn scene(&self) -> (scene: &Scene)
        ensures
            scene@ == self@.scene,
            self.wf() ==> scene.wf(),
    {
        &self.scene
    }

    /// Whether `entity` exists.
    pub fn is_live(&self, entity: EntityId) -> (yes: bool)
        ensures
            yes == self@.scene.store.live(entity),
    {
        self.scene.store().is_live(entity)
    }

    /// Whether the observer `id` is attached.
    pub fn has_observer(&self, id: ObserverId) -> (yes: bool)
        ensures
            yes == self@.scene.store.attached(id),
    {
        self.scene.store().has_observer(id)
    }

    /// The observer component `id`, if it is attached.
    pub fn get_observer(&self, id: ObserverId) -> (found: Option<ObserverComponent>)
        ensures
            found == if self@.scene.store.attached(id) {
                Some(self@.scene.store.observers[id])
            } else {
                None
            },
    {
        self.scene.store().get_observer(id)
    }

    /// The value of the component of `kind` on `entity`, if there is one.
    pub fn get_component(&self, entity: EntityId, kind: ComponentKind) -> (found: Option<u64>)
        ensures
            found == if self@.scene.store.live(entity) && self@.scene.store.entities[entity].contains_key(
                kind,
            ) {
                Some(self@.scene.store.entities[entity][kind])
            } else {
                None
            },
    {
        self.scene.store().get_component(entity, kind)
    }

    /// Whether `entity` exists and carries a component of `kind`.
    pub fn has_component(&self, entity: EntityId, kind: ComponentKind) -> (yes: bool)
        ensures
            yes == (self@.scene.store.live(entity) && self@.scene.store.entities[entity].contains_key(
                kind,
            )),
    {
        self.scene.store().has_component(entity, kind)
    }

    /// The observers registered for `watched` and `event_type` right now,
    /// oldest first. In a well-formed world these are exactly the attached
    /// observers that watch `watched` for `event_type`, each once.
    pub fn lookup(&self, watched: EntityId, event_type: EventType) -> (found: Vec<ObserverId>)
        ensures
            found@ == self@.scene.registry.bucket(ObserverKey { watched, event_type }),
            self.wf() ==> found@.no_duplicates(),
            self.wf() ==> forall|id: ObserverId|
                found@.contains(id) <==> self@.scene.store.eligible(id, watched, event_type),
    {
        proof {
            if self.wf() {
                self.lemma_view_wf();
                lemma_lookup_matches_store(self@.scene, ObserverKey { watched, event_type });
            }
        }
        self.scene.lookup(watched, event_type)
    }

    /// The number of waiting events.
    pub fn pending_events(&self) -> (n: usize)
        ensures
            n == self@.queue.len(),
    {
        self.queue.len()
    }

    /// The number of waiting commands.
    pub fn pending_commands(&self) -> (n: usize)
        ensures
            n == self@.commands.len(),
    {
        self.commands.len()
    }

    /// Spawns an entity that carries `components`, at once.
    pub fn spawn(&mut self, components: &Vec<Component>) -> (spawned: Result<EntityId, Error>)
        requires
            old(self).wf(),
        ensures
            final(self).wf(),
            old(self)@.scene.store.next_entity == u64::MAX ==> spawned == Err::<EntityId, Error>(
                Error::Exhausted,
            ) && final(self)@ == old(self)@,
            old(self)@.scene.store.next_entity < u64::MAX ==> spawned == Ok::<EntityId, Error>(
                EntityId(old(self)@.scene.store.next_entity),
            ) && final(self)@ == (WorldView { scene: old(self)@.scene.spawn(components@), ..old(self)@ }),
    {
        self.scene.spawn(components)
    }

    /// Despawns `entity` at once, together with the observers it owns, and
    /// returns their identifiers, oldest first. An entity that does not
    /// exist is reported as not found, and nothing changes.
    pub fn despawn(&mut self, entity: EntityId) -> (removed: Result<Vec<ObserverId>, Error>)
        requires
            old(self).wf(),
        ensures
            final(self).wf(),
            !old(self)@.scene.store.live(entity) ==> removed == Err::<Vec<ObserverId>, Error>(
                Error::NotFound,
            ) && final(self)@ == old(self)@,
            old(self)@.scene.store.live(entity) ==> removed is Ok && final(self)@ == (WorldView {
                scene: old(self)@.scene.despawn(entity),
                ..old(self)@
            }),
            removed is Ok ==> listing(removed->Ok_0@, old(self)@.scene.store.owned_by(entity)),
    {
        self.scene.despawn(entity)
    }

    /// Attaches to `entity` an observer of events of `event_type` aimed at
    /// `entity` itself, at once, and returns its identifier.
    pub fn attach_observer(&mut self, entity: EntityId, event_type: EventType, callback: CallbackId) -> (attached:
        Result<ObserverId, Error>)
        requires
            old(self).wf(),
        ensures
            final(self).wf(),
            attached == old(self)@.scene.store.attach_outcome(
                ObserverComponent { owner: entity, watched: entity, event_type, callback },
            ),
            attached is Ok ==> final(self)@ == (WorldView {
                scene: old(self)@.scene.attach(
                    ObserverComponent { owner: entity, watched: entity, event_type, callback },
                ),
                ..old(self)@
            }),
            attached is Err ==> final(self)@ == old(self)@,
    {
        self.scene.attach_observer(
            ObserverComponent { owner: entity, watched: entity, event_type, callback },
        )
    }

    /// Attaches `component` to its owner, at once, and returns the new
    /// observer's identifier. The watched entity may differ from the owner.
    ///
    /// The null event type is turned down first, then an owner or a watched
    /// entity that does not exist, then the exhaustion of identifiers.
    pub fn attach_component(&mut self, component: ObserverComponent) -> (attached: Result<
        ObserverId,
        Error,
    >)
        requires
            old(self).wf(),
        ensures
            final(self).wf(),
            attached == old(self)@.scene.store.attach_outcome(component),
            attached is Ok ==> final(self)@ == (WorldView {
                scene: old(self)@.scene.attach(component),
                ..old(self)@
            }),
            attached is Err ==> final(self)@ == old(self)@,
    {
        self.scene.attach_observer(component)
    }

    /// Detaches the observer `id` at once and returns its component. An
    /// observer that is not attached (never was, was detached before, or
    /// went with its entity) is reported as not found, and nothing changes.
    pub fn detach_observer(&mut self, id: ObserverId) -> (detached: Result<ObserverComponent, Error>)
        requires
            old(self).wf(),
        ensures
            final(self).wf(),
            final(self)@ == (WorldView { scene: old(self)@.scene.detach(id), ..old(self)@ }),
            detached == if old(self)@.scene.store.attached(id) {
                Ok::<ObserverComponent, Error>(old(self)@.scene.store.observers[id])
            } else {
                Err::<ObserverComponent, Error>(Error::NotFound)
            },
            !old(self)@.scene.store.attached(id) ==> final(self)@ == old(self)@,
    {
        self.scene.detach_observer(id)
    }

    /// Enqueues an event of `event_type` aimed at `target`. The null event
    /// type is turned down, then a target that does not exist; either way
    /// nothing is enqueued.
    pub fn enqueue_event(&mut self, event_type: EventType, target: EntityId, payload: u64) -> (done:
        Result<(), Error>)
        requires
            old(self).wf(),
        ensures
            final(self).wf(),
            done == if !event_type.valid() {
                Err::<(), Error>(Error::InvalidEventType)
            } else if !old(self)@.scene.store.live(target) {
                Err::<(), Error>(Error::NotFound)
            } else {
                Ok::<(), Error>(())
            },
            done is Ok ==> final(self)@ == (WorldView {
                queue: old(self)@.queue.push(QueuedEvent { event_type, target, payload }),
                ..old(self)@
            }),
            done is Err ==> final(self)@ == old(self)@,
    {
        if !event_type.is_valid() {
            return Err(Error::InvalidEventType);
        }
        if !self.scene.store().is_live(target) {
            return Err(Error::NotFound);
        }
        self.queue.enqueue(QueuedEvent { event_type, target, payload });
        Ok(())
    }

    /// Puts `command` behind the waiting commands, to be applied at the next
    /// sync point.
    pub fn defer(&mut self, command: Command)
        requires
            old(self).wf(),
        ensures
            final(self).wf(),
            final(self)@ == (WorldView { commands: old(self)@.commands.push(command), ..old(self)@ }),
    {
        self.commands.push(command);
    }

    /// Moves the commands of `commands` behind the waiting commands, to be
    /// applied at the next sync point, and leaves `commands` empty.
    pub fn submit(&mut self, commands: &mut CommandBuffer)
        requires
            old(self).wf(),
        ensures
            final(self).wf(),
            final(self)@ == (WorldView {
                commands: old(self)@.commands + old(commands)@,
                ..old(self)@
            }),
            final(commands)@ == Seq::<Command>::empty(),
    {
        self.commands.append(commands);
    }

    /// A sync point: applies every waiting command, oldest first, and
    /// returns their answers.
    pub fn sync(&mut self) -> (answers: Vec<Result<Applied, Error>>)
        requires
            old(self).wf(),
        ensures
            final(self).wf(),
            (final(self)@, answers@) == old(self)@.sync(),
    {
        self.commands.apply_all(&mut self.scene)
    }

    /// Runs one dispatch cycle.
    ///
    /// The waiting events are drained and dispatched in order. Each is
    /// resolved against the registry when its turn comes, and each observer
    /// found is checked against the store before its callback is invoked.
    /// What the callbacks ask for is deferred: their commands are applied,
    /// behind those that waited already, at the sync point that ends the
    /// cycle, and their events wait for the next cycle.
    ///
    /// The invocations are those that the waiting events are due in the
    /// scene as it stands at the start; whatever the callbacks answer does
    /// not change them.
    pub fn run_cycle<C: Callbacks>(&mut self, callbacks: &mut C) -> (report: CycleReport)
        requires
            old(self).wf(),
        ensures
            final(self).wf(),
            final(self)@.scene.wf(),
            report.invocations@ == old(self)@.invocations(),
            forall|i: int|
                0 <= i < report.invocations@.len() ==> old(self)@.scene.store.eligible(
                    (#[trigger] report.invocations@[i]).observer,
                    report.invocations@[i].event.target,
                    report.invocations@[i].event.event_type,
                ),
            exists|reactions: Seq<Reaction>|
                reactions.len() == report.invocations@.len() && (final(self)@, report.answers@)
                    == #[trigger] old(self)@.cycle(reactions),
    {
        let mut dispatcher = Dispatcher::new();
        dispatcher.begin(&mut self.queue);
        let mut invocations: Vec<Invocation> = Vec::new();
        let ghost mut reactions: Seq<Reaction> = Seq::empty();
        let ghost scene = self.scene@;
        let ghost batch = old(self)@.queue;
        proof {
            assert(batch.skip(0) =~= batch);
        }
        let mut next = dispatcher.advance(&self.scene);
        while next.is_some()
            invariant
                self.scene.wf(),
                self.scene@ == scene,
                scene == old(self)@.scene,
                dispatcher.wf(),
                dispatcher@.batch == batch,
                next is None ==> dispatcher@.exhausted() && dispatcher@.pending(scene)
                    == Seq::<Invocation>::empty(),
                next is Some ==> {
                    &&& dispatcher@.phase == Phase::Invoking
                    &&& next == Some(dispatcher@.current(scene.store))
                    &&& scene.store.eligible(
                        next->Some_0.observer,
                        next->Some_0.event.target,
                        next->Some_0.event.event_type,
                    )
                },
                invocations@ + dispatcher@.pending(scene) == batch_invocations(scene, batch),
                reactions.len() == invocations@.len(),
                self.queue@ == events_of(reactions),
                self.commands@ == old(self)@.commands + commands_of(reactions),
            decreases dispatcher@.pending(scene).len(),
        {
            let invocation = next.unwrap();
            let reaction = callbacks.invoke(&invocation);
            proof {
                dispatcher@.lemma_completed_pending(scene);
                let longer = reactions.push(reaction);
                assert(longer.drop_last() =~= reactions);
                assert(longer.last() == reaction);
                assert((old(self)@.commands + commands_of(reactions)) + reaction.commands@ =~= old(
                    self,
                )@.commands + commands_of(longer));
                let rest = dispatcher@.completed().pending(scene);
                assert((invocations@ + seq![invocation]) + rest =~= invocations@ + (seq![invocation]
                    + rest));
                assert(invocations@.push(invocation) =~= invocations@ + seq![invocation]);
                reactions = longer;
            }
            dispatcher.complete(reaction, &mut self.commands, &mut self.queue);
            invocations.push(invocation);
            next = dispatcher.advance(&self.scene);
        }
        let answers = dispatcher.finish(&mut self.commands, &mut self.scene);
        proof {
            self.scene.lemma_view_wf();
            assert(invocations@ + Seq::<Invocation>::empty() =~= invocations@);
            assert((self@, answers@) == old(self)@.cycle(reactions));
            assert forall|i: int| 0 <= i < invocations@.len() implies scene.store.eligible(
                (#[trigger] invocations@[i]).observer,
                invocations@[i].event.target,
                invocations@[i].event.event_type,
            ) by {
                lemma_invoked_are_eligible(scene, batch, i);
            }
        }
        CycleReport { invocations, answers }
    }
}

} // verus!
