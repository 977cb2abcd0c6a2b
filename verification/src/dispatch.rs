//! The dispatcher: a state machine that takes a drained batch of events
//! through resolution and invocation, one observer at a time.
//!
//! `Idle → Draining → Resolving → Invoking → … → Idle`. The registry is
//! consulted when an event is resolved, never when it is enqueued, and what
//! it lists is checked against the entity store once more before each
//! invocation: an observer whose component is gone by then is passed over.

use crate::commands::{Applied, Command, CommandBuffer};
use crate::ids::{CallbackId, EntityId, Error, EventType, ObserverId};
use crate::queue::{EventQueue, QueuedEvent};
use crate::registry::ObserverRegistry;
use crate::scene::{Scene, SceneView};
use crate::store::{Component, EntityStore, ObserverComponent, StoreView};
use vstd::prelude::*;

verus! {

/// Where the dispatcher stands in its cycle.
#[derive(Clone, Copy, Debug, PartialEq, Eq, Structural)]
pub enum Phase {
    /// Between cycles.
    Idle,
    /// A batch has been drained; the next event is yet to be resolved.
    Draining,
    /// The observers of the current event have been looked up; the next
    /// one to invoke is yet to be chosen.
    Resolving,
    /// An observer has been chosen and its callback is running.
    Invoking,
}

/// One call of a callback: which observer, which callback, which event.
#[derive(Clone, Copy, Debug, PartialEq, Eq, Structural)]
pub struct Invocation {
    pub observer: ObserverId,
    pub callback: CallbackId,
    pub event: QueuedEvent,
}

/// What a callback asks for. Its commands wait in the command buffer until
/// the sync point at the end of the cycle, its events in the queue until the
/// next cycle.
#[derive(Debug)]
pub struct Reaction {
    pub commands: Vec<Command>,
    pub events: Vec<QueuedEvent>,
}

impl Reaction {
    /// The reaction that asks for nothing.
    pub fn none() -> (reaction: Reaction)
        ensures
            reaction.commands@ == Seq::<Command>::empty(),
            reaction.events@ == Seq::<QueuedEvent>::empty(),
    {
        Reaction { commands: Vec::new(), events: Vec::new() }
    }

    /// Asks for an entity with `components` to be spawned.
    pub fn spawn(&mut self, components: Vec<Component>)
        ensures
            final(self).commands@ == old(self).commands@.push(Command::Spawn(components)),
            final(self).events@ == old(self).events@,
    {
        self.commands.push(Command::Spawn(components));
    }

    /// Asks for `entity` to be despawned.
    pub fn despawn(&mut self, entity: EntityId)
        ensures
            final(self).commands@ == old(self).commands@.push(Command::Despawn(entity)),
            final(self).events@ == old(self).events@,
    {
        self.commands.push(Command::Despawn(entity));
    }

    /// Asks for an observer of events of `event_type` aimed at `entity` to
    /// be attached to `entity`. The null event type is turned down here and
    /// now, and nothing is asked for; whether the entity exists shows when
    /// the command is applied.
    pub fn attach_observer(&mut self, entity: EntityId, event_type: EventType, callback: CallbackId) -> (asked:
        Result<(), Error>)
        ensures
            asked == if event_type.valid() {
                Ok::<(), Error>(())
            } else {
                Err::<(), Error>(Error::InvalidEventType)
            },
            asked is Ok ==> final(self).commands@ == old(self).commands@.push(
                Command::AttachObserver(
                    ObserverComponent { owner: entity, watched: entity, event_type, callback },
                ),
            ),
            asked is Err ==> final(self).commands@ == old(self).commands@,
            final(self).events@ == old(self).events@,
    {
        if !event_type.is_valid() {
            return Err(Error::InvalidEventType);
        }
        self.commands.push(
            Command::AttachObserver(
                ObserverComponent { owner: entity, watched: entity, event_type, callback },
            ),
        );
        Ok(())
    }

    /// Asks for the observer `id` to be detached.
    pub fn detach_observer(&mut self, id: ObserverId)
        ensures
            final(self).commands@ == old(self).commands@.push(Command::DetachObserver(id)),
            final(self).events@ == old(self).events@,
    {
        self.commands.push(Command::DetachObserver(id));
    }

    /// Enqueues an event of `event_type` aimed at `target` for the next
    /// cycle. The null event type is turned down here and now, and nothing
    /// is enqueued.
    pub fn enqueue_event(&mut self, event_type: EventType, target: EntityId, payload: u64) -> (asked:
        Result<(), Error>)
        ensures
            asked == if event_type.valid() {
                Ok::<(), Error>(())
            } else {
                Err::<(), Error>(Error::InvalidEventType)
            },
            asked is Ok ==> final(self).events@ == old(self).events@.push(
                QueuedEvent { event_type, target, payload },
            ),
            asked is Err ==> final(self).events@ == old(self).events@,
            final(self).commands@ == old(self).commands@,
    {
        if !event_type.is_valid() {
            return Err(Error::InvalidEventType);
        }
        self.events.push(QueuedEvent { event_type, target, payload });
        Ok(())
    }
}

/// The invocation of the attached observer `id` for `event`.
pub open spec fn invocation_of(store: StoreView, id: ObserverId, event: QueuedEvent) -> Invocation {
    Invocation { observer: id, callback: store.observers[id].callback, event }
}

/// The first place at or after `from` in `ids` that names an observer which
/// is attached and watches `event`; the length of `ids` where there is none.
pub open spec fn next_eligible(
    store: StoreView,
    ids: Seq<ObserverId>,
    from: int,
    event: QueuedEvent,
) -> int
    decreases ids.len() - from,
{
    if from < 0 || from >= ids.len() {
        ids.len() as int
    } else if store.eligible(ids[from], event.target, event.event_type) {
        from
    } else {
        next_eligible(store, ids, from + 1, event)
    }
}

/// The invocations that `event` is due from the observers listed in `ids`:
/// one for each that is attached and watches the event, in the order of the
/// list.
pub open spec fn due(store: StoreView, ids: Seq<ObserverId>, event: QueuedEvent) -> Seq<Invocation>
    decreases ids.len(),
{
    if ids.len() == 0 {
        Seq::empty()
    } else if store.eligible(ids[0], event.target, event.event_type) {
        seq![invocation_of(store, ids[0], event)] + due(store, ids.drop_first(), event)
    } else {
        due(store, ids.drop_first(), event)
    }
}

/// The invocations that `event` is due in `scene`.
pub open spec fn event_invocations(scene: SceneView, event: QueuedEvent) -> Seq<Invocation> {
    due(scene.store, scene.registry.bucket(event.key()), event)
}

/// The invocations that a batch of events is due in `scene`: those of the
/// first event, then those of the second, and so on.
pub open spec fn batch_invocations(scene: SceneView, batch: Seq<QueuedEvent>) -> Seq<Invocation>
    decreases batch.len(),
{
    if batch.len() == 0 {
        Seq::empty()
    } else {
        event_invocations(scene, batch[0]) + batch_invocations(scene, batch.drop_first())
    }
}

/// Passing over observers that are not eligible changes nothing about what
/// is due; the first eligible one heads what is due.
pub proof fn lemma_due_from(store: StoreView, ids: Seq<ObserverId>, from: int, event: QueuedEvent)
    requires
        0 <= from <= ids.len(),
    ensures
        from <= next_eligible(store, ids, from, event) <= ids.len(),
        forall|i: int|
            from <= i < next_eligible(store, ids, from, event) ==> !store.eligible(
                ids[i],
                event.target,
                event.event_type,
            ),
        next_eligible(store, ids, from, event) == ids.len() ==> due(store, ids.skip(from), event)
            == Seq::<Invocation>::empty(),
        next_eligible(store, ids, from, event) < ids.len() ==> {
            let at = next_eligible(store, ids, from, event);
            &&& store.eligible(ids[at], event.target, event.event_type)
            &&& due(store, ids.skip(from), event) == seq![invocation_of(store, ids[at], event)] + due(
                store,
                ids.skip(at + 1),
                event,
            )
        },
    decreases ids.len() - from,
{
    if from < ids.len() {
        assert(ids.skip(from).drop_first() =~= ids.skip(from + 1));
        assert(ids.skip(from)[0] == ids[from]);
        if !store.eligible(ids[from], event.target, event.event_type) {
            lemma_due_from(store, ids, from + 1, event);
        }
    } else {
        assert(ids.skip(from).len() == 0);
    }
}

/// The dispatcher as a mathematical value.
pub struct DispatcherView {
    pub phase: Phase,
    /// The events of the running cycle, oldest first.
    pub batch: Seq<QueuedEvent>,
    /// How many events of the batch are done.
    pub cursor: int,
    /// The observers that were registered for the current event when it was
    /// resolved.
    pub snapshot: Seq<ObserverId>,
    /// How many observers of the snapshot are done.
    pub position: int,
}

impl DispatcherView {
    /// The dispatcher between cycles.
    pub open spec fn idle() -> DispatcherView {
        DispatcherView {
            phase: Phase::Idle,
            batch: Seq::empty(),
            cursor: 0,
            snapshot: Seq::empty(),
            position: 0,
        }
    }

    /// The counters lie within the batch and the snapshot, and the phase
    /// agrees with them.
    pub open spec fn wf(self) -> bool {
        &&& 0 <= self.cursor <= self.batch.len()
        &&& 0 <= self.position <= self.snapshot.len()
        &&& match self.phase {
            Phase::Idle => self.batch.len() == 0 && self.snapshot.len() == 0,
            Phase::Draining => self.snapshot.len() == 0,
            Phase::Resolving => self.cursor < self.batch.len(),
            Phase::Invoking => self.cursor < self.batch.len() && self.position < self.snapshot.len(),
        }
    }

    /// Whether the whole batch has been dispatched.
    pub open spec fn exhausted(self) -> bool {
        self.phase == Phase::Draining && self.cursor == self.batch.len()
    }

    /// The invocations that are still to come in this cycle if `scene` stays
    /// as it is: the rest of the current snapshot, then the events behind
    /// the current one. While a callback runs, its invocation comes first.
    pub open spec fn pending(self, scene: SceneView) -> Seq<Invocation> {
        match self.phase {
            Phase::Idle => Seq::empty(),
            Phase::Draining => batch_invocations(scene, self.batch.skip(self.cursor)),
            _ => due(scene.store, self.snapshot.skip(self.position), self.batch[self.cursor])
                + batch_invocations(scene, self.batch.skip(self.cursor + 1)),
        }
    }

    /// The dispatcher after the batch has been taken from the queue.
    pub open spec fn begun(batch: Seq<QueuedEvent>) -> DispatcherView {
        DispatcherView { phase: Phase::Draining, batch, ..DispatcherView::idle() }
    }

    /// The dispatcher after the current event has been resolved to `found`.
    pub open spec fn resolved(self, found: Seq<ObserverId>) -> DispatcherView {
        DispatcherView { phase: Phase::Resolving, snapshot: found, position: 0, ..self }
    }

    /// The dispatcher after the next observer has been chosen against
    /// `store`: at the first eligible one, or past the event where none is
    /// left.
    pub open spec fn selected(self, store: StoreView) -> DispatcherView {
        let at = next_eligible(store, self.snapshot, self.position, self.batch[self.cursor]);
        if at < self.snapshot.len() {
            DispatcherView { phase: Phase::Invoking, position: at, ..self }
        } else {
            DispatcherView {
                phase: Phase::Draining,
                cursor: self.cursor + 1,
                snapshot: Seq::empty(),
                position: 0,
                ..self
            }
        }
    }

    /// The dispatcher taken from `Draining` or `Resolving` to the next
    /// invocation that is due in `scene`, or to the end of the batch:
    /// events are resolved and observers chosen, in turn, until an observer
    /// is chosen or no event is left.
    pub open spec fn advanced(self, scene: SceneView) -> DispatcherView
        decreases self.batch.len() - self.cursor, (if self.phase == Phase::Draining {
            1int
        } else {
            0int
        }),
    {
        if !self.wf() {
            self
        } else if self.phase == Phase::Draining {
            if self.cursor < self.batch.len() {
                self.resolved(scene.registry.bucket(self.batch[self.cursor].key())).advanced(scene)
            } else {
                self
            }
        } else if self.phase == Phase::Resolving {
            let after = self.selected(scene.store);
            if after.phase == Phase::Invoking {
                after
            } else {
                after.advanced(scene)
            }
        } else {
            self
        }
    }

    /// The dispatcher after the running callback has returned.
    pub open spec fn completed(self) -> DispatcherView {
        DispatcherView { phase: Phase::Resolving, position: self.position + 1, ..self }
    }

    /// The invocation that is running.
    pub open spec fn current(self, store: StoreView) -> Invocation {
        invocation_of(store, self.snapshot[self.position], self.batch[self.cursor])
    }

    /// Resolving the current event against the scene's registry leaves what
    /// is pending as it was.
    pub proof fn lemma_resolved_pending(self, scene: SceneView)
        requires
            self.wf(),
            self.phase == Phase::Draining,
            self.cursor < self.batch.len(),
        ensures
            self.resolved(scene.registry.bucket(self.batch[self.cursor].key())).wf(),
            self.resolved(scene.registry.bucket(self.batch[self.cursor].key())).pending(scene)
                == self.pending(scene),
    {
        let found = scene.registry.bucket(self.batch[self.cursor].key());
        let rest = self.batch.skip(self.cursor);
        assert(rest.drop_first() =~= self.batch.skip(self.cursor + 1));
        assert(rest[0] == self.batch[self.cursor]);
        assert(found.skip(0) =~= found);
    }

    /// Choosing the next observer against the scene's store leaves what is
    /// pending as it was; if one was chosen, its invocation is the first
    /// that is pending, and the observer is attached and watches the event.
    pub proof fn lemma_selected_pending(self, scene: SceneView)
        requires
            self.wf(),
            self.phase == Phase::Resolving,
        ensures
            self.selected(scene.store).wf(),
            self.selected(scene.store).pending(scene) == self.pending(scene),
            self.selected(scene.store).phase == Phase::Invoking ==> {
                let after = self.selected(scene.store);
                &&& after.pending(scene).len() > 0
                &&& after.pending(scene)[0] == after.current(scene.store)
                &&& scene.store.eligible(
                    after.current(scene.store).observer,
                    after.current(scene.store).event.target,
                    after.current(scene.store).event.event_type,
                )
            },
    {
        lemma_due_from(scene.store, self.snapshot, self.position, self.batch[self.cursor]);
        let at = next_eligible(scene.store, self.snapshot, self.position, self.batch[self.cursor]);
        if at < self.snapshot.len() {
            lemma_due_from(scene.store, self.snapshot, at, self.batch[self.cursor]);
        }
    }

    /// When the running callback returns, its invocation leaves the head of
    /// what is pending.
    pub proof fn lemma_completed_pending(self, scene: SceneView)
        requires
            self.wf(),
            self.phase == Phase::Invoking,
            scene.store.eligible(
                self.snapshot[self.position],
                self.batch[self.cursor].target,
                self.batch[self.cursor].event_type,
            ),
        ensures
            self.completed().wf(),
            self.pending(scene) == seq![self.current(scene.store)] + self.completed().pending(scene),
    {
        lemma_due_from(scene.store, self.snapshot, self.position, self.batch[self.cursor]);
        let tail = batch_invocations(scene, self.batch.skip(self.cursor + 1));
        let rest = due(scene.store, self.snapshot.skip(self.position + 1), self.batch[self.cursor]);
        assert((seq![self.current(scene.store)] + rest) + tail =~= seq![self.current(scene.store)]
            + (rest + tail));
    }
}

/// The state machine itself.
pub struct Dispatcher {
    phase: Phase,
    batch: Vec<QueuedEvent>,
    cursor: usize,
    snapshot: Vec<ObserverId>,
    position: usize,
}

impl View for Dispatcher {
    type V = DispatcherView;

    closed spec fn view(&self) -> DispatcherView {
        DispatcherView {
            phase: self.phase,
            batch: self.batch@,
            cursor: self.cursor as int,
            snapshot: self.snapshot@,
            position: self.position as int,
        }
    }
}

impl Dispatcher {
    /// The invariant of the dispatcher.
    pub open spec fn wf(&self) -> bool {
        self@.wf()
    }

    /// A dispatcher between cycles.
    pub fn new() -> (dispatcher: Dispatcher)
        ensures
            dispatcher@ == DispatcherView::idle(),
            dispatcher.wf(),
    {
        Dispatcher {
            phase: Phase::Idle,
            batch: Vec::new(),
            cursor: 0,
            snapshot: Vec::new(),
            position: 0,
        }
    }

    /// Where the dispatcher stands.
    pub fn phase(&self) -> (phase: Phase)
        ensures
            phase == self@.phase,
    {
        self.phase
    }

    /// Whether the whole batch has been dispatched, so that the cycle can
    /// be finished.
    pub fn is_exhausted(&self) -> (yes: bool)
        requires
            self.wf(),
        ensures
            yes == self@.exhausted(),
    {
        match self.phase {
            Phase::Draining => self.cursor == self.batch.len(),
            _ => false,
        }
    }

    /// `Idle → Draining`: takes every waiting event out of `queue` as the
    /// batch of this cycle.
    pub fn begin(&mut self, queue: &mut EventQueue)
        requires
            old(self).wf(),
            old(self)@.phase == Phase::Idle,
        ensures
            final(self).wf(),
            final(self)@ == DispatcherView::begun(old(queue)@),
            final(queue)@ == Seq::<QueuedEvent>::empty(),
    {
        self.batch = queue.drain();
        self.cursor = 0;
        self.position = 0;
        self.phase = Phase::Draining;
        assert(self.snapshot@ =~= Seq::empty());
    }

    /// `Draining → Resolving`: looks up, now, the observers registered for
    /// the next event of the batch. Answers `false`, and changes nothing,
    /// where the batch holds no further event.
    pub fn resolve(&mut self, registry: &ObserverRegistry) -> (more: bool)
        requires
            old(self).wf(),
            old(self)@.phase == Phase::Draining,
        ensures
            final(self).wf(),
            more == !old(self)@.exhausted(),
            more ==> final(self)@ == old(self)@.resolved(
                registry@.bucket(old(self)@.batch[old(self)@.cursor].key()),
            ),
            !more ==> final(self)@ == old(self)@,
    {
        if self.cursor >= self.batch.len() {
            return false;
        }
        let event = self.batch[self.cursor];
        self.snapshot = registry.lookup(event.target, event.event_type);
        self.position = 0;
        self.phase = Phase::Resolving;
        true
    }

    /// `Resolving → Invoking`: chooses the next observer of the snapshot
    /// whose component is still attached in `store` and still watches the
    /// event, and returns its invocation. Observers that are gone are passed
    /// over without further ado. Where none is left the event is done:
    /// `Resolving → Draining`, and the answer is `None`.
    pub fn select(&mut self, store: &EntityStore) -> (next: Option<Invocation>)
        requires
            old(self).wf(),
            old(self)@.phase == Phase::Resolving,
        ensures
            final(self).wf(),
            final(self)@ == old(self)@.selected(store@),
            next == if final(self)@.phase == Phase::Invoking {
                Some(final(self)@.current(store@))
            } else {
                None
            },
            next is Some ==> store@.eligible(
                next->Some_0.observer,
                next->Some_0.event.target,
                next->Some_0.event.event_type,
            ),
    {
        let event = self.batch[self.cursor];
        proof {
            lemma_due_from(store@, self.snapshot@, self.position as int, event);
        }
        while self.position < self.snapshot.len()
            invariant
                self.wf(),
                self.phase == Phase::Resolving,
                self.batch == old(self).batch,
                self.cursor == old(self).cursor,
                self.snapshot == old(self).snapshot,
                event == self.batch[self.cursor as int],
                old(self)@.position <= self.position <= self.snapshot.len(),
                next_eligible(store@, self.snapshot@, self.position as int, event) == next_eligible(
                    store@,
                    old(self).snapshot@,
                    old(self)@.position,
                    event,
                ),
            decreases self.snapshot.len() - self.position,
        {
            let id = self.snapshot[self.position];
            match store.get_observer(id) {
                Some(component) => {
                    if component.watched == event.target && component.event_type == event.event_type {
                        self.phase = Phase::Invoking;
                        return Some(Invocation { observer: id, callback: component.callback, event });
                    }
                },
                None => {},
            }
            self.position = self.position + 1;
        }
        assert(self.cursor < self.batch.len());
        self.cursor = self.cursor + 1;
        self.snapshot = Vec::new();
        self.position = 0;
        self.phase = Phase::Draining;
        None
    }

    /// `Invoking → Resolving`: the callback has returned. Its commands go
    /// behind those that wait in `commands`, its events behind those that
    /// wait in `queue`; neither the scene nor the running batch changes.
    pub fn complete(&mut self, reaction: Reaction, commands: &mut CommandBuffer, queue: &mut EventQueue)
        requires
            old(self).wf(),
            old(self)@.phase == Phase::Invoking,
        ensures
            final(self).wf(),
            final(self)@ == old(self)@.completed(),
            final(commands)@ == old(commands)@ + reaction.commands@,
            final(queue)@ == old(queue)@ + reaction.events@,
    {
        let mut reaction = reaction;
        commands.push_all(&mut reaction.commands);
        queue.enqueue_all(&mut reaction.events);
        assert(self.position < self.snapshot.len());
        self.position = self.position + 1;
        self.phase = Phase::Resolving;
    }

    /// Takes the dispatcher from `Draining` or `Resolving` to the next
    /// invocation that is due in `scene`, resolving events as it goes, and
    /// returns it. Answers `None` where the batch is exhausted.
    pub fn advance(&mut self, scene: &Scene) -> (next: Option<Invocation>)
        requires
            old(self).wf(),
            scene.wf(),
            old(self)@.phase == Phase::Draining || old(self)@.phase == Phase::Resolving,
        ensures
            final(self).wf(),
            final(self)@ == old(self)@.advanced(scene@),
            final(self)@.batch == old(self)@.batch,
            final(self)@.pending(scene@) == old(self)@.pending(scene@),
            next is None <==> final(self)@.exhausted(),
            next is None ==> old(self)@.pending(scene@) == Seq::<Invocation>::empty(),
            next is Some ==> {
                &&& final(self)@.phase == Phase::Invoking
                &&& next == Some(final(self)@.current(scene@.store))
                &&& old(self)@.pending(scene@).len() > 0
                &&& old(self)@.pending(scene@)[0] == next->Some_0
                &&& scene@.store.eligible(
                    next->Some_0.observer,
                    next->Some_0.event.target,
                    next->Some_0.event.event_type,
                )
            },
    {
        loop
            invariant
                self.wf(),
                scene.wf(),
                self@.phase == Phase::Draining || self@.phase == Phase::Resolving,
                self@.batch == old(self)@.batch,
                self@.pending(scene@) == old(self)@.pending(scene@),
                self@.advanced(scene@) == old(self)@.advanced(scene@),
            decreases self@.batch.len() - self@.cursor,
        {
            let ghost start = self@;
            match self.phase {
                Phase::Draining => {
                    proof {
                        if self@.cursor < self@.batch.len() {
                            self@.lemma_resolved_pending(scene@);
                        } else {
                            assert(self@.batch.skip(self@.cursor).len() == 0);
                        }
                    }
                    if !self.resolve(scene.registry()) {
                        assert(start.advanced(scene@) == start);
                        return None;
                    }
                },
                _ => {},
            }
            let ghost middle = self@;
            proof {
                assert(start.advanced(scene@) == middle.advanced(scene@));
                assert(middle.advanced(scene@) == if middle.selected(scene@.store).phase
                    == Phase::Invoking {
                    middle.selected(scene@.store)
                } else {
                    middle.selected(scene@.store).advanced(scene@)
                });
                self@.lemma_selected_pending(scene@);
            }
            match self.select(scene.store()) {
                Some(invocation) => {
                    return Some(invocation);
                },
                None => {},
            }
        }
    }

    /// `Draining → Idle`, at the end of the batch: the sync point. Applies
    /// every waiting command to `scene`, oldest first, and returns their
    /// answers.
    pub fn finish(&mut self, commands: &mut CommandBuffer, scene: &mut Scene) -> (answers: Vec<
        Result<Applied, Error>,
    >)
        requires
            old(self).wf(),
            old(self)@.exhausted(),
            old(scene).wf(),
        ensures
            final(self).wf(),
            final(self)@ == DispatcherView::idle(),
            final(scene).wf(),
            final(commands)@ == Seq::<Command>::empty(),
            (final(scene)@, answers@) == old(scene)@.apply_all(old(commands)@),
    {
        let answers = commands.apply_all(scene);
        self.batch = Vec::new();
        self.cursor = 0;
        self.snapshot = Vec::new();
        self.position = 0;
        self.phase = Phase::Idle;
        answers
    }
}

} // verus!
