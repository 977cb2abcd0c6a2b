//! What holds of the mechanism as a whole, stated over its mathematical
//! model and proved once and for all.

use crate::commands::Command;
use crate::dispatch::{batch_invocations, due, event_invocations, invocation_of, Reaction};
use crate::ids::{EntityId, ObserverId, ObserverKey};
use crate::queue::QueuedEvent;
use crate::scene::SceneView;
use crate::store::StoreView;
use crate::world::{commands_of, WorldView};
use vstd::prelude::*;

verus! {

/// Every invocation that an event is due from a list of observers names an
/// observer of that list which is attached and watches the event, and
/// carries the event and the observer's callback.
pub proof fn lemma_due_are_eligible(store: StoreView, ids: Seq<ObserverId>, event: QueuedEvent, i: int)
    requires
        0 <= i < due(store, ids, event).len(),
    ensures
        ids.contains(due(store, ids, event)[i].observer),
        store.eligible(due(store, ids, event)[i].observer, event.target, event.event_type),
        due(store, ids, event)[i].event == event,
        due(store, ids, event)[i].callback == store.observers[due(
            store,
            ids,
            event,
        )[i].observer].callback,
    decreases ids.len(),
{
    if ids.len() > 0 {
        let rest = ids.drop_first();
        if store.eligible(ids[0], event.target, event.event_type) {
            if i > 0 {
                lemma_due_are_eligible(store, rest, event, i - 1);
                let found = due(store, rest, event)[i - 1].observer;
                let at = rest.index_of(found);
                assert(ids[at + 1] == found);
            } else {
                assert(ids[0] == due(store, ids, event)[0].observer);
            }
        } else {
            lemma_due_are_eligible(store, rest, event, i);
            let found = due(store, rest, event)[i].observer;
            let at = rest.index_of(found);
            assert(ids[at + 1] == found);
        }
    }
}

/// No callback is invoked on behalf of an observer that is not attached:
/// every invocation of a cycle names an observer whose component is
/// attached in the scene in which the cycle runs, and which watches the
/// very event it is invoked for.
pub proof fn lemma_invoked_are_eligible(scene: SceneView, batch: Seq<QueuedEvent>, i: int)
    requires
        0 <= i < batch_invocations(scene, batch).len(),
    ensures
        scene.store.eligible(
            batch_invocations(scene, batch)[i].observer,
            batch_invocations(scene, batch)[i].event.target,
            batch_invocations(scene, batch)[i].event.event_type,
        ),
        batch.contains(batch_invocations(scene, batch)[i].event),
    decreases batch.len(),
{
    if batch.len() > 0 {
        let first = event_invocations(scene, batch[0]);
        if i < first.len() {
            lemma_due_are_eligible(scene.store, scene.registry.bucket(batch[0].key()), batch[0], i);
            assert(batch[0] == batch_invocations(scene, batch)[i].event);
        } else {
            lemma_invoked_are_eligible(scene, batch.drop_first(), i - first.len());
            let event = batch_invocations(scene, batch)[i].event;
            let at = batch.drop_first().index_of(event);
            assert(batch[at + 1] == event);
        }
    }
}

/// An observer that is not attached is not invoked, whatever events are
/// dispatched.
pub proof fn lemma_detached_not_invoked(scene: SceneView, id: ObserverId, batch: Seq<QueuedEvent>)
    requires
        !scene.store.attached(id),
    ensures
        forall|i: int|
            0 <= i < batch_invocations(scene, batch).len() ==> (#[trigger] batch_invocations(
                scene,
                batch,
            )[i]).observer != id,
{
    assert forall|i: int| 0 <= i < batch_invocations(scene, batch).len() implies (
    #[trigger] batch_invocations(scene, batch)[i]).observer != id by {
        lemma_invoked_are_eligible(scene, batch, i);
    }
}

/// An observer identifier that has been handed out and is not attached
/// stays unattached whatever command is applied: identifiers are not used
/// twice.
pub proof fn lemma_gone_for_good(scene: SceneView, command: Command, id: ObserverId)
    requires
        id.0 < scene.store.next_observer,
        !scene.store.attached(id),
    ensures
        id.0 < scene.apply(command).0.store.next_observer,
        !scene.apply(command).0.store.attached(id),
{
}

/// Once an observer has been detached, no sequence of commands brings it
/// back, and no cycle that runs afterwards invokes it.
pub proof fn lemma_no_stale_invoke(
    scene: SceneView,
    id: ObserverId,
    commands: Seq<Command>,
    batch: Seq<QueuedEvent>,
)
    requires
        id.0 < scene.store.next_observer,
        !scene.store.attached(id),
    ensures
        id.0 < scene.apply_all(commands).0.store.next_observer,
        !scene.apply_all(commands).0.store.attached(id),
        forall|i: int|
            0 <= i < batch_invocations(scene.apply_all(commands).0, batch).len() ==> (
            #[trigger] batch_invocations(scene.apply_all(commands).0, batch)[i]).observer != id,
    decreases commands.len(),
{
    if commands.len() > 0 {
        lemma_no_stale_invoke(scene, id, commands.drop_last(), batch);
        lemma_gone_for_good(scene.apply_all(commands.drop_last()).0, commands.last(), id);
    }
    lemma_detached_not_invoked(scene.apply_all(commands).0, id, batch);
}

/// Detaching an observer takes it out of the store and out of the registry.
pub proof fn lemma_detach_detaches(scene: SceneView, id: ObserverId)
    ensures
        !scene.detach(id).store.attached(id),
        !scene.detach(id).registry.keys.contains_key(id),
{
}

/// Detaching twice is detaching once: the second time nothing is left to
/// remove, neither in the store nor in the registry.
pub proof fn lemma_detach_twice(scene: SceneView, id: ObserverId)
    ensures
        scene.detach(id).detach(id) == scene.detach(id),
{
    let once = scene.detach(id);
    assert(once.store.observers.remove(id) =~= once.store.observers);
}

/// Detaching an observer that is not attached changes nothing.
pub proof fn lemma_detach_absent(scene: SceneView, id: ObserverId)
    requires
        scene.wf(),
        !scene.store.attached(id),
    ensures
        scene.detach(id) == scene,
{
    assert(scene.store.observers.remove(id) =~= scene.store.observers);
}

/// Despawning an entity detaches the observers it owns, so that detaching
/// one of them afterwards changes nothing.
pub proof fn lemma_detach_after_despawn(scene: SceneView, entity: EntityId, id: ObserverId)
    requires
        scene.wf(),
        scene.store.attached(id),
        scene.store.observers[id].owner == entity,
    ensures
        !scene.despawn(entity).store.attached(id),
        !scene.despawn(entity).registry.keys.contains_key(id),
        scene.despawn(entity).detach(id) == scene.despawn(entity),
{
    scene.lemma_apply_wf(Command::Despawn(entity));
    lemma_detach_absent(scene.despawn(entity), id);
}

/// The invocations of a batch are those of its front part followed by those
/// of its back part: events are dispatched in the order in which they were
/// enqueued, and what is due to the earlier ones does not depend on the
/// later ones.
pub proof fn lemma_batch_invocations_append(
    scene: SceneView,
    front: Seq<QueuedEvent>,
    back: Seq<QueuedEvent>,
)
    ensures
        batch_invocations(scene, front + back) == batch_invocations(scene, front) + batch_invocations(
            scene,
            back,
        ),
        batch_invocations(scene, front + back).take(batch_invocations(scene, front).len() as int)
            == batch_invocations(scene, front),
    decreases front.len(),
{
    let whole = front + back;
    if front.len() == 0 {
        assert(whole =~= back);
        assert(batch_invocations(scene, front) + batch_invocations(scene, back)
            =~= batch_invocations(scene, back));
    } else {
        assert(whole.drop_first() =~= front.drop_first() + back);
        assert(whole[0] == front[0]);
        lemma_batch_invocations_append(scene, front.drop_first(), back);
        let first = event_invocations(scene, front[0]);
        let middle = batch_invocations(scene, front.drop_first());
        let last = batch_invocations(scene, back);
        assert(first + (middle + last) =~= (first + middle) + last);
    }
    let done = batch_invocations(scene, front);
    assert((done + batch_invocations(scene, back)).take(done.len() as int) =~= done);
}

/// In a well-formed scene a lookup gives exactly the attached observers
/// that watch the key, each once: none more, none missing.
pub proof fn lemma_lookup_matches_store(scene: SceneView, key: ObserverKey)
    requires
        scene.wf(),
    ensures
        scene.registry.bucket(key).no_duplicates(),
        forall|id: ObserverId|
            scene.registry.bucket(key).contains(id) <==> scene.store.attached(id)
                && scene.store.observers[id].key() == key,
{
    let bucket = scene.registry.bucket(key);
    assert forall|id: ObserverId| bucket.contains(id) <==> scene.store.attached(id)
        && scene.store.observers[id].key() == key by {
        if bucket.contains(id) {
            let i = bucket.index_of(id);
            assert(scene.registry.buckets.contains_key(key));
            assert(scene.registry.keys.contains_key(scene.registry.buckets[key][i]));
        }
        if scene.store.attached(id) && scene.store.observers[id].key() == key {
            assert(scene.registry.keys.contains_key(id));
        }
    }
}

/// Where every listed observer is attached and watches the event, each is
/// invoked, in the order of the list.
pub proof fn lemma_due_all(store: StoreView, ids: Seq<ObserverId>, event: QueuedEvent)
    requires
        forall|i: int| 0 <= i < ids.len() ==> store.eligible(ids[i], event.target, event.event_type),
    ensures
        due(store, ids, event).len() == ids.len(),
        forall|i: int|
            0 <= i < ids.len() ==> #[trigger] due(store, ids, event)[i] == invocation_of(
                store,
                ids[i],
                event,
            ),
    decreases ids.len(),
{
    if ids.len() > 0 {
        let rest = ids.drop_first();
        assert forall|i: int| 0 <= i < rest.len() implies store.eligible(
            rest[i],
            event.target,
            event.event_type,
        ) by {
            assert(rest[i] == ids[i + 1]);
        }
        lemma_due_all(store, rest, event);
        assert(store.eligible(ids[0], event.target, event.event_type));
        assert forall|i: int| 0 <= i < ids.len() implies #[trigger] due(store, ids, event)[i]
            == invocation_of(store, ids[i], event) by {
            if i > 0 {
                assert(due(store, ids, event)[i] == due(store, rest, event)[i - 1]);
                assert(rest[i - 1] == ids[i]);
            }
        }
    }
}

/// In a well-formed scene an event invokes every observer registered for
/// it, each exactly once and in registration order: the registry lists no
/// observer that the store has let go.
pub proof fn lemma_event_invocations_complete(scene: SceneView, event: QueuedEvent)
    requires
        scene.wf(),
    ensures
        event_invocations(scene, event).len() == scene.registry.bucket(event.key()).len(),
        scene.registry.bucket(event.key()).no_duplicates(),
        forall|i: int|
            0 <= i < scene.registry.bucket(event.key()).len() ==> #[trigger] event_invocations(
                scene,
                event,
            )[i] == invocation_of(scene.store, scene.registry.bucket(event.key())[i], event),
{
    let bucket = scene.registry.bucket(event.key());
    lemma_lookup_matches_store(scene, event.key());
    assert forall|i: int| 0 <= i < bucket.len() implies scene.store.eligible(
        bucket[i],
        event.target,
        event.event_type,
    ) by {
        assert(bucket.contains(bucket[i]));
    }
    lemma_due_all(scene.store, bucket, event);
}

/// Once an observer has been detached it is never invoked again: not in
/// the next cycle, and, since no cycle brings it back whatever its
/// callbacks ask for, in none after it.
pub proof fn lemma_never_invoked_again(world: WorldView, id: ObserverId, reactions: Seq<Reaction>)
    requires
        id.0 < world.scene.store.next_observer,
        !world.scene.store.attached(id),
    ensures
        forall|i: int|
            0 <= i < world.invocations().len() ==> (#[trigger] world.invocations()[i]).observer != id,
        id.0 < world.cycle(reactions).0.scene.store.next_observer,
        !world.cycle(reactions).0.scene.store.attached(id),
{
    lemma_detached_not_invoked(world.scene, id, world.queue);
    lemma_no_stale_invoke(
        world.scene,
        id,
        world.commands + commands_of(reactions),
        Seq::<QueuedEvent>::empty(),
    );
}

/// A cycle leaves the registry and the store in agreement, whatever its
/// callbacks ask for: after it, a lookup gives exactly the attached
/// observers that watch the key, each once.
pub proof fn lemma_cycle_keeps_agreement(world: WorldView, reactions: Seq<Reaction>, key: ObserverKey)
    requires
        world.scene.wf(),
    ensures
        world.cycle(reactions).0.scene.wf(),
        world.cycle(reactions).0.scene.registry.bucket(key).no_duplicates(),
        forall|id: ObserverId|
            world.cycle(reactions).0.scene.registry.bucket(key).contains(id) <==> world.cycle(
                reactions,
            ).0.scene.store.attached(id) && world.cycle(reactions).0.scene.store.observers[id].key()
                == key,
{
    world.scene.lemma_apply_all_wf(world.commands + commands_of(reactions));
    lemma_lookup_matches_store(world.cycle(reactions).0.scene, key);
}

} // verus!
