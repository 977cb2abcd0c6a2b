//! A pointer-press scene: a camera, a pick target that fills the window,
//! and an entity, marked with `PickObserver`, whose observer watches the
//! target for presses.
//!
//! The scene is set up, the observer is removed by a deferred command, and
//! then the target is pressed. The press must find no observer to invoke.

use crate::commands::{Command, CommandBuffer};
use crate::dispatch::{batch_invocations, Invocation, Reaction};
use crate::ids::{CallbackId, ComponentKind, EntityId, Error, EventType, ObserverId};
use crate::laws::lemma_invoked_are_eligible;
use crate::queue::QueuedEvent;
use crate::scene::SceneView;
use crate::store::{Component, ObserverComponent};
use crate::world::{Callbacks, CycleReport, World, WorldView};
use vstd::prelude::*;

verus! {

/// The raw type of the event that a pressed pointer button raises.
pub const DOWN: u32 = 1;

/// The raw kind of the component that marks a camera.
pub const CAMERA: u32 = 1;

/// The raw kind of the component that marks a node of the interface. Its
/// value is the share of the window that the node fills, in percent.
pub const NODE: u32 = 2;

/// The raw kind of the component that marks the entity which owns the pick
/// observer.
pub const PICK_OBSERVER: u32 = 3;

/// Marks the entity that owns the pick observer.
#[derive(Clone, Copy, Debug, PartialEq, Eq, Structural)]
pub struct PickObserver;

impl PickObserver {
    /// The kind under which the marker is filed.
    pub fn kind() -> (kind: ComponentKind)
        ensures
            kind == ComponentKind(PICK_OBSERVER),
    {
        ComponentKind(PICK_OBSERVER)
    }

    /// The marker as a component.
    pub fn component() -> (component: Component)
        ensures
            component == (Component { kind: ComponentKind(PICK_OBSERVER), value: 0 }),
    {
        Component { kind: ComponentKind(PICK_OBSERVER), value: 0 }
    }
}

/// The entities of the scene and the observer among them.
#[derive(Clone, Copy, Debug, PartialEq, Eq, Structural)]
pub struct Stage {
    pub camera: EntityId,
    pub pick_target: EntityId,
    pub pick_observer: EntityId,
    pub observer: ObserverId,
}

/// The observer component of the scene: owned by the marked entity, it
/// watches the pick target for presses.
pub open spec fn pick_component(
    pick_observer: EntityId,
    pick_target: EntityId,
    callback: CallbackId,
) -> ObserverComponent {
    ObserverComponent {
        owner: pick_observer,
        watched: pick_target,
        event_type: EventType(DOWN),
        callback,
    }
}

/// Whether the scene can still be set up: three entity identifiers and one
/// observer identifier are left.
pub open spec fn room_for_stage(world: WorldView) -> bool {
    world.scene.store.next_entity <= u64::MAX - 3 && world.scene.store.next_observer < u64::MAX
}

/// The stage that `setup` builds in `world`.
pub open spec fn stage_of(world: WorldView) -> Stage {
    Stage {
        camera: EntityId(world.scene.store.next_entity),
        pick_target: EntityId((world.scene.store.next_entity + 1) as u64),
        pick_observer: EntityId((world.scene.store.next_entity + 2) as u64),
        observer: ObserverId(world.scene.store.next_observer),
    }
}

/// The scene after `setup`.
pub open spec fn scene_after_setup(scene: SceneView, callback: CallbackId) -> SceneView {
    let n = scene.store.next_entity;
    scene.spawn(seq![Component { kind: ComponentKind(CAMERA), value: 0 }]).spawn(
        seq![Component { kind: ComponentKind(NODE), value: 100 }],
    ).spawn(seq![Component { kind: ComponentKind(PICK_OBSERVER), value: 0 }]).attach(
        pick_component(EntityId((n + 2) as u64), EntityId((n + 1) as u64), callback),
    )
}

/// The press of the pointer on `picked`, as seen through `camera`.
pub open spec fn press(camera: EntityId, picked: EntityId) -> QueuedEvent {
    QueuedEvent { event_type: EventType(DOWN), target: picked, payload: camera.0 }
}

/// The world after the pointer has been pressed on `picked`.
pub open spec fn pressed(world: WorldView, camera: EntityId, picked: EntityId) -> WorldView {
    WorldView { queue: world.queue.push(press(camera, picked)), ..world }
}

/// The world after `startup`: the scene is set up, and the waiting commands
/// have been applied, the removal of the pick observer last.
pub open spec fn started(world: WorldView, callback: CallbackId) -> WorldView {
    (WorldView {
        scene: scene_after_setup(world.scene, callback),
        commands: world.commands.push(Command::RemoveObservers(stage_of(world).pick_observer)),
        ..world
    }).sync().0
}

/// Spawns the camera, the pick target and the marked entity, and attaches
/// to the latter an observer that watches the pick target for presses and
/// runs `callback`. Where the identifiers would not suffice nothing is
/// done.
pub fn setup(world: &mut World, callback: CallbackId) -> (built: Result<Stage, Error>)
    requires
        old(world).wf(),
    ensures
        final(world).wf(),
        !room_for_stage(old(world)@) ==> built == Err::<Stage, Error>(Error::Exhausted)
            && final(world)@ == old(world)@,
        room_for_stage(old(world)@) ==> built == Ok::<Stage, Error>(stage_of(old(world)@))
            && final(world)@ == (WorldView {
            scene: scene_after_setup(old(world)@.scene, callback),
            ..old(world)@
        }),
{
    let first = world.scene().store().next_entity();
    if first > u64::MAX - 3 || world.scene().store().next_observer() == u64::MAX {
        return Err(Error::Exhausted);
    }
    let mut camera_parts: Vec<Component> = Vec::new();
    camera_parts.push(Component { kind: ComponentKind(CAMERA), value: 0 });
    let mut target_parts: Vec<Component> = Vec::new();
    target_parts.push(Component { kind: ComponentKind(NODE), value: 100 });
    let mut marker_parts: Vec<Component> = Vec::new();
    marker_parts.push(PickObserver::component());
    proof {
        assert(camera_parts@ =~= seq![Component { kind: ComponentKind(CAMERA), value: 0 }]);
        assert(target_parts@ =~= seq![Component { kind: ComponentKind(NODE), value: 100 }]);
        assert(marker_parts@ =~= seq![Component { kind: ComponentKind(PICK_OBSERVER), value: 0 }]);
    }
    let camera = match world.spawn(&camera_parts) {
        Ok(entity) => entity,
        Err(error) => {
            return Err(error);
        },
    };
    let pick_target = match world.spawn(&target_parts) {
        Ok(entity) => entity,
        Err(error) => {
            return Err(error);
        },
    };
    let pick_observer = match world.spawn(&marker_parts) {
        Ok(entity) => entity,
        Err(error) => {
            return Err(error);
        },
    };
    let component = ObserverComponent {
        owner: pick_observer,
        watched: pick_target,
        event_type: EventType(DOWN),
        callback,
    };
    match world.attach_component(component) {
        Ok(observer) => Ok(Stage { camera, pick_target, pick_observer, observer }),
        Err(error) => Err(error),
    }
}

/// Asks for the observers of `pick_observer` to be removed at the next sync
/// point.
pub fn disable_observer(pick_observer: EntityId, commands: &mut CommandBuffer)
    ensures
        final(commands)@ == old(commands)@.push(Command::RemoveObservers(pick_observer)),
{
    commands.push(Command::RemoveObservers(pick_observer));
}

/// Presses the pointer on `picked`, as seen through `camera`: enqueues the
/// press, aimed at `picked`, with the camera as its payload. A target that
/// does not exist is reported as not found.
pub fn fire_observer(world: &mut World, camera: EntityId, picked: EntityId) -> (fired: Result<
    (),
    Error,
>)
    requires
        old(world).wf(),
    ensures
        final(world).wf(),
        fired == if old(world)@.scene.store.live(picked) {
            Ok::<(), Error>(())
        } else {
            Err::<(), Error>(Error::NotFound)
        },
        fired is Ok ==> final(world)@ == pressed(old(world)@, camera, picked),
        fired is Err ==> final(world)@ == old(world)@,
{
    world.enqueue_event(EventType(DOWN), picked, camera.0)
}

/// The start of the program: sets the scene up, asks for the pick observer
/// to be removed, and passes the sync point, at which every waiting command
/// is applied, that removal last.
pub fn startup(world: &mut World, callback: CallbackId) -> (built: Result<Stage, Error>)
    requires
        old(world).wf(),
    ensures
        final(world).wf(),
        !room_for_stage(old(world)@) ==> built == Err::<Stage, Error>(Error::Exhausted)
            && final(world)@ == old(world)@,
        room_for_stage(old(world)@) ==> built == Ok::<Stage, Error>(stage_of(old(world)@))
            && final(world)@ == started(old(world)@, callback),
{
    let stage = match setup(world, callback) {
        Ok(stage) => stage,
        Err(error) => {
            return Err(error);
        },
    };
    let mut commands = CommandBuffer::new();
    disable_observer(stage.pick_observer, &mut commands);
    world.submit(&mut commands);
    proof {
        assert(old(world)@.commands + seq![Command::RemoveObservers(stage.pick_observer)]
            =~= old(world)@.commands.push(Command::RemoveObservers(stage.pick_observer)));
    }
    world.sync();
    Ok(stage)
}

/// One frame of the program: presses the pointer on the pick target and
/// runs a dispatch cycle. A pick target that does not exist is reported as
/// not found, and no cycle runs.
pub fn update<C: Callbacks>(world: &mut World, stage: &Stage, callbacks: &mut C) -> (ran: Result<
    CycleReport,
    Error,
>)
    requires
        old(world).wf(),
    ensures
        final(world).wf(),
        ran is Ok <==> old(world)@.scene.store.live(stage.pick_target),
        ran is Err ==> ran->Err_0 == Error::NotFound && final(world)@ == old(world)@,
        ran is Ok ==> ran->Ok_0.invocations@ == pressed(
            old(world)@,
            stage.camera,
            stage.pick_target,
        ).invocations(),
        ran is Ok ==> exists|reactions: Seq<Reaction>|
            reactions.len() == ran->Ok_0.invocations@.len() && (final(world)@, ran->Ok_0.answers@)
                == #[trigger] pressed(old(world)@, stage.camera, stage.pick_target).cycle(reactions),
{
    match fire_observer(world, stage.camera, stage.pick_target) {
        Ok(_) => Ok(world.run_cycle(callbacks)),
        Err(error) => Err(error),
    }
}

/// After a startup in a world in which nothing waits, the pick target
/// exists, the pick observer is gone, and a press on the pick target invokes
/// nothing.
pub proof fn lemma_press_after_disable(world: WorldView, callback: CallbackId)
    requires
        world.scene.wf(),
        room_for_stage(world),
        world.commands.len() == 0,
        world.queue.len() == 0,
    ensures
        started(world, callback).scene.wf(),
        started(world, callback).scene.store.live(stage_of(world).pick_target),
        scene_after_setup(world.scene, callback).store.attached(stage_of(world).observer),
        !started(world, callback).scene.store.attached(stage_of(world).observer),
        pressed(
            started(world, callback),
            stage_of(world).camera,
            stage_of(world).pick_target,
        ).invocations() == Seq::<Invocation>::empty(),
{
    let stage = stage_of(world);
    let scene = world.scene;
    let camera_parts = seq![Component { kind: ComponentKind(CAMERA), value: 0 }];
    let target_parts = seq![Component { kind: ComponentKind(NODE), value: 100 }];
    let marker_parts = seq![Component { kind: ComponentKind(PICK_OBSERVER), value: 0 }];
    let component = pick_component(stage.pick_observer, stage.pick_target, callback);
    scene.lemma_spawn_wf(camera_parts);
    let one = scene.spawn(camera_parts);
    one.lemma_spawn_wf(target_parts);
    let two = one.spawn(target_parts);
    two.lemma_spawn_wf(marker_parts);
    let three = two.spawn(marker_parts);
    three.lemma_attach_wf(component);
    let built = scene_after_setup(scene, callback);
    assert(built == three.attach(component));
    let removal = Command::RemoveObservers(stage.pick_observer);
    let waiting = world.commands.push(removal);
    assert(waiting.drop_last() =~= Seq::<Command>::empty());
    assert(waiting.last() == removal);
    reveal_with_fuel(SceneView::apply_all, 2);
    let disabled = built.apply(removal).0;
    assert(started(world, callback).scene == disabled);
    built.lemma_apply_wf(removal);
    let batch = seq![press(stage.camera, stage.pick_target)];
    assert(started(world, callback).queue.push(press(stage.camera, stage.pick_target)) =~= batch);
    if batch_invocations(disabled, batch).len() > 0 {
        lemma_invoked_are_eligible(disabled, batch, 0);
        let found = batch_invocations(disabled, batch)[0];
        assert(found.event == batch[0]);
        assert(disabled.store.observers.contains_key(found.observer));
        if found.observer != stage.observer {
            assert(scene.store.observers.contains_key(found.observer));
        }
    }
    assert(batch_invocations(disabled, batch) =~= Seq::<Invocation>::empty());
}

} // verus!
