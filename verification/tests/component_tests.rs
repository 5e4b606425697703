use godot_ecs::access::Access;
use godot_ecs::access::conflicts;
use godot_ecs::commands::CommandBuffer;
use godot_ecs::input::GodotInput;
use godot_ecs::input::InputQueue;
use godot_ecs::math::Transform2D;
use godot_ecs::math::sat_add_i64;
use godot_ecs::render::Rid;
use godot_ecs::resources::RenderablesToRemove;
use godot_ecs::resources::ResourceKey;
use godot_ecs::resources::ResourceStore;
use godot_ecs::resources::ResourceValue;
use godot_ecs::schedule::ConfigError;
use godot_ecs::schedule::Schedule;
use godot_ecs::schedule::Stages;
use godot_ecs::store::ComponentStore;
use godot_ecs::store::Renderable;
use godot_ecs::systems::SystemKind;
use godot_ecs::systems::access_of;

fn rid(id: u64) -> Rid {
    Rid { id }
}

fn renderable(id: u64) -> Renderable {
    Renderable { rid: rid(id), global_transform: Transform2D::identity() }
}

#[test]
fn input_queue_is_fifo() {
    let mut q = InputQueue::new();
    assert_eq!(q.read_single(), None);
    q.add(GodotInput::MoveUp);
    q.add(GodotInput::MoveLeft);
    assert_eq!(q.read_single(), Some(GodotInput::MoveUp));
    assert_eq!(q.read_single(), Some(GodotInput::MoveLeft));
    assert_eq!(q.read_single(), None);
}

#[test]
fn input_queue_read_all_drains_everything() {
    let mut q = InputQueue::new();
    q.add(GodotInput::MoveDown);
    q.add(GodotInput::MoveRight);
    q.add(GodotInput::MoveDown);
    let drained = q.read_all();
    assert_eq!(
        drained,
        vec![GodotInput::MoveDown, GodotInput::MoveRight, GodotInput::MoveDown]
    );
    assert_eq!(q.queue.len(), 0);
    assert_eq!(q.read_all(), Vec::new());
}

#[test]
fn store_spawn_insert_get_remove() {
    let mut store = ComponentStore::new();
    let a = store.spawn();
    let b = store.spawn();
    let c = store.spawn();
    assert_eq!((a, b, c), (0, 1, 2));
    store.insert(a, renderable(11));
    store.insert(c, renderable(33));
    assert_eq!(store.get(a).unwrap().rid, rid(11));
    assert!(store.get(b).is_none());
    assert_eq!(store.get(c).unwrap().rid, rid(33));

    // The query yields exactly the entities possessing the component, in
    // slot order.
    assert_eq!(store.query(), vec![a, c]);

    store.remove(a);
    assert!(store.get(a).is_none());
    assert_eq!(store.len(), 2);
    assert_eq!(store.query(), vec![c]);

    // Removing an absent entity is a no-op.
    store.remove(a);
    assert_eq!(store.len(), 2);
}

#[test]
fn resource_store_is_keyed_singleton_storage() {
    let mut rs = ResourceStore::new();
    assert!(!rs.contains(ResourceKey::Removals));
    assert!(!rs.contains(ResourceKey::Input));

    rs.insert(ResourceValue::Removals(RenderablesToRemove::new()));
    assert!(rs.contains(ResourceKey::Removals));
    assert!(!rs.contains(ResourceKey::Input));

    // A second insert under the same key replaces the singleton.
    let mut list = RenderablesToRemove::new();
    list.vec.push(rid(8));
    rs.insert(ResourceValue::Removals(list));
    match rs.take(ResourceKey::Removals) {
        Some(ResourceValue::Removals(r)) => assert_eq!(r.vec, vec![rid(8)]),
        _ => panic!("expected the removals resource"),
    }
    assert!(!rs.contains(ResourceKey::Removals));
    assert!(rs.take(ResourceKey::Input).is_none());
}

#[test]
fn command_buffer_despawn_is_idempotent_and_flush_clears() {
    let mut store = ComponentStore::new();
    let a = store.spawn();
    let b = store.spawn();
    store.insert(a, renderable(1));
    store.insert(b, renderable(2));

    let mut buf = CommandBuffer::new();
    buf.despawn(a);
    buf.despawn(a);
    assert_eq!(buf.despawns, vec![a]);

    buf.flush(&mut store);
    assert_eq!(buf.despawns.len(), 0);
    assert!(store.get(a).is_none());
    assert_eq!(store.get(b).unwrap().rid, rid(2));
    assert_eq!(store.len(), 1);

    // Flushing an empty buffer changes nothing.
    buf.flush(&mut store);
    assert_eq!(store.len(), 1);
}

#[test]
fn schedule_rejects_unknown_stage() {
    let mut s = Schedule::new();
    let r = s.add_system_to_stage(Stages::Update, SystemKind::MovePlayer, Vec::new());
    assert_eq!(r, Err(ConfigError::UnknownStage));
}

#[test]
fn schedule_rejects_dangling_dependency() {
    let mut s = Schedule::new();
    s.add_stage(Stages::Preupdate, false);
    let r = s.add_system_to_stage(Stages::Preupdate, SystemKind::CleanupRids, vec![0]);
    assert_eq!(r, Err(ConfigError::InvalidDependency));
}

#[test]
fn schedule_rejects_unordered_aliasing_conflict() {
    // Cleanup reads the renderable component, input handling writes it: in
    // one stage without an ordering edge that aliases, and the construction
    // API refuses it.
    let mut s = Schedule::new();
    s.add_stage(Stages::Preupdate, false);
    assert_eq!(
        s.add_system_to_stage(Stages::Preupdate, SystemKind::CleanupRids, Vec::new()),
        Ok(0)
    );
    assert_eq!(
        s.add_system_to_stage(Stages::Preupdate, SystemKind::HandleInput, Vec::new()),
        Err(ConfigError::AccessConflict)
    );
    // With the explicit runs-after edge the same pair is accepted.
    assert_eq!(
        s.add_system_to_stage(Stages::Preupdate, SystemKind::HandleInput, vec![0]),
        Ok(1)
    );
}

#[test]
fn access_signatures_conflict_exactly_on_aliasing() {
    let cleanup: Vec<Access> = access_of(SystemKind::CleanupRids);
    let input: Vec<Access> = access_of(SystemKind::HandleInput);
    let sync: Vec<Access> = access_of(SystemKind::MovePlayer);
    let startup: Vec<Access> = access_of(SystemKind::HelloWorld);

    assert!(conflicts(&cleanup, &input)); // component: read vs. write
    assert!(conflicts(&input, &input)); // component: write vs. write
    assert!(!conflicts(&cleanup, &sync)); // component: read vs. read
    assert!(!conflicts(&sync, &startup)); // nothing shared
}

#[test]
fn translation_saturates_at_the_coordinate_range() {
    assert_eq!(sat_add_i64(5, -1), 4);
    assert_eq!(sat_add_i64(i64::MAX, 1), i64::MAX);
    assert_eq!(sat_add_i64(i64::MIN, -1), i64::MIN);

    let far = Transform2D { m31: i64::MAX, ..Transform2D::identity() };
    let moved = far.translated(1, 1);
    assert_eq!(moved.m31, i64::MAX);
    assert_eq!(moved.m32, 1);
}

#[test]
fn scheduler_spends_run_once_and_keeps_running_other_stages() {
    let mut s = Schedule::new();
    s.add_stage(Stages::Startup, true);
    s.add_stage(Stages::Update, false);
    assert_eq!(
        s.add_system_to_stage(Stages::Startup, SystemKind::HelloWorld, Vec::new()),
        Ok(0)
    );
    assert_eq!(
        s.add_system_to_stage(Stages::Update, SystemKind::MovePlayer, Vec::new()),
        Ok(0)
    );

    let mut world = godot_ecs::world::WorldState::new();
    world.resources.insert(ResourceValue::Removals(RenderablesToRemove::new()));
    world.resources.insert(ResourceValue::Input(InputQueue::new()));
    let e = world.store.spawn();
    world.store.insert(e, renderable(5));

    let ops = s.run(&mut world);
    assert_eq!(ops.len(), 1);
    assert!(s.stages[0].done);
    assert!(s.stages[1].done);

    // The run-once stage is skipped from now on; the others run every pass.
    let ops2 = s.run(&mut world);
    assert_eq!(ops2.len(), 1);
}
