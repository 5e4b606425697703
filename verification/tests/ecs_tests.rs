use godot_ecs::ecs::ECS;
use godot_ecs::math::Transform2D;
use godot_ecs::render::Rid;
use godot_ecs::render::RenderOp;

fn rid(id: u64) -> Rid {
    Rid { id }
}

fn release_count(ops: &[RenderOp], h: Rid) -> usize {
    ops.iter()
        .filter(|op| matches!(op, RenderOp::Release { rid } if *rid == h))
        .count()
}

fn set_transform_ops(ops: &[RenderOp]) -> Vec<(Rid, Transform2D)> {
    ops.iter()
        .filter_map(|op| match op {
            RenderOp::SetTransform { rid, transform } => Some((*rid, *transform)),
            _ => None,
        })
        .collect()
}

#[test]
fn move_right_scenario() {
    // Register one entity at the identity transform, poll with move_right
    // asserted, advance once: the x translation is +1 and the renderer
    // receives exactly one set-transform command carrying it.
    let mut ecs = ECS::new();
    ecs.register_entity(rid(7), Transform2D::identity());
    ecs.read_input(false, false, false, true);
    let ops = ecs.step();

    let r = ecs.world.store.get(0).expect("entity should be live");
    assert_eq!(r.global_transform.m31, 1);
    assert_eq!(r.global_transform.m32, 0);

    let syncs = set_transform_ops(&ops);
    assert_eq!(syncs.len(), 1);
    assert_eq!(syncs[0].0, rid(7));
    assert_eq!(syncs[0].1.m31, 1);
    assert_eq!(syncs[0].1.m32, 0);
    assert_eq!(release_count(&ops, rid(7)), 0);
}

#[test]
fn despawn_then_release() {
    // Unregister followed by one advance: the entity is gone from the store
    // and exactly one release command for its handle was emitted.
    let mut ecs = ECS::new();
    ecs.register_entity(rid(5), Transform2D::identity());
    ecs.unregister_entity_deferred(rid(5));
    let ops = ecs.step();

    assert_eq!(ecs.world.store.len(), 0);
    assert!(ecs.world.store.get(0).is_none());
    assert_eq!(release_count(&ops, rid(5)), 1);
    // The despawned entity gets no render synchronization after the flush.
    assert_eq!(set_transform_ops(&ops).len(), 0);
}

#[test]
fn input_accumulation() {
    // Three polls with the same action asserted, one advance: every
    // renderable moved three unit steps in the mapped direction.
    let mut ecs = ECS::new();
    ecs.register_entity(rid(1), Transform2D::identity());
    ecs.register_entity(rid(2), Transform2D::identity());
    ecs.read_input(false, false, false, true);
    ecs.read_input(false, false, false, true);
    ecs.read_input(false, false, false, true);
    ecs.step();

    for e in [0u64, 1u64] {
        let r = ecs.world.store.get(e).expect("live");
        assert_eq!(r.global_transform.m31, 3);
        assert_eq!(r.global_transform.m32, 0);
    }
}

#[test]
fn queue_totality() {
    // After any advance the input queue is empty: a second advance applies
    // no event twice.
    let mut ecs = ECS::new();
    ecs.register_entity(rid(1), Transform2D::identity());
    ecs.read_input(true, false, true, false);
    ecs.step();
    let q = ecs.world.resources.input.as_ref().expect("input resource");
    assert_eq!(q.queue.len(), 0);

    ecs.step();
    let r = ecs.world.store.get(0).expect("live");
    assert_eq!(r.global_transform.m31, -1);
    assert_eq!(r.global_transform.m32, -1);
}

#[test]
fn idempotent_empty_cleanup() {
    // An advance with an empty pending-removal list leaves the component
    // store and the list unchanged: no spurious despawns or releases.
    let mut ecs = ECS::new();
    ecs.register_entity(rid(9), Transform2D::identity());
    ecs.step();
    let before_len = ecs.world.store.len();
    let before = ecs.world.store.get(0).expect("live");

    let ops = ecs.step();
    assert_eq!(ecs.world.store.len(), before_len);
    let after = ecs.world.store.get(0).expect("live");
    assert_eq!(after, before);
    assert_eq!(release_count(&ops, rid(9)), 0);
    let removals = ecs.world.resources.removals.as_ref().expect("resource");
    assert_eq!(removals.vec.len(), 0);
}

#[test]
fn stage_barrier_order() {
    // Within one pass: cleanup (Preupdate) releases first, input handling
    // completes, the flush removes the entity, and only then does Update
    // emit synchronizations -- over the store exactly as Preupdate left it.
    let mut ecs = ECS::new();
    ecs.register_entity(rid(10), Transform2D::identity());
    ecs.register_entity(rid(20), Transform2D::identity());
    ecs.unregister_entity_deferred(rid(10));
    ecs.read_input(false, false, false, true);
    let ops = ecs.step();

    assert_eq!(ops.len(), 2);
    assert_eq!(ops[0], RenderOp::Release { rid: rid(10) });
    match ops[1] {
        RenderOp::SetTransform { rid: r, transform } => {
            assert_eq!(r, rid(20));
            assert_eq!(transform.m31, 1);
        },
        _ => panic!("expected a set-transform command"),
    }
    assert_eq!(ecs.world.store.len(), 1);
}

#[test]
fn startup_runs_once() {
    // The startup stage's run-once criterion: spent after the first advance,
    // spent it stays over any number of further advances.
    let mut ecs = ECS::new();
    assert!(!ecs.startup_done());
    ecs.step();
    assert!(ecs.startup_done());
    ecs.step();
    ecs.step();
    assert!(ecs.startup_done());
}

#[test]
fn unregister_unknown_handle_is_ignored() {
    // Unregistering a handle with no matching live entity is silently
    // ignored: the cleanup system finds no match and clears the list.
    let mut ecs = ECS::new();
    ecs.register_entity(rid(3), Transform2D::identity());
    ecs.unregister_entity_deferred(rid(99));
    let ops = ecs.step();

    assert_eq!(ecs.world.store.len(), 1);
    assert_eq!(release_count(&ops, rid(99)), 0);
    assert_eq!(release_count(&ops, rid(3)), 0);
    let removals = ecs.world.resources.removals.as_ref().expect("resource");
    assert_eq!(removals.vec.len(), 0);
}

#[test]
fn mixed_direction_events_accumulate_in_queue_order() {
    // One poll with up and right asserted queues both events; both apply to
    // every renderable.
    let mut ecs = ECS::new();
    ecs.register_entity(rid(4), Transform2D::identity());
    ecs.read_input(true, false, false, true);
    ecs.read_input(false, true, false, false);
    ecs.step();

    let r = ecs.world.store.get(0).expect("live");
    assert_eq!(r.global_transform.m31, 1);
    assert_eq!(r.global_transform.m32, 0); // up then down cancel
}
