use vstd::prelude::*;
use vstd::pervasive::arbitrary;
use vstd::pervasive::unreached;
use crate::access::Access;
use crate::access::DataKey;
use crate::commands::CommandBuffer;
use crate::commands::despawn_spec;
use crate::input::GodotInput;
use crate::math::Transform2D;
use crate::render::RenderOp;
use crate::render::Rid;
use crate::resources::ResourceKey;
use crate::resources::ResourceValue;
use crate::store::Renderable;
use crate::store::Slot;
use crate::store::slots_wf;
use crate::world::WorldState;
use crate::world::WorldView;

verus! {

/// The units of logic of this simulation.  Dispatch over component and
/// resource types is by tagged variant, with construction-time signature
/// checks in place of runtime type assertions.
#[derive(Clone, Copy, PartialEq, Eq, Structural, Debug)]
pub enum SystemKind {
    HelloWorld,
    CleanupRids,
    HandleInput,
    MovePlayer,
}

/// Unit step of an input event along the x axis.
pub open spec fn event_dx(ev: GodotInput) -> int {
    match ev {
        GodotInput::MoveLeft => -1,
        GodotInput::MoveRight => 1,
        _ => 0,
    }
}

/// Unit step of an input event along the y axis.
pub open spec fn event_dy(ev: GodotInput) -> int {
    match ev {
        GodotInput::MoveUp => -1,
        GodotInput::MoveDown => 1,
        _ => 0,
    }
}

/// One input event applied to a transform: a unit translation in the mapped
/// direction.
pub open spec fn apply_event(t: Transform2D, ev: GodotInput) -> Transform2D {
    t.spec_translated(event_dx(ev), event_dy(ev))
}

/// A whole event sequence applied to a transform, in queue order.
pub open spec fn apply_events(t: Transform2D, evs: Seq<GodotInput>) -> Transform2D
    decreases evs.len(),
{
    if evs.len() == 0 {
        t
    } else {
        apply_event(apply_events(t, evs.drop_last()), evs.last())
    }
}

/// Whether a slot's renderable handle matches an entry of the pending-removal
/// list.
pub open spec fn slot_matches(s: Slot, removals: Seq<Rid>) -> bool {
    match s.data {
        Some(r) => removals.contains(r.rid),
        None => false,
    }
}

/// The renderable handle of a live slot.
pub open spec fn slot_rid(s: Slot) -> Rid {
    match s.data {
        Some(r) => r.rid,
        None => arbitrary(),
    }
}

/// The command buffer after the cleanup system staged a despawn for every
/// matching slot, in slot order.
pub open spec fn cleanup_buf(buf: Seq<u64>, slots: Seq<Slot>, removals: Seq<Rid>) -> Seq<u64>
    decreases slots.len(),
{
    if slots.len() == 0 {
        buf
    } else {
        let rest = cleanup_buf(buf, slots.drop_last(), removals);
        if slot_matches(slots.last(), removals) {
            despawn_spec(rest, slots.last().entity)
        } else {
            rest
        }
    }
}

/// The release commands the cleanup system emits: exactly one per matching
/// slot, in slot order.
pub open spec fn cleanup_ops(slots: Seq<Slot>, removals: Seq<Rid>) -> Seq<RenderOp>
    decreases slots.len(),
{
    if slots.len() == 0 {
        Seq::empty()
    } else {
        let rest = cleanup_ops(slots.drop_last(), removals);
        if slot_matches(slots.last(), removals) {
            rest.push(RenderOp::Release { rid: slot_rid(slots.last()) })
        } else {
            rest
        }
    }
}

/// With nothing pending, cleanup stages no despawn and emits no command.
pub proof fn lemma_cleanup_empty_removals(buf: Seq<u64>, slots: Seq<Slot>)
    ensures
        cleanup_buf(buf, slots, Seq::<Rid>::empty()) == buf,
        cleanup_ops(slots, Seq::<Rid>::empty()) == Seq::<RenderOp>::empty(),
    decreases slots.len(),
{
    if slots.len() > 0 {
        lemma_cleanup_empty_removals(buf, slots.drop_last());
    }
}

/// One slot after the drained input events were applied to its transform.
pub open spec fn input_slot(s: Slot, evs: Seq<GodotInput>) -> Slot {
    match s.data {
        Some(r) => Slot {
            entity: s.entity,
            data: Some(
                Renderable { rid: r.rid, global_transform: apply_events(r.global_transform, evs) },
            ),
        },
        None => s,
    }
}

/// Every slot after the drained input events were applied, cumulatively and
/// in queue order, to every renderable.
pub open spec fn input_slots(slots: Seq<Slot>, evs: Seq<GodotInput>) -> Seq<Slot> {
    slots.map_values(|s: Slot| input_slot(s, evs))
}

/// The transform-synchronization commands the render-sync system emits:
/// exactly one per live slot, in slot order.
pub open spec fn move_ops(slots: Seq<Slot>) -> Seq<RenderOp>
    decreases slots.len(),
{
    if slots.len() == 0 {
        Seq::empty()
    } else {
        let rest = move_ops(slots.drop_last());
        match slots.last().data {
            Some(r) => rest.push(
                RenderOp::SetTransform { rid: r.rid, transform: r.global_transform },
            ),
            None => rest,
        }
    }
}

/// The declared access signature of each system.  The command buffer is not
/// an access: it touches the store only at the stage's flush point.
pub open spec fn spec_access_of(kind: SystemKind) -> Seq<Access> {
    match kind {
        SystemKind::HelloWorld => Seq::empty(),
        SystemKind::CleanupRids => seq![
            Access { key: DataKey::RenderableComponent, write: false },
            Access { key: DataKey::RemovalsResource, write: true },
        ],
        SystemKind::HandleInput => seq![
            Access { key: DataKey::RenderableComponent, write: true },
            Access { key: DataKey::InputResource, write: true },
        ],
        SystemKind::MovePlayer => seq![Access { key: DataKey::RenderableComponent, write: false }],
    }
}

/// Builds a system's access signature, proved equal to [`spec_access_of`].
pub fn access_of(kind: SystemKind) -> (r: Vec<Access>)
    ensures
        r@ == spec_access_of(kind),
{
    let mut v: Vec<Access> = Vec::new();
    match kind {
        SystemKind::HelloWorld => {},
        SystemKind::CleanupRids => {
            v.push(Access { key: DataKey::RenderableComponent, write: false });
            v.push(Access { key: DataKey::RemovalsResource, write: true });
        },
        SystemKind::HandleInput => {
            v.push(Access { key: DataKey::RenderableComponent, write: true });
            v.push(Access { key: DataKey::InputResource, write: true });
        },
        SystemKind::MovePlayer => {
            v.push(Access { key: DataKey::RenderableComponent, write: false });
        },
    }
    proof {
        assert(v@ =~= spec_access_of(kind));
    }
    v
}

/// Whether a system's declared signature claims write access to `key`.
pub open spec fn sig_writes(kind: SystemKind, key: DataKey) -> bool {
    exists|i: int|
        0 <= i < spec_access_of(kind).len() && spec_access_of(kind)[i].key == key
            && spec_access_of(kind)[i].write
}

/// What one system does to the world, the stage's command buffer and the
/// pass's emitted commands.
pub open spec fn sys_apply(kind: SystemKind, w: WorldView, buf: Seq<u64>, ops: Seq<RenderOp>) -> (
    WorldView,
    Seq<u64>,
    Seq<RenderOp>,
) {
    match kind {
        SystemKind::HelloWorld => (w, buf, ops),
        SystemKind::CleanupRids => (
            WorldView { removals: Seq::empty(), ..w },
            cleanup_buf(buf, w.slots, w.removals),
            ops + cleanup_ops(w.slots, w.removals),
        ),
        SystemKind::HandleInput => (
            WorldView { slots: input_slots(w.slots, w.input), input: Seq::empty(), ..w },
            buf,
            ops,
        ),
        SystemKind::MovePlayer => (w, buf, ops + move_ops(w.slots)),
    }
}

/// Every system mutates only the data its signature declares writable: the
/// aliasing rule's soundness rests on the signatures being honest.
pub proof fn lemma_system_respects_signature(
    kind: SystemKind,
    w: WorldView,
    buf: Seq<u64>,
    ops: Seq<RenderOp>,
)
    ensures
        !sig_writes(kind, DataKey::RenderableComponent) ==> sys_apply(kind, w, buf, ops).0.slots
            == w.slots,
        !sig_writes(kind, DataKey::RemovalsResource) ==> sys_apply(kind, w, buf, ops).0.removals
            == w.removals,
        !sig_writes(kind, DataKey::InputResource) ==> sys_apply(kind, w, buf, ops).0.input
            == w.input,
{
    match kind {
        SystemKind::HelloWorld => {},
        SystemKind::CleanupRids => {
            assert(spec_access_of(kind)[1].key == DataKey::RemovalsResource && spec_access_of(
                kind,
            )[1].write);
            assert(sig_writes(kind, DataKey::RemovalsResource));
        },
        SystemKind::HandleInput => {
            assert(spec_access_of(kind)[0].key == DataKey::RenderableComponent && spec_access_of(
                kind,
            )[0].write);
            assert(spec_access_of(kind)[1].key == DataKey::InputResource && spec_access_of(
                kind,
            )[1].write);
            assert(sig_writes(kind, DataKey::RenderableComponent));
            assert(sig_writes(kind, DataKey::InputResource));
        },
        SystemKind::MovePlayer => {},
    }
}

/// Decides whether `x` occurs in the handle list.
fn rid_in(v: &Vec<Rid>, x: Rid) -> (r: bool)
    ensures
        r == v@.contains(x),
{
    let n = v.len();
    let mut i: usize = 0;
    while i < n
        invariant
            i <= n,
            n == v@.len(),
            forall|j: int| 0 <= j < i ==> v@[j] != x,
        decreases n - i,
    {
        if v[i] == x {
            return true;
        }
        i = i + 1;
    }
    proof {
        if v@.contains(x) {
            let w = choose|w: int| 0 <= w < v@.len() && v@[w] == x;
        }
    }
    false
}

/// The startup system.  Its work is host-side diagnostics, which the
/// simulation state does not see: it leaves the world, the command buffer
/// and the emitted commands untouched.
pub fn hello_world(world: &mut WorldState, commands: &mut CommandBuffer, ops: &mut Vec<RenderOp>)
    ensures
        *final(world) == *old(world),
        *final(commands) == *old(commands),
        *final(ops) == *old(ops),
{
}

/// The cleanup system (Preupdate): for every live entity whose handle
/// matches an entry of the pending-removal list, stages a despawn and emits
/// exactly one release command; clears the list unconditionally at the end.
pub fn cleanup_rids(world: &mut WorldState, commands: &mut CommandBuffer, ops: &mut Vec<RenderOp>)
    requires
        old(world).wf(),
    ensures
        final(world).wf(),
        final(world).store.next == old(world).store.next,
        final(world)@.slots == old(world)@.slots,
        final(world)@.input == old(world)@.input,
        final(world)@.removals == Seq::<Rid>::empty(),
        final(commands).despawns@ == cleanup_buf(
            old(commands).despawns@,
            old(world)@.slots,
            old(world)@.removals,
        ),
        final(ops)@ == old(ops)@ + cleanup_ops(old(world)@.slots, old(world)@.removals),
{
    let rem_taken = world.resources.take(ResourceKey::Removals);
    let mut removals = match rem_taken {
        Some(ResourceValue::Removals(r)) => r,
        _ => unreached(),
    };
    let ghost rem0 = removals.vec@;
    if removals.vec.len() == 0 {
        world.resources.insert(ResourceValue::Removals(removals));
        proof {
            lemma_cleanup_empty_removals(old(commands).despawns@, old(world)@.slots);
            assert(rem0 =~= Seq::<Rid>::empty());
            assert(old(ops)@ + cleanup_ops(old(world)@.slots, rem0) =~= old(ops)@);
        }
        return ;
    }
    let ghost slots0 = world.store.slots@;
    let ghost res1 = world.resources;
    let n = world.store.slots.len();
    let mut i: usize = 0;
    while i < n
        invariant
            i <= n,
            n == slots0.len(),
            world.store.slots@ == slots0,
            world.store.next == old(world).store.next,
            world.store.wf(),
            world.resources == res1,
            removals.vec@ == rem0,
            commands.despawns@ == cleanup_buf(old(commands).despawns@, slots0.take(i as int), rem0),
            ops@ == old(ops)@ + cleanup_ops(slots0.take(i as int), rem0),
        decreases n - i,
    {
        proof {
            assert(slots0.take(i + 1).drop_last() =~= slots0.take(i as int));
            assert(slots0.take(i + 1).last() == slots0[i as int]);
        }
        let s = world.store.slots[i];
        match s.data {
            Some(r) => {
                if rid_in(&removals.vec, r.rid) {
                    commands.despawn(s.entity);
                    ops.push(RenderOp::Release { rid: r.rid });
                    proof {
                        assert(slot_matches(slots0[i as int], rem0));
                        assert((old(ops)@ + cleanup_ops(slots0.take(i as int), rem0)).push(
                            RenderOp::Release { rid: r.rid },
                        ) =~= old(ops)@ + cleanup_ops(slots0.take(i as int), rem0).push(
                            RenderOp::Release { rid: r.rid },
                        ));
                    }
                } else {
                    proof {
                        assert(!slot_matches(slots0[i as int], rem0));
                    }
                }
            },
            None => {
                proof {
                    assert(!slot_matches(slots0[i as int], rem0));
                }
            },
        }
        i = i + 1;
    }
    proof {
        assert(slots0.take(n as int) =~= slots0);
    }
    removals.vec.clear();
    world.resources.insert(ResourceValue::Removals(removals));
}

/// The input system (Preupdate, after cleanup): drains the whole input
/// queue, then applies every drained event, in queue order, to every live
/// renderable's transform.
pub fn handle_input(world: &mut WorldState, commands: &mut CommandBuffer, ops: &mut Vec<RenderOp>)
    requires
        old(world).wf(),
    ensures
        final(world).wf(),
        final(world).store.next == old(world).store.next,
        final(world)@.slots == input_slots(old(world)@.slots, old(world)@.input),
        final(world)@.removals == old(world)@.removals,
        final(world)@.input == Seq::<GodotInput>::empty(),
        *final(commands) == *old(commands),
        *final(ops) == *old(ops),
{
    let q_taken = world.resources.take(ResourceKey::Input);
    let mut q = match q_taken {
        Some(ResourceValue::Input(q)) => q,
        _ => unreached(),
    };
    let evs = q.read_all();
    world.resources.insert(ResourceValue::Input(q));
    let ghost evs0 = evs@;
    let ghost slots0 = world.store.slots@;
    let ghost res1 = world.resources;
    let n = world.store.slots.len();
    let mut i: usize = 0;
    while i < n
        invariant
            i <= n,
            n == slots0.len(),
            world.store.slots@.len() == slots0.len(),
            evs@ == evs0,
            world.resources == res1,
            world.store.next == old(world).store.next,
            forall|j: int| 0 <= j < i ==> world.store.slots@[j] == input_slot(slots0[j], evs0),
            forall|j: int| i <= j < slots0.len() ==> world.store.slots@[j] == slots0[j],
        decreases n - i,
    {
        let s = world.store.slots[i];
        match s.data {
            Some(r) => {
                let mut t = r.global_transform;
                let ghost t0 = t;
                let m = evs.len();
                let mut j: usize = 0;
                proof {
                    assert(evs0.take(0) =~= Seq::<GodotInput>::empty());
                }
                while j < m
                    invariant
                        j <= m,
                        m == evs0.len(),
                        evs@ == evs0,
                        t == apply_events(t0, evs0.take(j as int)),
                    decreases m - j,
                {
                    proof {
                        assert(evs0.take(j + 1).drop_last() =~= evs0.take(j as int));
                        assert(evs0.take(j + 1).last() == evs0[j as int]);
                    }
                    match evs[j] {
                        GodotInput::MoveUp => {
                            t = t.translated(0, -1);
                        },
                        GodotInput::MoveDown => {
                            t = t.translated(0, 1);
                        },
                        GodotInput::MoveLeft => {
                            t = t.translated(-1, 0);
                        },
                        GodotInput::MoveRight => {
                            t = t.translated(1, 0);
                        },
                    }
                    j = j + 1;
                }
                proof {
                    assert(evs0.take(m as int) =~= evs0);
                }
                world.store.slots[i] = Slot {
                    entity: s.entity,
                    data: Some(Renderable { rid: r.rid, global_transform: t }),
                };
            },
            None => {},
        }
        i = i + 1;
    }
    proof {
        assert(world.store.slots@ =~= input_slots(slots0, evs0));
        assert(forall|j: int|
            0 <= j < slots0.len() ==> #[trigger] world.store.slots@[j].entity
                == slots0[j].entity);
        assert(slots_wf(world.store.slots@, world.store.next));
    }
}

/// The render-sync system (Update): emits one transform-synchronization
/// command per live renderable, with its current transform and handle.  This
/// is the only point where the renderer's visual state is synchronized.
pub fn move_player(world: &mut WorldState, commands: &mut CommandBuffer, ops: &mut Vec<RenderOp>)
    ensures
        *final(world) == *old(world),
        *final(commands) == *old(commands),
        final(ops)@ == old(ops)@ + move_ops(old(world)@.slots),
{
    let ghost slots0 = world.store.slots@;
    let n = world.store.slots.len();
    let mut i: usize = 0;
    proof {
        assert(old(ops)@ + move_ops(slots0.take(0)) =~= old(ops)@);
    }
    while i < n
        invariant
            i <= n,
            n == slots0.len(),
            world == old(world),
            world.store.slots@ == slots0,
            commands == old(commands),
            ops@ == old(ops)@ + move_ops(slots0.take(i as int)),
        decreases n - i,
    {
        proof {
            assert(slots0.take(i + 1).drop_last() =~= slots0.take(i as int));
            assert(slots0.take(i + 1).last() == slots0[i as int]);
        }
        let s = world.store.slots[i];
        match s.data {
            Some(r) => {
                ops.push(RenderOp::SetTransform { rid: r.rid, transform: r.global_transform });
                proof {
                    assert((old(ops)@ + move_ops(slots0.take(i as int))).push(
                        RenderOp::SetTransform { rid: r.rid, transform: r.global_transform },
                    ) =~= old(ops)@ + move_ops(slots0.take(i as int)).push(
                        RenderOp::SetTransform { rid: r.rid, transform: r.global_transform },
                    ));
                }
            },
            None => {},
        }
        i = i + 1;
    }
    proof {
        assert(slots0.take(n as int) =~= slots0);
    }
}

/// Runs one system against the world, the stage's command buffer and the
/// pass's emitted commands, dispatching on the tagged system kind.
pub fn run_system(
    kind: SystemKind,
    world: &mut WorldState,
    commands: &mut CommandBuffer,
    ops: &mut Vec<RenderOp>,
)
    requires
        old(world).wf(),
    ensures
        final(world).wf(),
        final(world).store.next == old(world).store.next,
        final(world)@ == sys_apply(kind, old(world)@, old(commands).despawns@, old(ops)@).0,
        final(commands).despawns@ == sys_apply(
            kind,
            old(world)@,
            old(commands).despawns@,
            old(ops)@,
        ).1,
        final(ops)@ == sys_apply(kind, old(world)@, old(commands).despawns@, old(ops)@).2,
{
    match kind {
        SystemKind::HelloWorld => {
            hello_world(world, commands, ops);
        },
        SystemKind::CleanupRids => {
            cleanup_rids(world, commands, ops);
            proof {
                assert(world@ =~= sys_apply(
                    kind,
                    old(world)@,
                    old(commands).despawns@,
                    old(ops)@,
                ).0);
            }
        },
        SystemKind::HandleInput => {
            handle_input(world, commands, ops);
            proof {
                assert(world@ =~= sys_apply(
                    kind,
                    old(world)@,
                    old(commands).despawns@,
                    old(ops)@,
                ).0);
            }
        },
        SystemKind::MovePlayer => {
            move_player(world, commands, ops);
        },
    }
}

} // verus!
