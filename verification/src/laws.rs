use vstd::prelude::*;
use crate::commands::flush_spec;
use crate::commands::lemma_flush_spec_absent;
use crate::ecs::step_despawns;
use crate::ecs::step_ops;
use crate::ecs::step_world;
use crate::input::GodotInput;
use crate::math::Transform2D;
use crate::render::RenderOp;
use crate::render::Rid;
use crate::store::Renderable;
use crate::store::Slot;
use crate::store::lemma_remove_entity_subset;
use crate::store::remove_entity;
use crate::systems::cleanup_buf;
use crate::systems::cleanup_ops;
use crate::systems::event_dx;
use crate::systems::event_dy;
use crate::systems::apply_event;
use crate::systems::apply_events;
use crate::systems::input_slot;
use crate::systems::input_slots;
use crate::systems::lemma_cleanup_empty_removals;
use crate::systems::move_ops;
use crate::systems::slot_matches;
use crate::world::WorldView;

verus! {

/// Whether a slot is live and carries handle `h`.
pub open spec fn slot_has_rid(s: Slot, h: Rid) -> bool {
    match s.data {
        Some(r) => r.rid == h,
        None => false,
    }
}

/// How many live slots carry handle `h`.
pub open spec fn rid_count(slots: Seq<Slot>, h: Rid) -> nat
    decreases slots.len(),
{
    if slots.len() == 0 {
        0
    } else {
        rid_count(slots.drop_last(), h) + if slot_has_rid(slots.last(), h) {
            1nat
        } else {
            0nat
        }
    }
}

/// How many release commands for handle `h` a command sequence holds.
pub open spec fn release_count(ops: Seq<RenderOp>, h: Rid) -> nat
    decreases ops.len(),
{
    if ops.len() == 0 {
        0
    } else {
        release_count(ops.drop_last(), h) + if ops.last() == (RenderOp::Release { rid: h }) {
            1nat
        } else {
            0nat
        }
    }
}

/// Release counting distributes over concatenation.
pub proof fn lemma_release_count_concat(a: Seq<RenderOp>, b: Seq<RenderOp>, h: Rid)
    ensures
        release_count(a + b, h) == release_count(a, h) + release_count(b, h),
    decreases b.len(),
{
    if b.len() == 0 {
        assert(a + b =~= a);
    } else {
        assert((a + b).drop_last() =~= a + b.drop_last());
        assert((a + b).last() == b.last());
        lemma_release_count_concat(a, b.drop_last(), h);
    }
}

/// Render synchronization emits no release command.
pub proof fn lemma_move_ops_no_release(slots: Seq<Slot>, h: Rid)
    ensures
        release_count(move_ops(slots), h) == 0,
    decreases slots.len(),
{
    if slots.len() > 0 {
        lemma_move_ops_no_release(slots.drop_last(), h);
        let rest = move_ops(slots.drop_last());
        match slots.last().data {
            Some(r) => {
                let op = RenderOp::SetTransform { rid: r.rid, transform: r.global_transform };
                assert(move_ops(slots) == rest.push(op));
                assert(rest.push(op).drop_last() =~= rest);
            },
            None => {},
        }
    }
}

/// When handle `h` is pending removal, cleanup emits exactly one release for
/// it per live slot that carries it.
pub proof fn lemma_cleanup_release_count(slots: Seq<Slot>, removals: Seq<Rid>, h: Rid)
    requires
        removals.contains(h),
    ensures
        release_count(cleanup_ops(slots, removals), h) == rid_count(slots, h),
    decreases slots.len(),
{
    if slots.len() > 0 {
        lemma_cleanup_release_count(slots.drop_last(), removals, h);
        let rest = cleanup_ops(slots.drop_last(), removals);
        match slots.last().data {
            Some(r) => {
                if removals.contains(r.rid) {
                    let op = RenderOp::Release { rid: r.rid };
                    assert(cleanup_ops(slots, removals) == rest.push(op));
                    assert(rest.push(op).drop_last() =~= rest);
                    assert(rest.push(op).last() == op);
                } else {
                    assert(r.rid != h);
                }
            },
            None => {},
        }
    }
}

/// A store in which no live slot carries `h` counts zero occurrences of it.
pub proof fn lemma_rid_count_zero(slots: Seq<Slot>, h: Rid)
    requires
        forall|i: int| 0 <= i < slots.len() ==> !slot_has_rid(#[trigger] slots[i], h),
    ensures
        rid_count(slots, h) == 0,
    decreases slots.len(),
{
    if slots.len() > 0 {
        assert(forall|i: int|
            0 <= i < slots.drop_last().len() ==> !slot_has_rid(
                #[trigger] slots.drop_last()[i],
                h,
            ));
        lemma_rid_count_zero(slots.drop_last(), h);
    }
}

/// Whether `s` occurs among the given slots.
pub open spec fn among(s: Slot, slots: Seq<Slot>) -> bool {
    exists|j: int| 0 <= j < slots.len() && slots[j] == s
}

/// Every slot that survives a flush was a slot before it.
pub proof fn lemma_flush_subset(slots: Seq<Slot>, ds: Seq<u64>)
    ensures
        forall|i: int| 0 <= i < flush_spec(slots, ds).len() ==> among(
            #[trigger] flush_spec(slots, ds)[i],
            slots,
        ),
    decreases ds.len(),
{
    if ds.len() == 0 {
        assert forall|i: int| 0 <= i < flush_spec(slots, ds).len() implies among(
            #[trigger] flush_spec(slots, ds)[i],
            slots,
        ) by {
            assert(flush_spec(slots, ds)[i] == slots[i]);
        }
    } else {
        let mid = flush_spec(slots, ds.drop_last());
        lemma_flush_subset(slots, ds.drop_last());
        lemma_remove_entity_subset(mid, ds.last());
        assert forall|i: int| 0 <= i < flush_spec(slots, ds).len() implies among(
            #[trigger] flush_spec(slots, ds)[i],
            slots,
        ) by {
            assert(flush_spec(slots, ds) == remove_entity(mid, ds.last()));
            assert(remove_entity(mid, ds.last())[i] == flush_spec(slots, ds)[i]);
            let k = choose|k: int| 0 <= k < mid.len() && remove_entity(mid, ds.last())[i] == mid[k];
            assert(among(mid[k], slots));
            let j = choose|j: int| 0 <= j < slots.len() && slots[j] == mid[k];
            assert(slots[j] == flush_spec(slots, ds)[i]);
        }
    }
}

/// Every matching slot's entity is staged for despawn by cleanup.
pub proof fn lemma_cleanup_buf_contains(buf: Seq<u64>, slots: Seq<Slot>, removals: Seq<Rid>, i: int)
    requires
        0 <= i < slots.len(),
        slot_matches(slots[i], removals),
    ensures
        cleanup_buf(buf, slots, removals).contains(slots[i].entity),
    decreases slots.len(),
{
    let front = slots.drop_last();
    let rest = cleanup_buf(buf, front, removals);
    if i == slots.len() - 1 {
        let e = slots.last().entity;
        if rest.contains(e) {
            assert(cleanup_buf(buf, slots, removals) == rest);
        } else {
            assert(cleanup_buf(buf, slots, removals) == rest.push(e));
            assert(rest.push(e)[rest.len() as int] == e);
        }
    } else {
        assert(front[i] == slots[i]);
        lemma_cleanup_buf_contains(buf, front, removals, i);
        let e = slots[i].entity;
        let w = choose|w: int| 0 <= w < rest.len() && rest[w] == e;
        if slot_matches(slots.last(), removals) {
            let le = slots.last().entity;
            if rest.contains(le) {
                assert(cleanup_buf(buf, slots, removals) == rest);
            } else {
                assert(cleanup_buf(buf, slots, removals) == rest.push(le));
                assert(rest.push(le)[w] == e);
            }
        } else {
            assert(cleanup_buf(buf, slots, removals) == rest);
        }
    }
}

/// Despawn-then-release ordering: when exactly one live entity carries a
/// handle that is pending removal, one pass removes that entity from the
/// component store and emits exactly one release command for the handle.
pub proof fn lemma_despawn_then_release(w: WorldView, h: Rid)
    requires
        w.removals.contains(h),
        rid_count(w.slots, h) == 1,
    ensures
        rid_count(step_world(w).slots, h) == 0,
        release_count(step_ops(w), h) == 1,
{
    lemma_cleanup_release_count(w.slots, w.removals, h);
    lemma_move_ops_no_release(step_world(w).slots, h);
    lemma_release_count_concat(
        cleanup_ops(w.slots, w.removals),
        move_ops(step_world(w).slots),
        h,
    );
    let islots = input_slots(w.slots, w.input);
    let ds = step_despawns(w);
    let fslots = step_world(w).slots;
    lemma_flush_subset(islots, ds);
    assert forall|i: int| 0 <= i < fslots.len() implies !slot_has_rid(#[trigger] fslots[i], h) by {
        if slot_has_rid(fslots[i], h) {
            assert(among(fslots[i], islots));
            let j = choose|j: int| 0 <= j < islots.len() && islots[j] == fslots[i];
            assert(islots[j] == input_slot(w.slots[j], w.input));
            assert(slot_has_rid(w.slots[j], h));
            assert(islots[j].entity == w.slots[j].entity);
            assert(slot_matches(w.slots[j], w.removals));
            lemma_cleanup_buf_contains(Seq::empty(), w.slots, w.removals, j);
            lemma_flush_spec_absent(islots, ds, w.slots[j].entity);
            assert(false);
        }
    }
    lemma_rid_count_zero(fslots, h);
}

/// `n` identical input events, as a queue.
pub open spec fn repeat_ev(ev: GodotInput, n: nat) -> Seq<GodotInput> {
    Seq::new(n, |i: int| ev)
}

/// A slot whose transform can absorb `n` unit steps of `ev` without
/// saturating.
pub open spec fn slot_in_range(s: Slot, n: nat, ev: GodotInput) -> bool {
    match s.data {
        Some(r) => {
            &&& i64::MIN as int <= r.global_transform.m31 + n * event_dx(ev)
            &&& r.global_transform.m31 + n * event_dx(ev) <= i64::MAX as int
            &&& i64::MIN as int <= r.global_transform.m32 + n * event_dy(ev)
            &&& r.global_transform.m32 + n * event_dy(ev) <= i64::MAX as int
        },
        None => true,
    }
}

/// A slot moved by `n` unit steps in the direction `ev` maps to.
pub open spec fn slot_moved(s: Slot, n: nat, ev: GodotInput) -> Slot {
    match s.data {
        Some(r) => Slot {
            entity: s.entity,
            data: Some(
                Renderable {
                    rid: r.rid,
                    global_transform: Transform2D {
                        m31: (r.global_transform.m31 + n * event_dx(ev)) as i64,
                        m32: (r.global_transform.m32 + n * event_dy(ev)) as i64,
                        ..r.global_transform
                    },
                },
            ),
        },
        None => s,
    }
}

/// Applying `n` copies of one event moves a transform by `n` unit steps in
/// the mapped direction, provided the coordinates do not saturate.
pub proof fn lemma_apply_events_repeat(t: Transform2D, ev: GodotInput, n: nat)
    requires
        i64::MIN as int <= t.m31 + n * event_dx(ev),
        t.m31 + n * event_dx(ev) <= i64::MAX as int,
        i64::MIN as int <= t.m32 + n * event_dy(ev),
        t.m32 + n * event_dy(ev) <= i64::MAX as int,
    ensures
        apply_events(t, repeat_ev(ev, n)) == (Transform2D {
            m31: (t.m31 + n * event_dx(ev)) as i64,
            m32: (t.m32 + n * event_dy(ev)) as i64,
            ..t
        }),
    decreases n,
{
    let dx = event_dx(ev);
    let dy = event_dy(ev);
    let goal = Transform2D {
        m31: (t.m31 + n * dx) as i64,
        m32: (t.m32 + n * dy) as i64,
        ..t
    };
    if n == 0 {
        assert(repeat_ev(ev, 0).len() == 0);
        assert(apply_events(t, repeat_ev(ev, n)) == t);
        assert(n * dx == 0) by (nonlinear_arith)
            requires n == 0,
        ;
        assert(n * dy == 0) by (nonlinear_arith)
            requires n == 0,
        ;
        assert(t =~= goal);
    } else {
        let prev = repeat_ev(ev, (n - 1) as nat);
        assert(repeat_ev(ev, n).drop_last() =~= prev);
        assert(repeat_ev(ev, n).last() == ev);
        assert((n - 1) * dx == n * dx - dx) by (nonlinear_arith);
        assert((n - 1) * dy == n * dy - dy) by (nonlinear_arith);
        assert(-1 <= dx <= 1 && -1 <= dy <= 1);
        lemma_apply_events_repeat(t, ev, (n - 1) as nat);
        let prev_t = apply_events(t, prev);
        assert(apply_events(t, repeat_ev(ev, n)) == apply_event(prev_t, ev));
        assert(prev_t.m31 == t.m31 + (n - 1) * dx);
        assert(prev_t.m32 == t.m32 + (n - 1) * dy);
        assert(crate::math::sat_add(prev_t.m31 as int, dx) == t.m31 + n * dx);
        assert(crate::math::sat_add(prev_t.m32 as int, dy) == t.m32 + n * dy);
        assert(apply_event(prev_t, ev) =~= goal);
    }
}

/// Input accumulation: with nothing pending removal and `n` identical
/// events queued, one pass moves every live renderable by `n` unit steps in
/// the mapped direction, provided no coordinate saturates.
pub proof fn lemma_input_accumulation(w: WorldView, ev: GodotInput, n: nat)
    requires
        w.removals == Seq::<Rid>::empty(),
        w.input == repeat_ev(ev, n),
        forall|i: int| 0 <= i < w.slots.len() ==> slot_in_range(#[trigger] w.slots[i], n, ev),
    ensures
        step_world(w).slots.len() == w.slots.len(),
        forall|i: int|
            0 <= i < w.slots.len() ==> #[trigger] step_world(w).slots[i] == slot_moved(
                w.slots[i],
                n,
                ev,
            ),
{
    lemma_cleanup_empty_removals(Seq::<u64>::empty(), w.slots);
    let islots = input_slots(w.slots, w.input);
    assert(step_despawns(w) == Seq::<u64>::empty());
    assert(step_world(w).slots == islots);
    assert forall|i: int| 0 <= i < w.slots.len() implies #[trigger] step_world(w).slots[i]
        == slot_moved(w.slots[i], n, ev) by {
        assert(islots[i] == input_slot(w.slots[i], w.input));
        match w.slots[i].data {
            Some(r) => {
                lemma_apply_events_repeat(r.global_transform, ev, n);
            },
            None => {},
        }
    }
}

/// Idempotent empty cleanup: a pass entered with an empty pending-removal
/// list and an empty input queue leaves the component store and the
/// pending-removal list unchanged, and emits no release command.
pub proof fn lemma_idempotent_empty_cleanup(w: WorldView)
    requires
        w.removals == Seq::<Rid>::empty(),
        w.input == Seq::<GodotInput>::empty(),
    ensures
        step_world(w) == w,
        step_ops(w) == move_ops(w.slots),
        forall|h: Rid| release_count(step_ops(w), h) == 0,
{
    lemma_cleanup_empty_removals(Seq::<u64>::empty(), w.slots);
    let islots = input_slots(w.slots, w.input);
    assert forall|i: int| 0 <= i < w.slots.len() implies #[trigger] islots[i] == w.slots[i] by {
        assert(islots[i] == input_slot(w.slots[i], w.input));
        assert(apply_events(match w.slots[i].data {
            Some(r) => r.global_transform,
            None => Transform2D::spec_identity(),
        }, w.input) == match w.slots[i].data {
            Some(r) => r.global_transform,
            None => Transform2D::spec_identity(),
        });
    }
    assert(islots =~= w.slots);
    assert(step_despawns(w) == Seq::<u64>::empty());
    assert(step_world(w) =~= w);
    assert(Seq::<RenderOp>::empty() + move_ops(w.slots) =~= move_ops(w.slots));
    assert forall|h: Rid| release_count(step_ops(w), h) == 0 by {
        lemma_move_ops_no_release(w.slots, h);
    }
}

/// With an empty pending-removal list a pass stages no despawn and emits no
/// release command, whatever the input queue holds: the store keeps every
/// entity, with only its transforms moved.
pub proof fn lemma_empty_cleanup_no_release(w: WorldView)
    requires
        w.removals == Seq::<Rid>::empty(),
    ensures
        step_world(w).slots == input_slots(w.slots, w.input),
        step_world(w).slots.len() == w.slots.len(),
        forall|h: Rid| release_count(step_ops(w), h) == 0,
{
    lemma_cleanup_empty_removals(Seq::<u64>::empty(), w.slots);
    assert(step_despawns(w) == Seq::<u64>::empty());
    assert(Seq::<RenderOp>::empty() + move_ops(step_world(w).slots) =~= move_ops(
        step_world(w).slots,
    ));
    assert forall|h: Rid| release_count(step_ops(w), h) == 0 by {
        lemma_move_ops_no_release(step_world(w).slots, h);
    }
}

/// Stage order as a barrier: the render synchronization of the Update stage
/// is computed over the store exactly as the Preupdate stage left it, its
/// command-buffer flush included; no Update emission observes a partial
/// Preupdate.
pub proof fn lemma_stage_barrier(w: WorldView)
    ensures
        step_world(w).slots == flush_spec(input_slots(w.slots, w.input), step_despawns(w)),
        step_ops(w) == cleanup_ops(w.slots, w.removals) + move_ops(step_world(w).slots),
{
}

/// How many of a sequence of passes executed the startup stage, reading the
/// run-once flag at each pass's entry.
pub open spec fn startup_runs(dones: Seq<bool>) -> nat
    decreases dones.len(),
{
    if dones.len() == 0 {
        0
    } else {
        startup_runs(dones.drop_last()) + if !dones.last() {
            1nat
        } else {
            0nat
        }
    }
}

/// Startup-once: over any number of passes of one scheduler, with the
/// run-once flag false at the first pass and true at every later one (as
/// every pass ensures), the startup stage executes exactly once.
pub proof fn lemma_startup_once(dones: Seq<bool>)
    requires
        dones.len() >= 1,
        dones[0] == false,
        forall|i: int| 1 <= i < dones.len() ==> dones[i] == true,
    ensures
        startup_runs(dones) == 1,
    decreases dones.len(),
{
    if dones.len() == 1 {
        assert(dones.last() == dones[0]);
        assert(dones.drop_last().len() == 0);
        assert(startup_runs(dones.drop_last()) == 0);
        assert(startup_runs(dones) == 1);
    } else {
        assert(dones.last() == dones[dones.len() - 1]);
        assert(dones.drop_last()[0] == dones[0]);
        assert(forall|i: int|
            1 <= i < dones.drop_last().len() ==> dones.drop_last()[i] == true);
        lemma_startup_once(dones.drop_last());
        assert(startup_runs(dones) == 1);
    }
}

} // verus!
