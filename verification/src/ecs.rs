use vstd::prelude::*;
use crate::input::GodotInput;
use crate::input::InputQueue;
use crate::math::Transform2D;
use crate::render::RenderOp;
use crate::render::Rid;
use crate::resources::RenderablesToRemove;
use crate::resources::ResourceKey;
use crate::resources::ResourceValue;
use crate::schedule::Schedule;
use crate::schedule::Stage;
use crate::schedule::Stages;
use crate::schedule::find_stage;
use crate::schedule::run_spec;
use crate::schedule::run_systems_spec;
use crate::schedule::stage_exec_spec;
use crate::store::Renderable;
use crate::store::Slot;
use crate::store::insert_spec;
use crate::systems::SystemKind;
use crate::systems::cleanup_buf;
use crate::systems::cleanup_ops;
use crate::systems::input_slots;
use crate::systems::move_ops;
use crate::commands::flush_spec;
use crate::world::WorldState;
use crate::world::WorldView;
use vstd::pervasive::unreached;

verus! {

/// The fixed stage and system graph of this simulation: a run-once startup
/// stage, then per pass Preupdate (cleanup, then input handling, ordered by
/// an explicit edge because both touch the renderable component), Update
/// (render synchronization) and Postupdate, in that order.
pub open spec fn pipeline_shape(stages: Seq<Stage>) -> bool {
    &&& stages.len() == 4
    &&& stages[0].label == Stages::Startup
    &&& stages[0].run_once == true
    &&& stages[0].systems@.len() == 1
    &&& stages[0].systems@[0].kind == SystemKind::HelloWorld
    &&& stages[0].systems@[0].after@ == Seq::<usize>::empty()
    &&& stages[1].label == Stages::Preupdate
    &&& stages[1].run_once == false
    &&& stages[1].systems@.len() == 2
    &&& stages[1].systems@[0].kind == SystemKind::CleanupRids
    &&& stages[1].systems@[0].after@ == Seq::<usize>::empty()
    &&& stages[1].systems@[1].kind == SystemKind::HandleInput
    &&& stages[1].systems@[1].after@ == seq![0usize]
    &&& stages[2].label == Stages::Update
    &&& stages[2].run_once == false
    &&& stages[2].systems@.len() == 1
    &&& stages[2].systems@[0].kind == SystemKind::MovePlayer
    &&& stages[2].systems@[0].after@ == Seq::<usize>::empty()
    &&& stages[3].label == Stages::Postupdate
    &&& stages[3].run_once == false
    &&& stages[3].systems@.len() == 0
}

/// The despawns one pass stages: one per slot whose handle is pending
/// removal.
pub open spec fn step_despawns(w: WorldView) -> Seq<u64> {
    cleanup_buf(Seq::empty(), w.slots, w.removals)
}

/// The world after one pass: cleanup stages despawns and clears the
/// pending-removal list, input handling applies and drains the whole input
/// queue, and the flush at the end of Preupdate removes the despawned
/// entities.
pub open spec fn step_world(w: WorldView) -> WorldView {
    WorldView {
        slots: flush_spec(input_slots(w.slots, w.input), step_despawns(w)),
        removals: Seq::empty(),
        input: Seq::empty(),
    }
}

/// The commands one pass emits for the rendering service: one release per
/// matching slot during Preupdate, then one transform synchronization per
/// surviving live slot during Update.
pub open spec fn step_ops(w: WorldView) -> Seq<RenderOp> {
    cleanup_ops(w.slots, w.removals) + move_ops(step_world(w).slots)
}

/// The fixed pipeline passes the schedule's own well-formedness conditions:
/// stage labels are distinct, every runs-after edge points backwards, and
/// every unordered pair of systems within a stage is conflict-free under the
/// aliasing rule.  Together with the scheduler's ordering theorem this makes
/// the execution order a topological sort of the dependency graph.
pub proof fn lemma_pipeline_well_formed(stages: Seq<Stage>)
    requires
        pipeline_shape(stages),
    ensures
        crate::schedule::sched_wf(stages),
{
    assert forall|s: int| 0 <= s < stages.len() implies crate::schedule::stage_wf(
        #[trigger] stages[s],
    ) by {
        let sys = stages[s].systems@;
        assert forall|i: int| 0 <= i < sys.len() implies crate::schedule::deps_ok(
            #[trigger] sys[i].after@,
            i,
        ) && crate::schedule::unordered_ok(sys[i].kind, sys.take(i), sys[i].after@) by {
            if s == 1 && i == 1 {
                assert(sys[i].after@ == seq![0usize]);
                assert(sys[i].after@[0] == 0usize);
                assert(crate::schedule::deps_ok(sys[i].after@, i));
                assert forall|j: int| 0 <= j < sys.take(i).len() implies sys[i].after@.contains(
                    j as usize,
                ) || !crate::access::sig_conflicts(
                    crate::systems::spec_access_of(sys[i].kind),
                    crate::systems::spec_access_of(sys.take(i)[j].kind),
                ) by {
                    assert(j == 0);
                    assert(sys[i].after@[0] == 0usize);
                    assert(sys[i].after@.contains(0usize));
                }
            } else {
                assert(sys[i].after@ == Seq::<usize>::empty());
                assert(sys.take(i).len() == 0);
            }
        }
    }
}

/// In a four-stage pipeline labelled in the fixed order, each label finds
/// its own stage.
pub proof fn lemma_find_stage_pipeline(stages: Seq<Stage>)
    requires
        stages.len() == 4,
        stages[0].label == Stages::Startup,
        stages[1].label == Stages::Preupdate,
        stages[2].label == Stages::Update,
        stages[3].label == Stages::Postupdate,
    ensures
        find_stage(stages, Stages::Startup) == 0,
        find_stage(stages, Stages::Preupdate) == 1,
        find_stage(stages, Stages::Update) == 2,
        find_stage(stages, Stages::Postupdate) == 3,
{
    reveal_with_fuel(find_stage, 6);
    let s3 = stages.drop_last();
    let s2 = s3.drop_last();
    let s1 = s2.drop_last();
    let s0 = s1.drop_last();
    assert(stages.last() == stages[3]);
    assert(s3.last() == stages[2]);
    assert(s2.last() == stages[1]);
    assert(s1.last() == stages[0]);
    assert(s0.len() == 0);
}

/// One pass of the fixed pipeline, unfolded: whatever the startup flag, the
/// world steps to [`step_world`] and the pass emits [`step_ops`], and every
/// run-once criterion is spent afterwards.
pub proof fn lemma_pass_unfold(stages: Seq<Stage>, w: WorldView)
    requires
        pipeline_shape(stages),
    ensures
        run_spec(stages, w, Seq::empty()).1 == step_world(w),
        run_spec(stages, w, Seq::empty()).2 == step_ops(w),
        pipeline_shape(run_spec(stages, w, Seq::empty()).0),
        run_spec(stages, w, Seq::empty()).0.len() == 4,
        forall|i: int| 0 <= i < 4 ==> #[trigger] run_spec(stages, w, Seq::empty()).0[i].done
            == true,
{
    reveal_with_fuel(run_spec, 6);
    reveal_with_fuel(run_systems_spec, 4);
    reveal_with_fuel(flush_spec, 2);
    let s3 = stages.drop_last();
    let s2 = s3.drop_last();
    let s1 = s2.drop_last();
    let s0 = s1.drop_last();
    assert(stages.last() == stages[3]);
    assert(s3.last() == stages[2]);
    assert(s2.last() == stages[1]);
    assert(s1.last() == stages[0]);
    assert(s0.len() == 0);
    let e_ops = Seq::<RenderOp>::empty();
    let e_buf = Seq::<u64>::empty();

    // Startup: whether it runs or is skipped, the world and the emitted
    // commands are untouched.
    let st0 = stages[0];
    let r1 = run_spec(s1, w, e_ops);
    assert(run_spec(s0, w, e_ops).1 == w);
    assert(run_spec(s0, w, e_ops).2 == e_ops);
    if st0.run_once && st0.done {
        assert(stage_exec_spec(st0, w, e_ops) == (w, e_ops));
    } else {
        let d0 = st0.systems@;
        assert(d0.drop_last().len() == 0);
        assert(d0.last() == d0[0]);
        let p = run_systems_spec(d0, w, e_buf, e_ops);
        assert(run_systems_spec(d0.drop_last(), w, e_buf, e_ops) == (w, e_buf, e_ops));
        assert(p == (w, e_buf, e_ops));
        assert(flush_spec(w.slots, e_buf) == w.slots);
        assert(stage_exec_spec(st0, w, e_ops).0 =~= w);
        assert(stage_exec_spec(st0, w, e_ops).1 == e_ops);
    }
    assert(r1.1 == w);
    assert(r1.2 == e_ops);

    // Preupdate: cleanup, then input handling, then the flush.
    let st1 = stages[1];
    let d1 = st1.systems@;
    assert(d1.last() == d1[1]);
    assert(d1.drop_last().len() == 1);
    assert(d1.drop_last().last() == d1[0]);
    assert(d1.drop_last().drop_last().len() == 0);
    let pa = run_systems_spec(d1.drop_last(), w, e_buf, e_ops);
    assert(run_systems_spec(d1.drop_last().drop_last(), w, e_buf, e_ops) == (w, e_buf, e_ops));
    assert(pa.0 == WorldView { removals: Seq::empty(), ..w });
    assert(pa.1 == cleanup_buf(e_buf, w.slots, w.removals));
    assert(pa.2 == e_ops + cleanup_ops(w.slots, w.removals));
    let pb = run_systems_spec(d1, w, e_buf, e_ops);
    assert(pb.0 == WorldView {
        slots: input_slots(w.slots, w.input),
        removals: Seq::empty(),
        input: Seq::empty(),
    });
    assert(pb.1 == pa.1);
    assert(pb.2 == pa.2);
    let w2 = stage_exec_spec(st1, w, e_ops).0;
    let o2 = stage_exec_spec(st1, w, e_ops).1;
    assert(w2 =~= step_world(w));
    assert(o2 == e_ops + cleanup_ops(w.slots, w.removals));
    let r2 = run_spec(s2, w, e_ops);
    assert(r2.1 == w2);
    assert(r2.2 == o2);

    // Update: render synchronization over the flushed store.
    let st2 = stages[2];
    let d2 = st2.systems@;
    assert(d2.last() == d2[0]);
    assert(d2.drop_last().len() == 0);
    let pc = run_systems_spec(d2, w2, e_buf, o2);
    assert(pc.0 == w2);
    assert(pc.1 == e_buf);
    assert(pc.2 == o2 + move_ops(w2.slots));
    assert(flush_spec(w2.slots, e_buf) == w2.slots);
    assert(stage_exec_spec(st2, w2, o2).0 =~= w2);
    assert(stage_exec_spec(st2, w2, o2).1 == pc.2);
    let r3 = run_spec(s3, w, e_ops);
    assert(r3.1 =~= w2);
    assert(r3.2 == o2 + move_ops(w2.slots));

    // Postupdate: no systems.
    let st3 = stages[3];
    let d3 = st3.systems@;
    assert(d3.len() == 0);
    let r4 = run_spec(stages, w, e_ops);
    assert(stage_exec_spec(st3, r3.1, r3.2).0 =~= r3.1);
    assert(stage_exec_spec(st3, r3.1, r3.2).1 == r3.2);
    assert(r4.1 =~= step_world(w));
    assert(e_ops + cleanup_ops(w.slots, w.removals) + move_ops(step_world(w).slots) =~= step_ops(
        w,
    ));
    assert(r4.2 == step_ops(w));

    // The processed stages keep their shape, with every run-once spent.
    crate::schedule::lemma_run_spec_stage_len(stages, w, e_ops);
    crate::schedule::lemma_run_spec_stage_len(s3, w, e_ops);
    crate::schedule::lemma_run_spec_stage_len(s2, w, e_ops);
    crate::schedule::lemma_run_spec_stage_len(s1, w, e_ops);
    assert(r4.0[3] == crate::schedule::stage_after(stages[3]));
    assert(r4.0[2] == crate::schedule::stage_after(stages[2]));
    assert(r4.0[1] == crate::schedule::stage_after(stages[1]));
    assert(r4.0[0] == crate::schedule::stage_after(stages[0]));
}

/// The scheduler and the world it exclusively owns: the embedding engine's
/// whole interface to the simulation.
///
/// `new` builds the fixed pipeline; `step` advances the simulation by one
/// pass and returns the commands to forward to the rendering service;
/// `register_entity`, `unregister_entity_deferred` and `read_input` are the
/// entity-lifecycle and input entry points.
#[derive(Clone, Debug)]
pub struct ECS {
    pub schedule: Schedule,
    pub world: WorldState,
}

impl ECS {
    /// The object invariant: the world invariant holds and the schedule is
    /// the fixed pipeline.
    pub open spec fn wf(self) -> bool {
        &&& self.world.wf()
        &&& pipeline_shape(self.schedule.stages@)
    }

    /// Builds the world with its two singleton resources and the fixed
    /// stage and system graph.  The construction-time checks of the
    /// schedule API are provably passed here.
    pub fn new() -> (r: ECS)
        ensures
            r.wf(),
            r.world@.slots == Seq::<Slot>::empty(),
            r.world@.removals == Seq::<Rid>::empty(),
            r.world@.input == Seq::<GodotInput>::empty(),
            r.world.store.next == 0,
            forall|i: int| 0 <= i < 4 ==> #[trigger] r.schedule.stages@[i].done == false,
    {
        let mut world = WorldState::new();
        world.resources.insert(ResourceValue::Removals(RenderablesToRemove::new()));
        world.resources.insert(ResourceValue::Input(InputQueue::new()));

        let mut schedule = Schedule::new();
        schedule.add_stage(Stages::Startup, true);
        schedule.add_stage(Stages::Preupdate, false);
        schedule.add_stage(Stages::Update, false);
        schedule.add_stage(Stages::Postupdate, false);
        proof {
            lemma_find_stage_pipeline(schedule.stages@);
        }

        // Each configuration check provably passes for this fixed graph, so
        // every error arm below is unreachable.
        let no_deps: Vec<usize> = Vec::new();
        match schedule.add_system_to_stage(Stages::Startup, SystemKind::HelloWorld, no_deps) {
            Ok(_) => {},
            Err(_) => {
                proof {
                    assert(false);
                }
            },
        }
        proof {
            lemma_find_stage_pipeline(schedule.stages@);
        }
        let no_deps2: Vec<usize> = Vec::new();
        match schedule.add_system_to_stage(Stages::Preupdate, SystemKind::CleanupRids, no_deps2) {
            Ok(_) => {},
            Err(_) => {
                proof {
                    assert(false);
                }
            },
        }
        proof {
            lemma_find_stage_pipeline(schedule.stages@);
        }
        let mut after_cleanup: Vec<usize> = Vec::new();
        after_cleanup.push(0);
        proof {
            assert(after_cleanup@ =~= seq![0usize]);
            assert(after_cleanup@.contains(0usize)) by {
                assert(after_cleanup@[0] == 0usize);
            }
        }
        match schedule.add_system_to_stage(Stages::Preupdate, SystemKind::HandleInput, after_cleanup,
        ) {
            Ok(_) => {},
            Err(_) => {
                proof {
                    assert(false);
                }
            },
        }
        proof {
            lemma_find_stage_pipeline(schedule.stages@);
        }
        let no_deps3: Vec<usize> = Vec::new();
        match schedule.add_system_to_stage(Stages::Update, SystemKind::MovePlayer, no_deps3) {
            Ok(_) => {},
            Err(_) => {
                proof {
                    assert(false);
                }
            },
        }
        let r = ECS { schedule, world };
        proof {
            assert(pipeline_shape(r.schedule.stages@));
        }
        r
    }

    /// Advances the simulation by one time-slice: runs one full scheduler
    /// pass and returns the commands to forward to the rendering service,
    /// in emission order.  After any pass the input queue is empty and the
    /// startup stage's run-once criterion is spent.
    pub fn step(&mut self) -> (ops: Vec<RenderOp>)
        requires
            old(self).wf(),
        ensures
            final(self).wf(),
            final(self).world@ == step_world(old(self).world@),
            ops@ == step_ops(old(self).world@),
            final(self).world@.input == Seq::<GodotInput>::empty(),
            final(self).world@.removals == Seq::<Rid>::empty(),
            final(self).world.store.next == old(self).world.store.next,
            forall|i: int| 0 <= i < 4 ==> #[trigger] final(self).schedule.stages@[i].done == true,
    {
        let ops = self.schedule.run(&mut self.world);
        proof {
            lemma_pass_unfold(old(self).schedule.stages@, old(self).world@);
        }
        ops
    }

    /// Registers a renderable owned by the host: spawns a fresh entity and
    /// attaches the handle with its initial transform.
    pub fn register_entity(&mut self, rid: Rid, global_transform: Transform2D)
        requires
            old(self).wf(),
            old(self).world.store.next < u64::MAX,
        ensures
            final(self).wf(),
            final(self).world@.slots == old(self).world@.slots.push(
                Slot {
                    entity: old(self).world.store.next,
                    data: Some(Renderable { rid, global_transform }),
                },
            ),
            final(self).world@.removals == old(self).world@.removals,
            final(self).world@.input == old(self).world@.input,
            final(self).world.store.next == old(self).world.store.next + 1,
            final(self).schedule == old(self).schedule,
    {
        let ghost slots0 = self.world.store.slots@;
        let e = self.world.store.spawn();
        self.world.store.insert(e, Renderable { rid, global_transform });
        proof {
            let pushed = slots0.push(Slot { entity: e, data: None });
            assert(pushed.last().entity == e);
            assert(pushed.drop_last() =~= slots0);
            assert(insert_spec(pushed, e, Renderable { rid, global_transform }) == slots0.push(
                Slot { entity: e, data: Some(Renderable { rid, global_transform }) },
            ));
        }
    }

    /// Asks for the entity owning this handle to be despawned: appends the
    /// handle to the pending-removal list.  Nothing happens until the next
    /// pass; a handle with no matching live entity is silently ignored
    /// there.
    pub fn unregister_entity_deferred(&mut self, rid: Rid)
        requires
            old(self).wf(),
        ensures
            final(self).wf(),
            final(self).world@.removals == old(self).world@.removals.push(rid),
            final(self).world@.slots == old(self).world@.slots,
            final(self).world@.input == old(self).world@.input,
            final(self).world.store.next == old(self).world.store.next,
            final(self).schedule == old(self).schedule,
    {
        let taken = self.world.resources.take(ResourceKey::Removals);
        let mut removals = match taken {
            Some(ResourceValue::Removals(r)) => r,
            _ => unreached(),
        };
        removals.vec.push(rid);
        self.world.resources.insert(ResourceValue::Removals(removals));
    }

    /// The input-poll entry point: takes the sampled state of the four
    /// named actions and appends one event per asserted action, in the
    /// fixed order up, down, left, right.
    pub fn read_input(&mut self, move_up: bool, move_down: bool, move_left: bool, move_right: bool)
        requires
            old(self).wf(),
        ensures
            final(self).wf(),
            final(self).world@.input == polled(
                old(self).world@.input,
                move_up,
                move_down,
                move_left,
                move_right,
            ),
            final(self).world@.slots == old(self).world@.slots,
            final(self).world@.removals == old(self).world@.removals,
            final(self).world.store.next == old(self).world.store.next,
            final(self).schedule == old(self).schedule,
    {
        let taken = self.world.resources.take(ResourceKey::Input);
        let mut q = match taken {
            Some(ResourceValue::Input(q)) => q,
            _ => unreached(),
        };
        if move_up {
            q.add(GodotInput::MoveUp);
        }
        if move_down {
            q.add(GodotInput::MoveDown);
        }
        if move_left {
            q.add(GodotInput::MoveLeft);
        }
        if move_right {
            q.add(GodotInput::MoveRight);
        }
        self.world.resources.insert(ResourceValue::Input(q));
    }

    /// Whether the startup stage has already run.
    pub fn startup_done(&self) -> (r: bool)
        requires
            self.wf(),
        ensures
            r == self.schedule.stages@[0].done,
    {
        self.schedule.stages[0].done
    }
}

/// The events the input-poll entry point appends for one sample of the four
/// action states, in the fixed order up, down, left, right.
pub open spec fn polled(
    evs: Seq<GodotInput>,
    move_up: bool,
    move_down: bool,
    move_left: bool,
    move_right: bool,
) -> Seq<GodotInput> {
    let a = if move_up {
        evs.push(GodotInput::MoveUp)
    } else {
        evs
    };
    let b = if move_down {
        a.push(GodotInput::MoveDown)
    } else {
        a
    };
    let c = if move_left {
        b.push(GodotInput::MoveLeft)
    } else {
        b
    };
    if move_right {
        c.push(GodotInput::MoveRight)
    } else {
        c
    }
}

} // verus!
