use vstd::prelude::*;
use crate::access::conflicts;
use crate::access::sig_conflicts;
use crate::commands::CommandBuffer;
use crate::commands::flush_spec;
use crate::render::RenderOp;
use crate::systems::SystemKind;
use crate::systems::access_of;
use crate::systems::run_system;
use crate::systems::spec_access_of;
use crate::systems::sys_apply;
use crate::world::WorldState;
use crate::world::WorldView;

verus! {

/// The fixed, totally ordered pipeline phases.  The startup phase runs once
/// over the scheduler's lifetime; every pass then runs the remaining phases
/// in this order, with a full barrier between them.
#[derive(Clone, Copy, PartialEq, Eq, Structural, Debug, Hash)]
pub enum Stages {
    Startup,
    Preupdate,
    Update,
    Postupdate,
}

/// One scheduled system: its kind and its explicit runs-after edges, each an
/// index of an earlier system of the same stage.
#[derive(Clone, Debug)]
pub struct SystemDesc {
    pub kind: SystemKind,
    pub after: Vec<usize>,
}

/// One stage of the pipeline: a label, its run-once criterion and state, and
/// its systems in insertion order.
#[derive(Clone, Debug)]
pub struct Stage {
    pub label: Stages,
    pub run_once: bool,
    pub done: bool,
    pub systems: Vec<SystemDesc>,
}

/// A configuration error, detected at schedule-construction time and never
/// masked at runtime.
#[derive(Clone, Copy, PartialEq, Eq, Structural, Debug)]
pub enum ConfigError {
    /// No stage of the given label exists.
    UnknownStage,
    /// A runs-after edge names a system that has not been added yet.
    InvalidDependency,
    /// Two systems without an ordering edge between them have conflicting
    /// access signatures.
    AccessConflict,
}

/// Every runs-after edge names an already-added system.
pub open spec fn deps_ok(after: Seq<usize>, n: int) -> bool {
    forall|k: int| 0 <= k < after.len() ==> (after[k] as int) < n
}

/// The aliasing rule at construction time: a new system must be ordered
/// after, or conflict-free with, every system already in the stage.
pub open spec fn unordered_ok(kind: SystemKind, systems: Seq<SystemDesc>, after: Seq<usize>) -> bool {
    forall|j: int|
        0 <= j < systems.len() ==> after.contains(j as usize) || !sig_conflicts(
            spec_access_of(kind),
            spec_access_of(systems[j].kind),
        )
}

/// The index of the stage carrying `label`, or `-1` if none does.
pub open spec fn find_stage(stages: Seq<Stage>, label: Stages) -> int
    decreases stages.len(),
{
    if stages.len() == 0 {
        -1
    } else if stages.last().label == label {
        stages.len() - 1
    } else {
        find_stage(stages.drop_last(), label)
    }
}

/// A stage's systems and edges are well formed: edges point backwards and
/// every unordered pair is conflict-free.
pub open spec fn stage_wf(st: Stage) -> bool {
    forall|i: int|
        0 <= i < st.systems@.len() ==> deps_ok(#[trigger] st.systems@[i].after@, i)
            && unordered_ok(st.systems@[i].kind, st.systems@.take(i), st.systems@[i].after@)
}

/// The whole schedule is well formed: distinct stage labels, every stage
/// well formed.
pub open spec fn sched_wf(stages: Seq<Stage>) -> bool {
    &&& forall|i: int, j: int|
        0 <= i < j < stages.len() ==> stages[i].label != stages[j].label
    &&& forall|i: int| 0 <= i < stages.len() ==> stage_wf(#[trigger] stages[i])
}

/// A stage after one pass processed it: its run-once state is spent.
pub open spec fn stage_after(st: Stage) -> Stage {
    Stage { done: true, ..st }
}

/// The systems of a stage applied in execution order, threading the world,
/// the stage's command buffer and the pass's emitted commands.
pub open spec fn run_systems_spec(
    descs: Seq<SystemDesc>,
    w: WorldView,
    buf: Seq<u64>,
    ops: Seq<RenderOp>,
) -> (WorldView, Seq<u64>, Seq<RenderOp>)
    decreases descs.len(),
{
    if descs.len() == 0 {
        (w, buf, ops)
    } else {
        let p = run_systems_spec(descs.drop_last(), w, buf, ops);
        sys_apply(descs.last().kind, p.0, p.1, p.2)
    }
}

/// One stage of a pass: skipped when its run-once criterion is spent;
/// otherwise its systems run in order over a fresh command buffer, which is
/// flushed into the store before the next stage may begin.
pub open spec fn stage_exec_spec(st: Stage, w: WorldView, ops: Seq<RenderOp>) -> (
    WorldView,
    Seq<RenderOp>,
) {
    if st.run_once && st.done {
        (w, ops)
    } else {
        let p = run_systems_spec(st.systems@, w, Seq::<u64>::empty(), ops);
        (WorldView { slots: flush_spec(p.0.slots, p.1), ..p.0 }, p.2)
    }
}

/// One full pass: every stage in order, each completing (flush included)
/// before the next begins, threading world and emitted commands.
pub open spec fn run_spec(stages: Seq<Stage>, w: WorldView, ops: Seq<RenderOp>) -> (
    Seq<Stage>,
    WorldView,
    Seq<RenderOp>,
)
    decreases stages.len(),
{
    if stages.len() == 0 {
        (stages, w, ops)
    } else {
        let p = run_spec(stages.drop_last(), w, ops);
        let q = stage_exec_spec(stages.last(), p.1, p.2);
        (p.0.push(stage_after(stages.last())), q.0, q.1)
    }
}

/// Decides whether `x` occurs in the index list.
fn contains_usize(v: &Vec<usize>, x: usize) -> (r: bool)
    ensures
        r == v@.contains(x),
{
    let n = v.len();
    let mut i: usize = 0;
    while i < n
        invariant
            i <= n,
            n == v@.len(),
            forall|j: int| 0 <= j < i ==> v@[j] != x,
        decreases n - i,
    {
        if v[i] == x {
            return true;
        }
        i = i + 1;
    }
    proof {
        if v@.contains(x) {
            let w = choose|w: int| 0 <= w < v@.len() && v@[w] == x;
        }
    }
    false
}

/// The scheduler: an ordered list of stages, each an ordered, partially
/// ordered list of systems.  Built once through the construction API, which
/// rejects dangling edges and aliasing conflicts; then `run` executes one
/// full pass per call.
#[derive(Clone, Debug)]
pub struct Schedule {
    pub stages: Vec<Stage>,
}

impl Schedule {
    /// Builds an empty schedule.
    pub fn new() -> (r: Schedule)
        ensures
            r.stages@ == Seq::<Stage>::empty(),
    {
        Schedule { stages: Vec::new() }
    }

    /// Appends a stage with the given label and run-once criterion.  The
    /// label must be fresh: stage labels identify stages.
    pub fn add_stage(&mut self, label: Stages, run_once: bool)
        requires
            forall|i: int| 0 <= i < old(self).stages@.len() ==> old(self).stages@[i].label != label,
        ensures
            final(self).stages@.len() == old(self).stages@.len() + 1,
            forall|i: int|
                0 <= i < old(self).stages@.len() ==> final(self).stages@[i] == old(self).stages@[i],
            final(self).stages@.last().label == label,
            final(self).stages@.last().run_once == run_once,
            final(self).stages@.last().done == false,
            final(self).stages@.last().systems@ == Seq::<SystemDesc>::empty(),
    {
        self.stages.push(Stage { label, run_once, done: false, systems: Vec::new() });
    }

    /// Adds a system to the stage of the given label, with explicit
    /// runs-after edges, and returns its index within the stage.
    ///
    /// Configuration errors are detected here, never at runtime: an unknown
    /// stage label, an edge naming a system not yet added, or a conflict
    /// under the aliasing rule with an existing system that no edge orders
    /// the new one after.
    pub fn add_system_to_stage(&mut self, label: Stages, kind: SystemKind, after: Vec<usize>) -> (r:
        Result<usize, ConfigError>)
        ensures
            final(self).stages@.len() == old(self).stages@.len(),
            find_stage(old(self).stages@, label) == -1 ==> r == Err::<usize, ConfigError>(
                ConfigError::UnknownStage,
            ) && final(self).stages@ == old(self).stages@,
            find_stage(old(self).stages@, label) >= 0 ==> {
                let si = find_stage(old(self).stages@, label);
                let sys0 = old(self).stages@[si].systems@;
                &&& !deps_ok(after@, sys0.len() as int) ==> r == Err::<usize, ConfigError>(
                    ConfigError::InvalidDependency,
                ) && final(self).stages@ == old(self).stages@
                &&& deps_ok(after@, sys0.len() as int) && !unordered_ok(kind, sys0, after@) ==> r
                    == Err::<usize, ConfigError>(ConfigError::AccessConflict)
                    && final(self).stages@ == old(self).stages@
                &&& deps_ok(after@, sys0.len() as int) && unordered_ok(kind, sys0, after@) ==> {
                    &&& r == Ok::<usize, ConfigError>(sys0.len() as usize)
                    &&& forall|i: int|
                        0 <= i < old(self).stages@.len() && i != si ==> final(self).stages@[i]
                            == old(self).stages@[i]
                    &&& final(self).stages@[si].label == old(self).stages@[si].label
                    &&& final(self).stages@[si].run_once == old(self).stages@[si].run_once
                    &&& final(self).stages@[si].done == old(self).stages@[si].done
                    &&& final(self).stages@[si].systems@.len() == sys0.len() + 1
                    &&& forall|j: int|
                        0 <= j < sys0.len() ==> final(self).stages@[si].systems@[j] == sys0[j]
                    &&& final(self).stages@[si].systems@.last().kind == kind
                    &&& final(self).stages@[si].systems@.last().after@ == after@
                }
            },
    {
        let ghost stages0 = self.stages@;
        let n = self.stages.len();
        let mut i: usize = n;
        let mut found = false;
        let mut si: usize = 0;
        proof {
            assert(stages0.take(n as int) =~= stages0);
        }
        while i > 0 && !found
            invariant
                i <= n,
                n == stages0.len(),
                self.stages@ == stages0,
                !found ==> find_stage(stages0, label) == find_stage(stages0.take(i as int), label),
                found ==> si < n && find_stage(stages0, label) == si as int,
            decreases i + (if found { 0int } else { 1int }),
        {
            i = i - 1;
            proof {
                assert(stages0.take(i + 1).drop_last() =~= stages0.take(i as int));
                assert(stages0.take(i + 1).last() == stages0[i as int]);
            }
            if self.stages[i].label == label {
                si = i;
                found = true;
            }
        }
        if !found {
            proof {
                assert(stages0.take(0).len() == 0);
            }
            return Err(ConfigError::UnknownStage);
        }
        let sys_len = self.stages[si].systems.len();
        let ghost sys0 = stages0[si as int].systems@;
        let na = after.len();
        let mut k: usize = 0;
        while k < na
            invariant
                k <= na,
                na == after@.len(),
                si < n,
                n == stages0.len(),
                stages0 == old(self).stages@,
                self.stages@ == stages0,
                find_stage(stages0, label) == si as int,
                sys0 == stages0[si as int].systems@,
                sys_len == sys0.len(),
                forall|p: int| 0 <= p < k ==> (after@[p] as int) < sys0.len(),
            decreases na - k,
        {
            if after[k] >= sys_len {
                proof {
                    assert(!deps_ok(after@, sys0.len() as int));
                }
                return Err(ConfigError::InvalidDependency);
            }
            k = k + 1;
        }
        proof {
            assert(deps_ok(after@, sys0.len() as int));
        }
        let sig_new = access_of(kind);
        let mut j: usize = 0;
        while j < sys_len
            invariant
                j <= sys_len,
                si < n,
                n == stages0.len(),
                stages0 == old(self).stages@,
                self.stages@ == stages0,
                find_stage(stages0, label) == si as int,
                sys0 == stages0[si as int].systems@,
                sys_len == sys0.len(),
                deps_ok(after@, sys0.len() as int),
                sig_new@ == spec_access_of(kind),
                forall|p: int|
                    0 <= p < j ==> after@.contains(p as usize) || !sig_conflicts(
                        spec_access_of(kind),
                        spec_access_of(sys0[p].kind),
                    ),
            decreases sys_len - j,
        {
            if !contains_usize(&after, j) {
                let sig_j = access_of(self.stages[si].systems[j].kind);
                if conflicts(&sig_new, &sig_j) {
                    proof {
                        assert(!(after@.contains(j as usize) || !sig_conflicts(
                            spec_access_of(kind),
                            spec_access_of(sys0[j as int].kind),
                        )));
                        assert(!unordered_ok(kind, sys0, after@));
                    }
                    return Err(ConfigError::AccessConflict);
                }
            }
            j = j + 1;
        }
        proof {
            assert(unordered_ok(kind, sys0, after@));
        }
        self.stages[si].systems.push(SystemDesc { kind, after });
        Ok(sys_len)
    }

    /// Executes one full pass: every stage in order, each stage's systems in
    /// execution order over a fresh command buffer, the buffer flushed into
    /// the store before the next stage begins, and every run-once criterion
    /// spent.  Returns the commands emitted for the rendering service, in
    /// emission order.
    pub fn run(&mut self, world: &mut WorldState) -> (ops: Vec<RenderOp>)
        requires
            old(world).wf(),
        ensures
            final(world).wf(),
            final(world).store.next == old(world).store.next,
            final(self).stages@ == run_spec(old(self).stages@, old(world)@, Seq::empty()).0,
            final(world)@ == run_spec(old(self).stages@, old(world)@, Seq::empty()).1,
            ops@ == run_spec(old(self).stages@, old(world)@, Seq::empty()).2,
    {
        let ghost stages0 = self.stages@;
        let ghost w0 = old(world)@;
        let mut ops: Vec<RenderOp> = Vec::new();
        let n = self.stages.len();
        let mut s: usize = 0;
        proof {
            assert(stages0.take(0).len() == 0);
            assert(run_spec(stages0.take(0), w0, Seq::empty()).0 + stages0.skip(0) =~= stages0);
        }
        while s < n
            invariant
                s <= n,
                n == stages0.len(),
                world.wf(),
                world.store.next == old(world).store.next,
                self.stages@ =~= run_spec(stages0.take(s as int), w0, Seq::empty()).0 + stages0.skip(
                    s as int,
                ),
                world@ == run_spec(stages0.take(s as int), w0, Seq::empty()).1,
                ops@ == run_spec(stages0.take(s as int), w0, Seq::empty()).2,
            decreases n - s,
        {
            let ghost pre = run_spec(stages0.take(s as int), w0, Seq::empty());
            proof {
                assert(stages0.take(s + 1).drop_last() =~= stages0.take(s as int));
                assert(stages0.take(s + 1).last() == stages0[s as int]);
                lemma_run_spec_stage_len(stages0.take(s as int), w0, Seq::empty());
                assert(self.stages@[s as int] == stages0[s as int]);
            }
            let run_once = self.stages[s].run_once;
            let done = self.stages[s].done;
            if !(run_once && done) {
                let mut buf = CommandBuffer::new();
                let ghost stages_mid = self.stages@;
                let ghost w_s = world@;
                let ghost ops_s = ops@;
                let ghost descs = stages0[s as int].systems@;
                let m = self.stages[s].systems.len();
                let mut j: usize = 0;
                proof {
                    assert(descs.take(0).len() == 0);
                }
                while j < m
                    invariant
                        j <= m,
                        s < n,
                        n == stages0.len(),
                        m == descs.len(),
                        self.stages@ == stages_mid,
                        stages_mid.len() == n,
                        stages_mid[s as int] == stages0[s as int],
                        descs == stages0[s as int].systems@,
                        world.wf(),
                        world.store.next == old(world).store.next,
                        world@ == run_systems_spec(descs.take(j as int), w_s, Seq::empty(), ops_s).0,
                        buf.despawns@ == run_systems_spec(
                            descs.take(j as int),
                            w_s,
                            Seq::empty(),
                            ops_s,
                        ).1,
                        ops@ == run_systems_spec(descs.take(j as int), w_s, Seq::empty(), ops_s).2,
                    decreases m - j,
                {
                    proof {
                        assert(descs.take(j + 1).drop_last() =~= descs.take(j as int));
                        assert(descs.take(j + 1).last() == descs[j as int]);
                    }
                    let kind = self.stages[s].systems[j].kind;
                    run_system(kind, world, &mut buf, &mut ops);
                    j = j + 1;
                }
                proof {
                    assert(descs.take(m as int) =~= descs);
                }
                buf.flush(&mut world.store);
                proof {
                    let p = run_systems_spec(descs, w_s, Seq::empty(), ops_s);
                    assert(world@ =~= stage_exec_spec(stages0[s as int], w_s, ops_s).0);
                    assert(ops@ == stage_exec_spec(stages0[s as int], w_s, ops_s).1);
                }
            }
            self.stages[s].done = true;
            proof {
                let p = pre;
                let q = stage_exec_spec(stages0[s as int], p.1, p.2);
                assert(world@ == q.0);
                assert(ops@ == q.1);
                assert(run_spec(stages0.take(s + 1), w0, Seq::empty()).0 == p.0.push(
                    stage_after(stages0[s as int]),
                ));
                assert(self.stages@ =~= p.0.push(stage_after(stages0[s as int])) + stages0.skip(
                    s + 1,
                ));
            }
            s = s + 1;
        }
        proof {
            assert(stages0.take(n as int) =~= stages0);
            assert(self.stages@ =~= run_spec(stages0, w0, Seq::empty()).0);
        }
        ops
    }
}

/// A pass reports exactly one processed stage per stage it was given.
pub proof fn lemma_run_spec_stage_len(stages: Seq<Stage>, w: WorldView, ops: Seq<RenderOp>)
    ensures
        run_spec(stages, w, ops).0.len() == stages.len(),
    decreases stages.len(),
{
    if stages.len() > 0 {
        lemma_run_spec_stage_len(stages.drop_last(), w, ops);
    }
}

/// A well-formed schedule's execution order is a topological sort of each
/// stage's dependency graph: every runs-after edge points to a system that
/// stands strictly earlier in the execution (insertion) order.
pub proof fn lemma_execution_respects_dependencies(stages: Seq<Stage>)
    requires
        sched_wf(stages),
    ensures
        forall|s: int, i: int, k: int|
            0 <= s < stages.len() && 0 <= i < stages[s].systems@.len() && 0 <= k
                < stages[s].systems@[i].after@.len() ==> (stages[s].systems@[i].after@[k] as int)
                < i,
{
    assert forall|s: int, i: int, k: int|
        0 <= s < stages.len() && 0 <= i < stages[s].systems@.len() && 0 <= k
            < stages[s].systems@[i].after@.len() implies (stages[s].systems@[i].after@[k] as int)
        < i by {
        assert(stage_wf(stages[s]));
        assert(deps_ok(stages[s].systems@[i].after@, i));
    }
}

impl Default for Schedule {
    /// Builds an empty schedule.
    fn default() -> (r: Schedule)
        ensures
            r.stages@ == Seq::<Stage>::empty(),
    {
        Schedule::new()
    }
}

} // verus!
