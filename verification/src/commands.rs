use vstd::prelude::*;
use crate::store::ComponentStore;
use crate::store::Slot;
use crate::store::lemma_remove_entity_absent;
use crate::store::remove_entity;

verus! {

/// A recorded despawn list with a second despawn of the same entity dropped:
/// despawning is idempotent within one buffer.
pub open spec fn despawn_spec(buf: Seq<u64>, e: u64) -> Seq<u64> {
    if buf.contains(e) {
        buf
    } else {
        buf.push(e)
    }
}

/// The slot sequence after applying every recorded despawn, in insertion
/// order.
pub open spec fn flush_spec(slots: Seq<Slot>, despawns: Seq<u64>) -> Seq<Slot>
    decreases despawns.len(),
{
    if despawns.len() == 0 {
        slots
    } else {
        remove_entity(flush_spec(slots, despawns.drop_last()), despawns.last())
    }
}

/// No slot of a despawned entity survives the flush.
pub proof fn lemma_flush_spec_absent(slots: Seq<Slot>, despawns: Seq<u64>, e: u64)
    requires
        despawns.contains(e),
    ensures
        forall|i: int| 0 <= i < flush_spec(slots, despawns).len() ==> #[trigger] flush_spec(
            slots,
            despawns,
        )[i].entity != e,
    decreases despawns.len(),
{
    let front = despawns.drop_last();
    if despawns.last() == e {
        lemma_remove_entity_absent(flush_spec(slots, front), e);
    } else {
        assert(front.contains(e)) by {
            let w = choose|w: int| 0 <= w < despawns.len() && despawns[w] == e;
            assert(front[w] == e);
        }
        lemma_flush_spec_absent(slots, front, e);
        crate::store::lemma_remove_entity_keeps_missing(
            flush_spec(slots, front),
            despawns.last(),
            e,
        );
    }
}

/// The command buffer: structural mutations recorded during system execution
/// and applied at the stage's flush point, never mid-iteration.  Its lifetime
/// is scoped to one stage execution.
#[derive(Clone, Debug)]
pub struct CommandBuffer {
    pub despawns: Vec<u64>,
}

impl CommandBuffer {
    /// Builds an empty buffer.
    pub fn new() -> (r: CommandBuffer)
        ensures
            r.despawns@ == Seq::<u64>::empty(),
    {
        CommandBuffer { despawns: Vec::new() }
    }

    /// Records the intent to despawn entity `e`.  The entity is untouched
    /// until the flush point; a second despawn of the same entity within one
    /// buffer has no effect.
    pub fn despawn(&mut self, e: u64)
        ensures
            final(self).despawns@ == despawn_spec(old(self).despawns@, e),
    {
        let ghost buf0 = self.despawns@;
        let n = self.despawns.len();
        let mut i: usize = 0;
        while i < n
            invariant
                i <= n,
                n == buf0.len(),
                self.despawns@ == buf0,
                forall|j: int| 0 <= j < i ==> buf0[j] != e,
            decreases n - i,
        {
            if self.despawns[i] == e {
                proof {
                    assert(buf0.contains(e));
                }
                return ;
            }
            i = i + 1;
        }
        proof {
            assert(!buf0.contains(e)) by {
                if buf0.contains(e) {
                    let w = choose|w: int| 0 <= w < buf0.len() && buf0[w] == e;
                }
            }
        }
        self.despawns.push(e);
    }

    /// Applies every recorded despawn to the store, in insertion order, then
    /// clears the buffer.
    pub fn flush(&mut self, store: &mut ComponentStore)
        ensures
            final(store).slots@ == flush_spec(old(store).slots@, old(self).despawns@),
            final(store).next == old(store).next,
            old(store).wf() ==> final(store).wf(),
            final(self).despawns@ == Seq::<u64>::empty(),
    {
        let ghost slots0 = store.slots@;
        let ghost ds = self.despawns@;
        let n = self.despawns.len();
        let mut i: usize = 0;
        while i < n
            invariant
                i <= n,
                n == ds.len(),
                self.despawns@ == ds,
                store.slots@ == flush_spec(slots0, ds.take(i as int)),
                store.next == old(store).next,
                old(store).wf() ==> store.wf(),
            decreases n - i,
        {
            proof {
                assert(ds.take(i + 1).drop_last() =~= ds.take(i as int));
                assert(ds.take(i + 1).last() == ds[i as int]);
            }
            let e = self.despawns[i];
            store.remove(e);
            i = i + 1;
        }
        proof {
            assert(ds.take(n as int) =~= ds);
        }
        self.despawns.clear();
    }
}

} // verus!
