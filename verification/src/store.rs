use vstd::prelude::*;
use crate::math::Transform2D;
use crate::render::Rid;

verus! {

/// The one component type of this simulation: a renderable visual item, as an
/// opaque handle into the host rendering service plus its 2-D transform.
#[derive(Clone, Copy, PartialEq, Eq, Structural, Debug)]
pub struct Renderable {
    pub rid: Rid,
    pub global_transform: Transform2D,
}

/// One entity of the world: an opaque numeric identifier and the component
/// attached to it, if any.
#[derive(Clone, Copy, PartialEq, Eq, Structural, Debug)]
pub struct Slot {
    pub entity: u64,
    pub data: Option<Renderable>,
}

/// Entity identifiers are strictly increasing along the slot sequence, and
/// all lie below the next identifier to be handed out.  This makes every
/// identifier unique and `spawn` fresh.
pub open spec fn slots_wf(slots: Seq<Slot>, next: u64) -> bool {
    &&& forall|i: int, j: int|
        0 <= i < j < slots.len() ==> slots[i].entity < slots[j].entity
    &&& forall|i: int| 0 <= i < slots.len() ==> #[trigger] slots[i].entity < next
}

/// The slot sequence with every slot of entity `e` removed, order preserved.
pub open spec fn remove_entity(slots: Seq<Slot>, e: u64) -> Seq<Slot>
    decreases slots.len(),
{
    if slots.len() == 0 {
        Seq::empty()
    } else if slots.last().entity == e {
        remove_entity(slots.drop_last(), e)
    } else {
        remove_entity(slots.drop_last(), e).push(slots.last())
    }
}

/// The component attached to the last slot of entity `e`, if that slot holds
/// one; `None` when the entity is absent or bare.
pub open spec fn get_spec(slots: Seq<Slot>, e: u64) -> Option<Renderable>
    decreases slots.len(),
{
    if slots.len() == 0 {
        None
    } else if slots.last().entity == e {
        slots.last().data
    } else {
        get_spec(slots.drop_last(), e)
    }
}

/// The slot sequence with the component of the last slot of entity `e`
/// replaced by `r`; unchanged when the entity is absent.
pub open spec fn insert_spec(slots: Seq<Slot>, e: u64, r: Renderable) -> Seq<Slot>
    decreases slots.len(),
{
    if slots.len() == 0 {
        Seq::empty()
    } else if slots.last().entity == e {
        slots.drop_last().push(Slot { entity: e, data: Some(r) })
    } else {
        insert_spec(slots.drop_last(), e, r).push(slots.last())
    }
}

/// The entities that currently possess the renderable component, in slot
/// order: what a query over `&Renderable` yields.
pub open spec fn live_entities(slots: Seq<Slot>) -> Seq<u64>
    decreases slots.len(),
{
    if slots.len() == 0 {
        Seq::empty()
    } else if slots.last().data is Some {
        live_entities(slots.drop_last()).push(slots.last().entity)
    } else {
        live_entities(slots.drop_last())
    }
}

/// Removal never removes slots of other entities and keeps their bound.
pub proof fn lemma_remove_entity_bound(slots: Seq<Slot>, e: u64, b: u64)
    requires
        forall|i: int| 0 <= i < slots.len() ==> #[trigger] slots[i].entity < b,
    ensures
        forall|i: int| 0 <= i < remove_entity(slots, e).len() ==> #[trigger] remove_entity(
            slots,
            e,
        )[i].entity < b,
    decreases slots.len(),
{
    if slots.len() > 0 {
        assert(forall|i: int|
            0 <= i < slots.drop_last().len() ==> #[trigger] slots.drop_last()[i].entity < b);
        lemma_remove_entity_bound(slots.drop_last(), e, b);
    }
}

/// Removal preserves the store invariant.
pub proof fn lemma_remove_entity_wf(slots: Seq<Slot>, next: u64, e: u64)
    requires
        slots_wf(slots, next),
    ensures
        slots_wf(remove_entity(slots, e), next),
    decreases slots.len(),
{
    if slots.len() > 0 {
        let front = slots.drop_last();
        assert(forall|i: int, j: int|
            0 <= i < j < front.len() ==> front[i].entity < front[j].entity);
        assert(forall|i: int| 0 <= i < front.len() ==> #[trigger] front[i].entity < next);
        lemma_remove_entity_wf(front, next, e);
        if slots.last().entity != e {
            assert(forall|i: int|
                0 <= i < front.len() ==> #[trigger] front[i].entity < slots.last().entity);
            lemma_remove_entity_bound(front, e, slots.last().entity);
        }
    }
}

/// No slot of the removed entity survives a removal.
pub proof fn lemma_remove_entity_absent(slots: Seq<Slot>, e: u64)
    ensures
        forall|i: int| 0 <= i < remove_entity(slots, e).len() ==> #[trigger] remove_entity(
            slots,
            e,
        )[i].entity != e,
    decreases slots.len(),
{
    if slots.len() > 0 {
        lemma_remove_entity_absent(slots.drop_last(), e);
    }
}

/// Every slot that survives a removal was a slot before it.
pub proof fn lemma_remove_entity_subset(slots: Seq<Slot>, e: u64)
    ensures
        forall|i: int|
            0 <= i < remove_entity(slots, e).len() ==> exists|j: int|
                0 <= j < slots.len() && #[trigger] remove_entity(slots, e)[i] == slots[j],
    decreases slots.len(),
{
    if slots.len() > 0 {
        let front = slots.drop_last();
        let rest = remove_entity(front, e);
        lemma_remove_entity_subset(front, e);
        assert forall|i: int| 0 <= i < remove_entity(slots, e).len() implies exists|j: int|
            0 <= j < slots.len() && #[trigger] remove_entity(slots, e)[i] == slots[j] by {
            if slots.last().entity == e {
                let j = choose|j: int| 0 <= j < front.len() && rest[i] == front[j];
                assert(remove_entity(slots, e)[i] == slots[j]);
            } else {
                if i < rest.len() {
                    let j = choose|j: int| 0 <= j < front.len() && rest[i] == front[j];
                    assert(remove_entity(slots, e)[i] == slots[j]);
                } else {
                    assert(remove_entity(slots, e)[i] == slots[slots.len() - 1]);
                }
            }
        }
    }
}

/// Removal cannot introduce a slot of an entity that was already absent.
pub proof fn lemma_remove_entity_keeps_missing(slots: Seq<Slot>, x: u64, e: u64)
    requires
        forall|i: int| 0 <= i < slots.len() ==> #[trigger] slots[i].entity != e,
    ensures
        forall|i: int| 0 <= i < remove_entity(slots, x).len() ==> #[trigger] remove_entity(
            slots,
            x,
        )[i].entity != e,
    decreases slots.len(),
{
    if slots.len() > 0 {
        assert(forall|i: int|
            0 <= i < slots.drop_last().len() ==> #[trigger] slots.drop_last()[i].entity != e);
        lemma_remove_entity_keeps_missing(slots.drop_last(), x, e);
    }
}

/// Per-entity storage: the slot sequence plus the next identifier to hand
/// out.  All structural removal is routed through the command buffer, never
/// performed while a query over the same slots is being iterated.
#[derive(Clone, Debug)]
pub struct ComponentStore {
    pub slots: Vec<Slot>,
    pub next: u64,
}

impl ComponentStore {
    /// The store invariant: identifiers strictly increasing and fresh.
    pub open spec fn wf(self) -> bool {
        slots_wf(self.slots@, self.next)
    }

    /// Builds an empty store.
    pub fn new() -> (r: ComponentStore)
        ensures
            r.slots@ == Seq::<Slot>::empty(),
            r.next == 0,
            r.wf(),
    {
        ComponentStore { slots: Vec::new(), next: 0 }
    }

    /// Creates a fresh, component-less entity and returns its identifier.
    pub fn spawn(&mut self) -> (e: u64)
        requires
            old(self).wf(),
            old(self).next < u64::MAX,
        ensures
            final(self).wf(),
            e == old(self).next,
            final(self).next == old(self).next + 1,
            final(self).slots@ == old(self).slots@.push(Slot { entity: e, data: None }),
    {
        let e = self.next;
        self.slots.push(Slot { entity: e, data: None });
        self.next = self.next + 1;
        e
    }

    /// Attaches component `r` to entity `e`; no effect if `e` is absent.
    pub fn insert(&mut self, e: u64, r: Renderable)
        ensures
            final(self).slots@ == insert_spec(old(self).slots@, e, r),
            final(self).next == old(self).next,
            old(self).wf() ==> final(self).wf(),
    {
        let ghost slots0 = self.slots@;
        let mut i: usize = self.slots.len();
        let mut done = false;
        proof {
            assert(slots0.take(slots0.len() as int) =~= slots0);
            assert(insert_spec(slots0, e, r) + slots0.skip(slots0.len() as int) =~= insert_spec(
                slots0,
                e,
                r,
            ));
        }
        while i > 0 && !done
            invariant
                i <= slots0.len(),
                self.next == old(self).next,
                !done ==> self.slots@ == slots0,
                !done ==> insert_spec(slots0, e, r) == insert_spec(slots0.take(i as int), e, r)
                    + slots0.skip(i as int),
                done ==> self.slots@ == insert_spec(slots0, e, r),
            decreases i + (if done { 0int } else { 1int }),
        {
            i = i - 1;
            if self.slots[i].entity == e {
                self.slots[i] = Slot { entity: e, data: Some(r) };
                proof {
                    assert(slots0.take(i + 1).drop_last() =~= slots0.take(i as int));
                    assert(slots0.take(i + 1).last() == slots0[i as int]);
                    assert(insert_spec(slots0.take(i + 1), e, r) == slots0.take(i as int).push(
                        Slot { entity: e, data: Some(r) },
                    ));
                    assert(self.slots@ =~= slots0.take(i as int).push(
                        Slot { entity: e, data: Some(r) },
                    ) + slots0.skip(i + 1));
                }
                done = true;
            } else {
                proof {
                    assert(slots0.take(i + 1).drop_last() =~= slots0.take(i as int));
                    assert(slots0.take(i + 1).last() == slots0[i as int]);
                    assert(insert_spec(slots0.take(i + 1), e, r) == insert_spec(
                        slots0.take(i as int),
                        e,
                        r,
                    ).push(slots0[i as int]));
                    assert(insert_spec(slots0.take(i as int), e, r).push(slots0[i as int])
                        + slots0.skip(i + 1) =~= insert_spec(slots0.take(i as int), e, r)
                        + slots0.skip(i as int));
                }
            }
        }
        proof {
            if !done {
                assert(slots0.take(0).len() == 0);
                assert(insert_spec(slots0.take(0), e, r) + slots0.skip(0) =~= slots0);
            }
            if old(self).wf() {
                lemma_insert_spec_wf(slots0, old(self).next, e, r);
            }
        }
    }

    /// Reads the component of entity `e`.
    pub fn get(&self, e: u64) -> (r: Option<Renderable>)
        ensures
            r == get_spec(self.slots@, e),
    {
        let mut i: usize = self.slots.len();
        proof {
            assert(self.slots@.take(self.slots@.len() as int) =~= self.slots@);
        }
        while i > 0
            invariant
                i <= self.slots@.len(),
                get_spec(self.slots@, e) == get_spec(self.slots@.take(i as int), e),
            decreases i,
        {
            i = i - 1;
            proof {
                assert(self.slots@.take(i + 1).drop_last() =~= self.slots@.take(i as int));
                assert(self.slots@.take(i + 1).last() == self.slots@[i as int]);
            }
            if self.slots[i].entity == e {
                return self.slots[i].data;
            }
        }
        proof {
            assert(self.slots@.take(0).len() == 0);
        }
        None
    }

    /// Removes entity `e` and, with it, all its components, atomically with
    /// respect to any in-flight query; no effect if `e` is absent.
    pub fn remove(&mut self, e: u64)
        ensures
            final(self).slots@ == remove_entity(old(self).slots@, e),
            final(self).next == old(self).next,
            old(self).wf() ==> final(self).wf(),
    {
        let ghost slots0 = self.slots@;
        let mut kept: Vec<Slot> = Vec::new();
        let n = self.slots.len();
        let mut i: usize = 0;
        while i < n
            invariant
                i <= n,
                n == slots0.len(),
                self.slots@ == slots0,
                self.next == old(self).next,
                kept@ == remove_entity(slots0.take(i as int), e),
            decreases n - i,
        {
            proof {
                assert(slots0.take(i + 1).drop_last() =~= slots0.take(i as int));
                assert(slots0.take(i + 1).last() == slots0[i as int]);
            }
            if self.slots[i].entity != e {
                kept.push(self.slots[i]);
            }
            i = i + 1;
        }
        proof {
            assert(slots0.take(n as int) =~= slots0);
        }
        self.slots = kept;
        proof {
            if old(self).wf() {
                lemma_remove_entity_wf(slots0, old(self).next, e);
            }
        }
    }

    /// The query over `&Renderable`: every entity currently possessing the
    /// component, in slot order.  The result is a snapshot, so iterating it
    /// is restartable and never observes a structural change mid-pass.
    pub fn query(&self) -> (r: Vec<u64>)
        ensures
            r@ == live_entities(self.slots@),
    {
        let mut out: Vec<u64> = Vec::new();
        let n = self.slots.len();
        let mut i: usize = 0;
        while i < n
            invariant
                i <= n,
                n == self.slots@.len(),
                out@ == live_entities(self.slots@.take(i as int)),
            decreases n - i,
        {
            proof {
                assert(self.slots@.take(i + 1).drop_last() =~= self.slots@.take(i as int));
                assert(self.slots@.take(i + 1).last() == self.slots@[i as int]);
            }
            if self.slots[i].data.is_some() {
                out.push(self.slots[i].entity);
            }
            i = i + 1;
        }
        proof {
            assert(self.slots@.take(n as int) =~= self.slots@);
        }
        out
    }

    /// The number of slots.
    pub fn len(&self) -> (n: usize)
        ensures
            n == self.slots@.len(),
    {
        self.slots.len()
    }
}

/// Component insertion touches no entity identifier, so it preserves the
/// store invariant.
pub proof fn lemma_insert_spec_wf(slots: Seq<Slot>, next: u64, e: u64, r: Renderable)
    requires
        slots_wf(slots, next),
    ensures
        slots_wf(insert_spec(slots, e, r), next),
        insert_spec(slots, e, r).len() == slots.len(),
        forall|i: int| 0 <= i < slots.len() ==> #[trigger] insert_spec(slots, e, r)[i].entity
            == slots[i].entity,
    decreases slots.len(),
{
    if slots.len() > 0 {
        let front = slots.drop_last();
        assert(forall|i: int, j: int|
            0 <= i < j < front.len() ==> front[i].entity < front[j].entity);
        assert(forall|i: int| 0 <= i < front.len() ==> #[trigger] front[i].entity < next);
        lemma_insert_spec_wf(front, next, e, r);
    }
}

} // verus!
