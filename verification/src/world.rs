use vstd::prelude::*;
use crate::input::GodotInput;
use crate::render::Rid;
use crate::resources::ResourceKey;
use crate::resources::ResourceStore;
use crate::resources::ResourceValue;
use crate::store::ComponentStore;
use crate::store::Slot;

verus! {

/// The mathematical state of the world: the slot sequence of the component
/// store and the contents of the two singleton resources.
#[verifier::ext_equal]
pub struct WorldView {
    pub slots: Seq<Slot>,
    pub removals: Seq<Rid>,
    pub input: Seq<GodotInput>,
}

/// The world: the component store and the resource store, exclusively owned
/// by the scheduler's enclosing object.  External callers never hold
/// references into it; all interaction goes through the entry points.
#[derive(Clone, Debug)]
pub struct WorldState {
    pub store: ComponentStore,
    pub resources: ResourceStore,
}

impl View for WorldState {
    type V = WorldView;

    open spec fn view(&self) -> WorldView {
        WorldView {
            slots: self.store.slots@,
            removals: match self.resources.spec_get(ResourceKey::Removals) {
                Some(ResourceValue::Removals(r)) => r@,
                _ => Seq::empty(),
            },
            input: match self.resources.spec_get(ResourceKey::Input) {
                Some(ResourceValue::Input(q)) => q@,
                _ => Seq::empty(),
            },
        }
    }
}

impl WorldState {
    /// The world invariant: the store invariant holds and both singleton
    /// resources have been inserted.
    pub open spec fn wf(self) -> bool {
        &&& self.store.wf()
        &&& self.resources.spec_get(ResourceKey::Removals) is Some
        &&& self.resources.spec_get(ResourceKey::Input) is Some
    }

    /// Builds a world with an empty store and no resources yet.
    pub fn new() -> (r: WorldState)
        ensures
            r.store.slots@ == Seq::<Slot>::empty(),
            r.store.next == 0,
            r.store.wf(),
            forall|k: ResourceKey| r.resources.spec_get(k) is None,
    {
        WorldState { store: ComponentStore::new(), resources: ResourceStore::new() }
    }
}

impl Default for WorldState {
    /// Builds a world with an empty store and no resources yet.
    fn default() -> (r: WorldState)
        ensures
            r.store.slots@ == Seq::<Slot>::empty(),
            r.store.next == 0,
            r.store.wf(),
            forall|k: ResourceKey| r.resources.spec_get(k) is None,
    {
        WorldState::new()
    }
}

} // verus!
