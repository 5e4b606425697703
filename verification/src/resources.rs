use vstd::prelude::*;
use crate::input::InputQueue;
use crate::render::Rid;

verus! {

/// The pending-removal resource: visual-item handles whose entities should be
/// despawned by the next cleanup pass.
///
/// The unregister entry point appends handles; the cleanup system drains the
/// list once per pass and clears it unconditionally afterwards.
#[derive(Clone, Debug)]
pub struct RenderablesToRemove {
    pub vec: Vec<Rid>,
}

impl View for RenderablesToRemove {
    type V = Seq<Rid>;

    open spec fn view(&self) -> Seq<Rid> {
        self.vec@
    }
}

impl RenderablesToRemove {
    /// Builds an empty pending-removal list.
    pub fn new() -> (r: RenderablesToRemove)
        ensures
            r@ == Seq::<Rid>::empty(),
    {
        RenderablesToRemove { vec: Vec::new() }
    }
}

/// The stable identifier of a resource type: the key of the resource store.
#[derive(Clone, Copy, PartialEq, Eq, Structural, Debug)]
pub enum ResourceKey {
    Removals,
    Input,
}

/// A tagged resource value, carrying one singleton of the keyed type.
#[derive(Clone, Debug)]
pub enum ResourceValue {
    Removals(RenderablesToRemove),
    Input(InputQueue),
}

/// The key a tagged value is stored under.
pub open spec fn key_of(v: ResourceValue) -> ResourceKey {
    match v {
        ResourceValue::Removals(_) => ResourceKey::Removals,
        ResourceValue::Input(_) => ResourceKey::Input,
    }
}

/// Singleton shared state, keyed by resource type: at most one value per key,
/// held in a tagged slot per key.
#[derive(Clone, Debug)]
pub struct ResourceStore {
    pub removals: Option<RenderablesToRemove>,
    pub input: Option<InputQueue>,
}

impl ResourceStore {
    /// The value stored under key `k`, if any.
    pub open spec fn spec_get(self, k: ResourceKey) -> Option<ResourceValue> {
        match k {
            ResourceKey::Removals => match self.removals {
                Some(r) => Some(ResourceValue::Removals(r)),
                None => None,
            },
            ResourceKey::Input => match self.input {
                Some(q) => Some(ResourceValue::Input(q)),
                None => None,
            },
        }
    }

    /// Builds an empty store: no resource present under any key.
    pub fn new() -> (r: ResourceStore)
        ensures
            forall|k: ResourceKey| r.spec_get(k) is None,
    {
        ResourceStore { removals: None, input: None }
    }

    /// Stores `v` under its own key, replacing any previous value of that
    /// key; every other key is untouched.
    pub fn insert(&mut self, v: ResourceValue)
        ensures
            final(self).spec_get(key_of(v)) == Some(v),
            forall|k: ResourceKey|
                k != key_of(v) ==> final(self).spec_get(k) == old(self).spec_get(k),
    {
        match v {
            ResourceValue::Removals(r) => {
                self.removals = Some(r);
            },
            ResourceValue::Input(q) => {
                self.input = Some(q);
            },
        }
    }

    /// Whether a value is stored under key `k`.
    pub fn contains(&self, k: ResourceKey) -> (r: bool)
        ensures
            r == (self.spec_get(k) is Some),
    {
        match k {
            ResourceKey::Removals => self.removals.is_some(),
            ResourceKey::Input => self.input.is_some(),
        }
    }

    /// Removes and returns the value stored under key `k`, if any; every
    /// other key is untouched.
    pub fn take(&mut self, k: ResourceKey) -> (r: Option<ResourceValue>)
        ensures
            r == old(self).spec_get(k),
            final(self).spec_get(k) is None,
            forall|k2: ResourceKey| k2 != k ==> final(self).spec_get(k2) == old(self).spec_get(k2),
    {
        match k {
            ResourceKey::Removals => {
                let mut tmp: Option<RenderablesToRemove> = None;
                core::mem::swap(&mut self.removals, &mut tmp);
                match tmp {
                    Some(r) => Some(ResourceValue::Removals(r)),
                    None => None,
                }
            },
            ResourceKey::Input => {
                let mut tmp: Option<InputQueue> = None;
                core::mem::swap(&mut self.input, &mut tmp);
                match tmp {
                    Some(q) => Some(ResourceValue::Input(q)),
                    None => None,
                }
            },
        }
    }
}

} // verus!
