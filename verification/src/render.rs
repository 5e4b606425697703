use vstd::prelude::*;
use crate::math::Transform2D;

verus! {

/// An opaque handle to a visual item owned by the host rendering service.
///
/// The scheduler never looks inside a handle; it only stores it, compares it
/// for equality, and emits it back to the rendering service.
#[derive(Clone, Copy, PartialEq, Eq, Structural, Debug, Hash)]
pub struct Rid {
    pub id: u64,
}

/// A command for the host rendering service, emitted during a pass.
///
/// The embedding collects the commands a pass returns and forwards each to
/// the renderer: `SetTransform` synchronizes a visual item with its simulated
/// transform, `Release` frees a visual item whose entity was despawned.
#[derive(Clone, Copy, PartialEq, Eq, Structural, Debug)]
pub enum RenderOp {
    SetTransform { rid: Rid, transform: Transform2D },
    Release { rid: Rid },
}

} // verus!
