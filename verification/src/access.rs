use vstd::prelude::*;

verus! {

/// The stable identifier of a piece of shared data a system may touch:
/// the renderable component storage or one of the singleton resources.
#[derive(Clone, Copy, PartialEq, Eq, Structural, Debug)]
pub enum DataKey {
    RenderableComponent,
    RemovalsResource,
    InputResource,
}

/// One entry of an access signature: a piece of data and whether the system
/// mutates it.  Deferred structural edits through the command buffer are not
/// an access; they touch the store only at the stage's flush point.
#[derive(Clone, Copy, PartialEq, Eq, Structural, Debug)]
pub struct Access {
    pub key: DataKey,
    pub write: bool,
}

/// The aliasing rule: two signatures conflict when they name the same data
/// and at least one side mutates it.  Two systems of one stage without an
/// ordering edge between them must not conflict.
pub open spec fn sig_conflicts(a: Seq<Access>, b: Seq<Access>) -> bool {
    exists|i: int, j: int|
        0 <= i < a.len() && 0 <= j < b.len() && a[i].key == b[j].key && (a[i].write || b[j].write)
}

/// Decides the aliasing rule, proved equal to [`sig_conflicts`].
pub fn conflicts(a: &Vec<Access>, b: &Vec<Access>) -> (r: bool)
    ensures
        r == sig_conflicts(a@, b@),
{
    let na = a.len();
    let nb = b.len();
    let mut i: usize = 0;
    while i < na
        invariant
            i <= na,
            na == a@.len(),
            nb == b@.len(),
            forall|p: int, q: int|
                0 <= p < i && 0 <= q < b@.len() ==> !(a@[p].key == b@[q].key && (a@[p].write
                    || b@[q].write)),
        decreases na - i,
    {
        let mut j: usize = 0;
        while j < nb
            invariant
                i < na,
                j <= nb,
                na == a@.len(),
                nb == b@.len(),
                forall|q: int|
                    0 <= q < j ==> !(a@[i as int].key == b@[q].key && (a@[i as int].write
                        || b@[q].write)),
            decreases nb - j,
        {
            if a[i].key == b[j].key && (a[i].write || b[j].write) {
                return true;
            }
            j = j + 1;
        }
        i = i + 1;
    }
    false
}

} // verus!
