use vstd::prelude::*;

verus! {

/// A discrete input-action symbol sampled from the host input service.
#[derive(Clone, Copy, PartialEq, Eq, Structural, Debug, Hash)]
pub enum GodotInput {
    MoveUp,
    MoveDown,
    MoveLeft,
    MoveRight,
}

/// The singleton input-event resource: an ordered queue of action symbols.
///
/// The poll entry point appends symbols; exactly one system per pass drains
/// the whole queue.  Draining is destructive and total: afterwards the queue
/// is empty and no event is ever read twice.
#[derive(Clone, Debug)]
pub struct InputQueue {
    pub queue: Vec<GodotInput>,
}

impl View for InputQueue {
    type V = Seq<GodotInput>;

    open spec fn view(&self) -> Seq<GodotInput> {
        self.queue@
    }
}

impl InputQueue {
    /// Builds an empty queue.
    pub fn new() -> (r: InputQueue)
        ensures
            r@ == Seq::<GodotInput>::empty(),
    {
        let queue: Vec<GodotInput> = Vec::new();
        InputQueue { queue }
    }

    /// Appends one event at the back of the queue.
    pub fn add(&mut self, data: GodotInput)
        ensures
            final(self)@ == old(self)@.push(data),
    {
        self.queue.push(data);
    }

    /// Removes and returns the oldest event, if any.
    pub fn read_single(&mut self) -> (r: Option<GodotInput>)
        ensures
            old(self)@.len() == 0 ==> r is None && final(self)@ == old(self)@,
            old(self)@.len() > 0 ==> r == Some(old(self)@[0]) && final(self)@ == old(self)@.drop_first(),
    {
        if self.queue.len() == 0 {
            None
        } else {
            let first = self.queue.remove(0);
            proof {
                assert(final(self)@ =~= old(self)@.drop_first());
            }
            Some(first)
        }
    }

    /// Drains the whole queue: returns every queued event, in queue order,
    /// and leaves the queue empty.
    pub fn read_all(&mut self) -> (r: Vec<GodotInput>)
        ensures
            r@ == old(self)@,
            final(self)@ == Seq::<GodotInput>::empty(),
    {
        let mut drained: Vec<GodotInput> = Vec::new();
        core::mem::swap(&mut self.queue, &mut drained);
        drained
    }
}

} // verus!
