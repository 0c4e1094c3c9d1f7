use vstd::prelude::*;

verus! {

/// Why an enqueue did not go through: the channel holds its capacity
/// already, and the caller must wait for the dispatch loop to drain
/// an identifier before retrying.
#[derive(Debug, Copy, Clone, PartialEq, Eq, Structural)]
pub enum QueueError {
    Full,
}

/// The admission queue: a bounded, first-in-first-out channel of item
/// identifiers between the command surface and the dispatch loop.
/// A full queue refuses an identifier rather than dropping it; the
/// caller blocks on that refusal, which is the system's only
/// backpressure point.
pub struct BoundedQueue {
    pub buf: Vec<usize>,
    pub cap: usize,
}

impl BoundedQueue {
    /// The queue invariant: never more identifiers than the capacity
    /// it was created with.
    pub open spec fn wf(self) -> bool {
        self.buf@.len() <= self.cap
    }

    pub fn new(cap: usize) -> (r: BoundedQueue)
        requires
            cap >= 1,
        ensures
            r.buf@ == Seq::<usize>::empty(),
            r.cap == cap,
            r.wf(),
    {
        let r = BoundedQueue { buf: Vec::new(), cap };
        proof {
            assert(r.buf@ =~= Seq::<usize>::empty());
        }
        r
    }

    pub fn len(&self) -> (r: usize)
        ensures
            r == self.buf@.len(),
    {
        self.buf.len()
    }

    pub fn capacity(&self) -> (r: usize)
        ensures
            r == self.cap,
    {
        self.cap
    }

    /// Appends `id` when there is room; a full queue is left unchanged
    /// and reports so. Nothing is ever silently dropped.
    pub fn enqueue(&mut self, id: usize) -> (r: Result<(), QueueError>)
        requires
            old(self).wf(),
        ensures
            final(self).wf(),
            final(self).cap == old(self).cap,
            match r {
                Ok(()) => old(self).buf@.len() < old(self).cap
                    && final(self).buf@ == old(self).buf@.push(id),
                Err(e) => e == QueueError::Full && old(self).buf@.len() == old(self).cap
                    && *final(self) == *old(self),
            },
    {
        if self.buf.len() >= self.cap {
            return Err(QueueError::Full);
        }
        self.buf.push(id);
        Ok(())
    }

    /// Removes and returns the oldest identifier, preserving enqueue
    /// order.
    pub fn dequeue(&mut self) -> (r: Option<usize>)
        requires
            old(self).wf(),
        ensures
            final(self).wf(),
            final(self).cap == old(self).cap,
            match r {
                Some(id) => old(self).buf@.len() > 0 && id == old(self).buf@[0]
                    && final(self).buf@ == old(self).buf@.drop_first(),
                None => old(self).buf@.len() == 0 && *final(self) == *old(self),
            },
    {
        if self.buf.len() == 0 {
            return None;
        }
        let id = self.buf.remove(0);
        proof {
            assert(self.buf@ =~= old(self).buf@.drop_first());
        }
        Some(id)
    }
}

} // verus!
