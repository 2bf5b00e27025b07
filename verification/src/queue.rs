//! A fixed-capacity FIFO mailbox with best-effort delivery: posting to a
//! full queue drops the item and returns at once, it never blocks. This
//! is the availability-over-reliability contract of the replica's
//! control-plane queues.

use vstd::prelude::*;

verus! {

/// A bounded FIFO queue. `post` is total and never blocks: when the
/// queue already holds `cap()` items the new item is silently dropped.
pub struct BoundedQueue<T> {
    items: Vec<T>,
    capacity: usize,
}

impl<T> BoundedQueue<T> {
    /// The pending items, oldest first.
    pub closed spec fn contents(&self) -> Seq<T> {
        self.items@
    }

    /// The fixed capacity the queue was created with.
    pub closed spec fn cap(&self) -> int {
        self.capacity as int
    }

    /// Creates an empty queue of the given capacity.
    pub fn new(capacity: usize) -> (q: Self)
        ensures
            q.contents() == Seq::<T>::empty(),
            q.cap() == capacity,
    {
        BoundedQueue { items: Vec::new(), capacity }
    }

    /// Best-effort enqueue: appends when there is room, drops the item
    /// otherwise. Returns whether the item was accepted.
    pub fn post(&mut self, item: T) -> (accepted: bool)
        ensures
            accepted == (old(self).contents().len() < old(self).cap()),
            accepted ==> final(self).contents() == old(self).contents().push(item),
            !accepted ==> final(self).contents() == old(self).contents(),
            final(self).cap() == old(self).cap(),
    {
        if self.items.len() < self.capacity {
            self.items.push(item);
            true
        } else {
            false
        }
    }

    /// Non-blocking receive: pops the oldest item, or returns `None`
    /// when the queue is empty.
    pub fn try_recv(&mut self) -> (r: Option<T>)
        ensures
            final(self).cap() == old(self).cap(),
            old(self).contents().len() == 0 ==> r is None
                && final(self).contents() == old(self).contents(),
            old(self).contents().len() > 0 ==> r == Some(old(self).contents()[0])
                && final(self).contents() == old(self).contents().skip(1),
    {
        if self.items.len() > 0 {
            let item = self.items.remove(0);
            proof {
                assert(self.items@ =~= old(self).contents().skip(1));
            }
            Some(item)
        } else {
            None
        }
    }

    /// How many items are pending.
    pub fn len(&self) -> (n: usize)
        ensures
            n == self.contents().len(),
    {
        self.items.len()
    }
}

} // verus!
