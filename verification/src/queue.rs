//! The bounded stage queue: the system's sole flow-control mechanism. A
//! producer offering an item to a full queue is refused and keeps the item,
//! so it must wait rather than drop or reorder work; consumers drain in
//! first-in, first-out order.

use vstd::prelude::*;

verus! {

/// A first-in, first-out queue with a fixed capacity bound.
pub struct BoundedQueue<T> {
    pub items: Vec<T>,
    pub capacity: usize,
}

impl<T> BoundedQueue<T> {
    /// The capacity bound is positive and never exceeded.
    pub open spec fn wf(self) -> bool {
        self.capacity >= 1 && self.items@.len() <= self.capacity
    }

    pub open spec fn spec_len(self) -> nat {
        self.items@.len()
    }

    pub open spec fn is_full(self) -> bool {
        self.items@.len() == self.capacity
    }

    /// An empty queue of the given capacity.
    pub fn new(capacity: usize) -> (r: BoundedQueue<T>)
        requires
            capacity >= 1,
        ensures
            r.wf(),
            r.capacity == capacity,
            r.items@ == Seq::<T>::empty(),
    {
        let r = BoundedQueue { items: Vec::new(), capacity };
        proof {
            assert(r.items@ =~= Seq::<T>::empty());
        }
        r
    }

    pub fn len(&self) -> (r: usize)
        ensures
            r == self.spec_len(),
    {
        self.items.len()
    }

    /// Offer an item: a full queue refuses and hands the item back unchanged
    /// — the producer must block; otherwise the item joins the back, behind
    /// everything already queued.
    pub fn try_send(&mut self, item: T) -> (r: Result<(), T>)
        requires
            old(self).wf(),
        ensures
            final(self).wf(),
            final(self).capacity == old(self).capacity,
            match r {
                Ok(()) => !old(self).is_full() && final(self).items@ == old(self).items@.push(item),
                Err(back) => old(self).is_full() && final(self).items@ == old(self).items@ && back
                    == item,
            },
    {
        if self.items.len() == self.capacity {
            Err(item)
        } else {
            self.items.push(item);
            Ok(())
        }
    }

    /// Take the oldest item, if any: exactly the front, so order of arrival
    /// is order of service.
    pub fn try_recv(&mut self) -> (r: Option<T>)
        requires
            old(self).wf(),
        ensures
            final(self).wf(),
            final(self).capacity == old(self).capacity,
            match r {
                Some(item) => old(self).spec_len() > 0 && item == old(self).items@[0]
                    && final(self).items@ == old(self).items@.drop_first(),
                None => old(self).spec_len() == 0 && final(self).items@ == old(self).items@,
            },
    {
        if self.items.len() == 0 {
            None
        } else {
            let item = self.items.remove(0);
            proof {
                assert(self.items@ =~= old(self).items@.drop_first());
            }
            Some(item)
        }
    }
}

} // verus!
