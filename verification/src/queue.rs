//! Bounded FIFO queue: the multi-producer, single-consumer event channel.
//!
//! A full queue exerts backpressure: `try_enqueue` hands the value back and
//! the producer suspends and retries instead of dropping the event. The
//! consumer always takes the front, so elements leave in exactly the order
//! they entered.

use vstd::prelude::*;

verus! {

/// Fixed-capacity FIFO buffer. The view is the sequence of pending elements,
/// oldest first.
pub struct BoundedQueue<T> {
    items: Vec<T>,
    capacity: usize,
}

impl<T> View for BoundedQueue<T> {
    type V = Seq<T>;

    closed spec fn view(&self) -> Seq<T> {
        self.items@
    }
}

impl<T> BoundedQueue<T> {
    /// How many elements the queue can hold at once.
    pub closed spec fn spec_capacity(&self) -> nat {
        self.capacity as nat
    }

    /// The queue never holds more than its capacity.
    pub open spec fn wf(&self) -> bool {
        self@.len() <= self.spec_capacity()
    }

    pub fn new(capacity: usize) -> (q: BoundedQueue<T>)
        requires
            capacity >= 1,
        ensures
            q.wf(),
            q@ == Seq::<T>::empty(),
            q.spec_capacity() == capacity,
    {
        BoundedQueue { items: Vec::new(), capacity }
    }

    pub fn len(&self) -> (n: usize)
        ensures
            n == self@.len(),
    {
        self.items.len()
    }

    pub fn is_empty(&self) -> (b: bool)
        ensures
            b <==> self@.len() == 0,
    {
        self.items.len() == 0
    }

    pub fn is_full(&self) -> (b: bool)
        ensures
            b <==> self@.len() >= self.spec_capacity(),
    {
        self.items.len() >= self.capacity
    }

    /// Submit an element. With room, it is appended behind every element
    /// already pending; when the queue is full the element comes back
    /// unchanged in `Err` and the caller must retry once space frees
    /// (backpressure, never a silent drop).
    pub fn try_enqueue(&mut self, value: T) -> (r: Result<(), T>)
        requires
            old(self).wf(),
        ensures
            final(self).wf(),
            final(self).spec_capacity() == old(self).spec_capacity(),
            old(self)@.len() < old(self).spec_capacity() ==> r is Ok && final(self)@ == old(self)@.push(value),
            old(self)@.len() >= old(self).spec_capacity() ==> r == Err::<(), T>(value) && final(self)@ == old(self)@,
    {
        if self.items.len() < self.capacity {
            self.items.push(value);
            Ok(())
        } else {
            Err(value)
        }
    }

    /// Take the oldest pending element, if any. The remaining elements keep
    /// their relative order.
    pub fn try_dequeue(&mut self) -> (r: Option<T>)
        requires
            old(self).wf(),
        ensures
            final(self).wf(),
            final(self).spec_capacity() == old(self).spec_capacity(),
            old(self)@.len() == 0 ==> r is None && final(self)@ == old(self)@,
            old(self)@.len() > 0 ==> r == Some(old(self)@.first()) && final(self)@ == old(self)@.drop_first(),
    {
        if self.items.len() == 0 {
            None
        } else {
            let v = self.items.remove(0);
            proof {
                assert(self@ =~= old(self)@.drop_first());
            }
            Some(v)
        }
    }
}

/// The pending sequence after enqueuing each element of `incoming`, in order,
/// onto a queue holding `pending` (capacity wide enough for all of them).
pub open spec fn enqueue_all<T>(pending: Seq<T>, incoming: Seq<T>) -> Seq<T>
    decreases incoming.len(),
{
    if incoming.len() == 0 {
        pending
    } else {
        enqueue_all(pending.push(incoming.first()), incoming.drop_first())
    }
}

/// The order in which a consumer that always takes the front observes the
/// elements of `pending`.
pub open spec fn drain_order<T>(pending: Seq<T>) -> Seq<T>
    decreases pending.len(),
{
    if pending.len() == 0 {
        Seq::empty()
    } else {
        seq![pending.first()] + drain_order(pending.drop_first())
    }
}

/// Submission order is preserved: enqueuing the elements of `incoming` one by
/// one appends them, in their own order, behind everything already pending.
/// One producer's events therefore never overtake each other, whatever other
/// producers interleave between them.
pub proof fn lemma_enqueue_all_appends<T>(pending: Seq<T>, incoming: Seq<T>)
    ensures
        enqueue_all(pending, incoming) == pending + incoming,
    decreases incoming.len(),
{
    if incoming.len() == 0 {
        assert(enqueue_all(pending, incoming) =~= pending + incoming);
    } else {
        lemma_enqueue_all_appends(pending.push(incoming.first()), incoming.drop_first());
        assert(pending.push(incoming.first()) + incoming.drop_first() =~= pending + incoming);
    }
}

/// FIFO consumption, exactly once: a consumer that repeatedly dequeues the
/// front observes every pending element exactly once, in the order the queue
/// holds them — nothing reordered, dropped, or duplicated.
pub proof fn lemma_drain_order_is_identity<T>(pending: Seq<T>)
    ensures
        drain_order(pending) == pending,
    decreases pending.len(),
{
    if pending.len() == 0 {
        assert(drain_order(pending) =~= pending);
    } else {
        lemma_drain_order_is_identity(pending.drop_first());
        assert(seq![pending.first()] + pending.drop_first() =~= pending);
    }
}

} // verus!
