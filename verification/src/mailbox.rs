//! Latest-value mailbox: a single-slot hand-off where a new write replaces
//! any unread previous value.
//!
//! The display and publish hand-offs use this because only the newest state
//! matters; stale intermediate values must coalesce instead of queueing up
//! latency. Publishing never blocks the producer.

use vstd::prelude::*;

verus! {

/// Zero-or-one pending value. The view is the pending value, if any.
pub struct Mailbox<T> {
    slot: Option<T>,
}

impl<T> View for Mailbox<T> {
    type V = Option<T>;

    closed spec fn view(&self) -> Option<T> {
        self.slot
    }
}

impl<T> Mailbox<T> {
    pub fn new() -> (m: Mailbox<T>)
        ensures
            m@ is None,
    {
        Mailbox { slot: None }
    }

    /// Make `value` the pending value, overwriting any unconsumed one.
    /// Never blocks and never fails: the producer moves on immediately.
    pub fn publish(&mut self, value: T)
        ensures
            final(self)@ == Some(value),
    {
        self.slot = Some(value);
    }

    /// Take the pending value, leaving the mailbox empty. A consumer that
    /// finds `None` suspends and retries once a producer publishes.
    pub fn try_take(&mut self) -> (r: Option<T>)
        ensures
            r == old(self)@,
            final(self)@ is None,
    {
        self.slot.take()
    }
}

/// The pending value after publishing each element of `writes`, in order,
/// into a mailbox whose slot held `pending`.
pub open spec fn publish_all<T>(pending: Option<T>, writes: Seq<T>) -> Option<T>
    decreases writes.len(),
{
    if writes.len() == 0 {
        pending
    } else {
        publish_all(Some(writes.first()), writes.drop_first())
    }
}

/// Latest wins: however many values are published before the consumer gets
/// to run, the value it then observes is exactly the most recently published
/// one — never an earlier one.
pub proof fn lemma_latest_wins<T>(pending: Option<T>, writes: Seq<T>)
    requires
        writes.len() > 0,
    ensures
        publish_all(pending, writes) == Some(writes.last()),
    decreases writes.len(),
{
    if writes.len() == 1 {
    } else {
        lemma_latest_wins(Some(writes.first()), writes.drop_first());
        assert(writes.drop_first().last() == writes.last());
    }
}

} // verus!
