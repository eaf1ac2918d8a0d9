//! The time-ordered pending-retry queue, built on the `delay_queue` crate.
//!
//! `delay_queue::DelayQueue`'s declaration cannot be given to the verifier
//! directly (its type parameter is bound by the crate's own `Delayed` trait),
//! so the queue sits in a private field of `PendingQueue` and is consumed
//! through a narrow trusted interface. Each entry is a pair of plain
//! integers: the index of a source item and the retry budget left for it.
//! Contracts speak of the queue through `pending_entries`, the multiset of
//! entries it currently holds; eligibility times are the queue's own business
//! and deliberately stay out of the model, so nothing here promises *when* an
//! entry comes back, only *which* entries can.

use vstd::prelude::*;

verus! {

use core::time::Duration;
use vstd::multiset::Multiset;
use delay_queue::{Delay, DelayQueue};

/// A time-ordered queue of (source index, remaining budget) entries, each
/// eligible to come back only once the delay it was pushed with has elapsed.
#[verifier::external_body]
pub struct PendingQueue {
    queue: DelayQueue<Delay<(u64, u8)>>,
}

/// The entries a pending-retry queue currently holds, as a multiset of
/// (source index, remaining budget) pairs. A multiset carries no order: in
/// which order entries come back is settled only by their eligibility times,
/// which this model does not see.
pub uninterp spec fn pending_entries(q: PendingQueue) -> Multiset<(u64, u8)>;

/// Relies on `delay_queue::DelayQueue::new`, which creates an empty queue.
#[verifier::external_body]
pub(crate) fn queue_new() -> (q: PendingQueue)
    ensures
        pending_entries(q) == Multiset::<(u64, u8)>::empty(),
{
    PendingQueue { queue: DelayQueue::new() }
}

/// Relies on `delay_queue::DelayQueue::push` and `delay_queue::Delay::for_duration`:
/// adds the entry to the queue, eligible once `delay_ms` milliseconds have
/// elapsed from now. `for_duration` adds the delay to the current instant,
/// which panics if the sum leaves the clock's range; the delay is therefore
/// taken as a `u32` of milliseconds — under fifty days, which a monotonic
/// clock reading is never close enough to its maximum to overflow by.
#[verifier::external_body]
pub(crate) fn queue_push(q: &mut PendingQueue, idx: u64, budget: u8, delay_ms: u32)
    ensures
        pending_entries(*final(q)) == pending_entries(*old(q)).insert((idx, budget)),
{
    q.queue.push(Delay::for_duration((idx, budget), Duration::from_millis(delay_ms as u64)));
}

/// Relies on `delay_queue::DelayQueue::try_pop_for` with a zero timeout: a
/// non-blocking poll that removes and returns an entry whose delay has already
/// elapsed, if one is due now. `None` says nothing about the queue being
/// empty — every entry may simply still be waiting out its delay.
#[verifier::external_body]
pub(crate) fn queue_try_pop_due(q: &mut PendingQueue) -> (r: Option<(u64, u8)>)
    ensures
        match r {
            Some(e) => pending_entries(*old(q)).count(e) > 0 && pending_entries(*final(q))
                == pending_entries(*old(q)).remove(e),
            None => pending_entries(*final(q)) == pending_entries(*old(q)),
        },
{
    q.queue.try_pop_for(Duration::from_secs(0)).map(|d| d.value)
}

/// Relies on `delay_queue::DelayQueue::pop`: blocks until the earliest entry's
/// delay has elapsed, then removes and returns it. On an empty queue the call
/// would block forever, so that case is excluded here.
#[verifier::external_body]
pub(crate) fn queue_pop_wait(q: &mut PendingQueue) -> (r: (u64, u8))
    requires
        pending_entries(*old(q)).len() > 0,
    ensures
        pending_entries(*old(q)).count(r) > 0,
        pending_entries(*final(q)) == pending_entries(*old(q)).remove(r),
{
    q.queue.pop().value
}

/// Relies on `delay_queue::DelayQueue::is_empty`.
#[verifier::external_body]
pub(crate) fn queue_is_empty(q: &PendingQueue) -> (r: bool)
    ensures
        r == (pending_entries(*q).len() == 0),
{
    q.queue.is_empty()
}

} // verus!
