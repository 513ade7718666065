//! Trusted surface over the outside priority queue that holds the open
//! set: arena indices keyed by accumulated cost. The queue's contents are
//! named as a multiset of (index, priority) pairs, and each wrapped
//! method's contract states what the crate's source shows of it.

use vstd::prelude::*;
use vstd::multiset::Multiset;
use priority_queue::DoublePriorityQueue;

verus! {

#[verifier::external_type_specification]
#[verifier::external_body]
#[verifier::reject_recursive_types(I)]
#[verifier::reject_recursive_types(P)]
#[verifier::reject_recursive_types(H)]
pub struct ExDoublePriorityQueue<I, P, H>(DoublePriorityQueue<I, P, H>);

/// What the open-set queue holds: the multiset of its (item, priority)
/// pairs.
pub uninterp spec fn queue_entries(q: DoublePriorityQueue<usize, u64>) -> Multiset<(usize, u64)>;

/// Relies on DoublePriorityQueue::new: creates an empty queue.
#[verifier::external_body]
pub(crate) fn queue_new() -> (q: DoublePriorityQueue<usize, u64>)
    ensures
        queue_entries(q) == Multiset::<(usize, u64)>::empty(),
{
    DoublePriorityQueue::new()
}

/// Relies on DoublePriorityQueue::push: inserts an item with a priority.
/// The caller keeps items distinct (fresh arena indices), so no existing
/// entry is updated.
#[verifier::external_body]
pub(crate) fn queue_push(q: &mut DoublePriorityQueue<usize, u64>, item: usize, priority: u64)
    requires
        forall|e: (usize, u64)| queue_entries(*old(q)).count(e) > 0 ==> e.0 != item,
    ensures
        queue_entries(*final(q)) == queue_entries(*old(q)).insert((item, priority)),
{
    q.push(item, priority);
}

/// Relies on DoublePriorityQueue::pop_min: removes and returns a pair
/// carrying the lowest priority in the queue, or `None` exactly when the
/// queue is empty. Which of several lowest-priority pairs leaves is up to
/// the queue.
#[verifier::external_body]
pub(crate) fn queue_pop_min(q: &mut DoublePriorityQueue<usize, u64>) -> (r: Option<(usize, u64)>)
    ensures
        match r {
            None => queue_entries(*old(q)).len() == 0 && queue_entries(*final(q))
                == queue_entries(*old(q)),
            Some(e) => queue_entries(*old(q)).count(e) > 0 && queue_entries(*final(q))
                == queue_entries(*old(q)).remove(e) && forall|f: (usize, u64)|
                queue_entries(*old(q)).count(f) > 0 ==> e.1 <= f.1,
        },
{
    q.pop_min()
}

} // verus!
