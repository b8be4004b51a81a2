//! The bounded buffer between the task that produces and the task that
//! consumes.
//!
//! The buffer is a `ConcurrentQueue`, shared by both tasks. What it holds
//! at a given moment is up to the other task, so nothing is said of it
//! here: only of what a call hands to its caller. What is done with the
//! answer of the queue is decided by functions that take the answer as
//! it came, whatever it is.

use vstd::prelude::*;
use concurrent_queue::{ConcurrentQueue, PushError};
use crate::error::Error;

verus! {

/// A bounded or unbounded queue that several tasks push to and pop from.
#[verifier::external_type_specification]
#[verifier::external_body]
#[verifier::reject_recursive_types(T)]
pub struct ExConcurrentQueue<T>(ConcurrentQueue<T>);

/// An item that the queue did not take.
pub struct Refused<T> {
    /// The item, as it was offered.
    pub item: T,
    /// Whether the queue is closed, rather than full.
    pub closed: bool,
}

/// `ConcurrentQueue::push`. The queue takes the item, or hands it back
/// unchanged where it is full or closed.
#[verifier::external_body]
fn try_push<T>(queue: &ConcurrentQueue<T>, item: T) -> (r: Result<(), Refused<T>>)
    ensures
        r matches Err(refused) ==> refused.item == item,
{
    match queue.push(item) {
        Ok(()) => Ok(()),
        Err(PushError::Full(item)) => Err(Refused { item, closed: false }),
        Err(PushError::Closed(item)) => Err(Refused { item, closed: true }),
    }
}

/// `ConcurrentQueue::pop`. The item at the head of the queue, `None`
/// where the queue is empty.
#[verifier::external_body]
fn try_pop<T>(queue: &ConcurrentQueue<T>) -> (r: Option<T>) {
    queue.pop().ok()
}

/// What became of a run of items offered to the queue.
pub struct Offered<T> {
    /// The items that the queue did not take, in the order in which they
    /// were offered.
    pub left: Vec<T>,
    /// Whether the queue refused the first of them because it is closed.
    pub closed: bool,
}

/// What a producer does after it has offered an item, by the answer
/// `outcome` of the queue. An item that was taken is done with. An item
/// that a full queue refused comes back to be offered again, once the
/// producer has waited: it is not dropped. A closed queue takes nothing
/// any more, and the producer fails.
pub fn after_offer<T>(outcome: Result<(), Refused<T>>) -> (next: Result<Option<T>, Error>)
    ensures
        match outcome {
            Ok(()) => next == Ok::<Option<T>, Error>(None),
            Err(refused) => if refused.closed {
                next == Err::<Option<T>, Error>(Error::ConnectionClosed)
            } else {
                next == Ok::<Option<T>, Error>(Some(refused.item))
            },
        },
{
    match outcome {
        Ok(()) => Ok(None),
        Err(refused) => if refused.closed {
            Err(Error::ConnectionClosed)
        } else {
            Ok(Some(refused.item))
        },
    }
}

/// Adds what the queue handed out to the batch `items`, which holds
/// fewer than the `max` items that it may hold, and says whether the
/// consumer asks the queue for more. An item goes to the end of the
/// batch, and more is asked for while the batch is not full. Where the
/// queue handed out nothing it is empty: the batch stays as it is and
/// is complete.
pub fn take_popped<T>(items: &mut Vec<T>, popped: Option<T>, max: usize) -> (more: bool)
    requires
        old(items)@.len() < max,
    ensures
        match popped {
            Some(item) => final(items)@ == old(items)@.push(item) && more == (old(items)@.len() + 1
                < max),
            None => final(items)@ == old(items)@ && !more,
        },
{
    match popped {
        Some(item) => {
            items.push(item);
            items.len() < max
        },
        None => false,
    }
}

/// Offers one item to the queue.
pub fn push_one<T>(queue: &ConcurrentQueue<T>, item: T) -> (r: Result<(), Refused<T>>)
    ensures
        r matches Err(refused) ==> refused.item == item,
{
    try_push(queue, item)
}

/// Offers the items to the queue in order, up to the first that the
/// queue refuses. The items from that one on come back, in order: none
/// is dropped, and none is offered out of turn.
pub fn push_all<T>(queue: &ConcurrentQueue<T>, items: Vec<T>) -> (r: Offered<T>)
    ensures
        r.left@.len() <= items@.len(),
        r.left@ == items@.skip(items@.len() - r.left@.len()),
        r.closed ==> r.left@.len() > 0,
{
    let ghost all = items@;
    let mut items = items;
    let mut rev: Vec<T> = Vec::new();
    while items.len() > 0
        invariant
            items@.len() + rev@.len() == all.len(),
            items@ == all.take(items@.len() as int),
            forall|k: int| 0 <= k < rev@.len() ==> #[trigger] rev@[k] == all[all.len() - 1 - k],
        decreases items@.len(),
    {
        let item = items.pop().unwrap();
        rev.push(item);
        proof {
            assert(items@ =~= all.take(items@.len() as int));
        }
    }
    let mut closed: bool = false;
    while rev.len() > 0
        invariant_except_break
            !closed,
        invariant
            rev@.len() <= all.len(),
            forall|k: int| 0 <= k < rev@.len() ==> #[trigger] rev@[k] == all[all.len() - 1 - k],
        ensures
            rev@.len() <= all.len(),
            forall|k: int| 0 <= k < rev@.len() ==> #[trigger] rev@[k] == all[all.len() - 1 - k],
            closed ==> rev@.len() > 0,
        decreases rev@.len(),
    {
        let ghost at = rev@.len() - 1;
        let item = rev.pop().unwrap();
        match try_push(queue, item) {
            Ok(()) => {},
            Err(refused) => {
                closed = refused.closed;
                rev.push(refused.item);
                proof {
                    assert(rev@[at] == all[all.len() - 1 - at]);
                }
                break;
            },
        }
    }
    let ghost kept = rev@;
    let mut left: Vec<T> = Vec::new();
    while rev.len() > 0
        invariant
            left@.len() + rev@.len() == kept.len(),
            kept.len() <= all.len(),
            rev@ == kept.take(rev@.len() as int),
            forall|k: int| 0 <= k < kept.len() ==> #[trigger] kept[k] == all[all.len() - 1 - k],
            forall|k: int|
                0 <= k < left@.len() ==> #[trigger] left@[k] == all[all.len() - kept.len() + k],
        decreases rev@.len(),
    {
        let ghost at = rev@.len() - 1;
        let item = rev.pop().unwrap();
        proof {
            assert(item == kept[at]);
            assert(rev@ =~= kept.take(rev@.len() as int));
        }
        left.push(item);
    }
    proof {
        assert(left@ =~= all.skip(all.len() - left@.len()));
    }
    Offered { left, closed }
}

/// Takes items from the head of the queue until it is empty or `max`
/// items are taken.
pub fn pop_up_to<T>(queue: &ConcurrentQueue<T>, max: usize) -> (items: Vec<T>)
    ensures
        items@.len() <= max,
{
    let mut items: Vec<T> = Vec::new();
    let mut more: bool = max > 0;
    while more
        invariant
            items@.len() <= max,
            more ==> items@.len() < max,
        decreases
                max - items@.len() + if more {
                    1int
                } else {
                    0int
                },
    {
        more = take_popped(&mut items, try_pop(queue), max);
    }
    items
}

} // verus!
