//! The queue of free cells, by the `crossbeam_queue` crate.
//!
//! The queue changes behind shared references; here it is held by an owner that lends it
//! out exclusively for each change, so what it holds is a matter of its value.

use crossbeam_queue::SegQueue;
use vstd::prelude::*;

verus! {

/// `crossbeam_queue::SegQueue`, an unbounded queue.
#[verifier::external_type_specification]
#[verifier::external_body]
#[verifier::reject_recursive_types(T)]
pub struct ExSegQueue<T>(SegQueue<T>);

/// What a queue holds, from the head to the tail.
pub uninterp spec fn queued(queue: SegQueue<usize>) -> Seq<usize>;

/// `SegQueue::new`: the queue holds nothing.
#[verifier::external_body]
pub(crate) fn queue_new() -> (queue: SegQueue<usize>)
    ensures
        queued(queue) == Seq::<usize>::empty(),
{
    SegQueue::new()
}

/// `SegQueue::push`: the value is put behind the tail, and all else stays as it is. Nothing
/// else uses the queue during the call.
#[verifier::external_body]
pub(crate) fn queue_push(queue: &mut SegQueue<usize>, value: usize)
    ensures
        queued(*final(queue)) == queued(*old(queue)).push(value),
{
    queue.push(value)
}

/// `SegQueue::pop`: the value at the head leaves the queue and is returned; an empty queue
/// stays empty and gives `None`. Nothing else uses the queue during the call.
#[verifier::external_body]
pub(crate) fn queue_pop(queue: &mut SegQueue<usize>) -> (value: Option<usize>)
    ensures
        match value {
            Some(v) => queued(*old(queue)).len() > 0 && v == queued(*old(queue)).first()
                && queued(*final(queue)) == queued(*old(queue)).drop_first(),
            None => queued(*old(queue)).len() == 0 && queued(*final(queue)) == queued(
                *old(queue),
            ),
        },
{
    queue.pop()
}

/// `SegQueue::len`: how many values the queue holds.
#[verifier::external_body]
pub(crate) fn queue_len(queue: &SegQueue<usize>) -> (len: usize)
    ensures
        len == queued(*queue).len(),
{
    queue.len()
}

} // verus!
