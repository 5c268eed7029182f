//! The queue that messages wait in.

use crossbeam::queue::SegQueue;
use vstd::prelude::*;

use crate::thread_monitor::ThreadStatus;

verus! {

/// A first-in first-out queue.
#[verifier::external_type_specification]
#[verifier::external_body]
#[verifier::reject_recursive_types(T)]
pub struct ExSegQueue<T>(SegQueue<T>);

/// The messages in a queue, the oldest first.
pub uninterp spec fn queue_contents(queue: SegQueue<ThreadStatus>) -> Seq<ThreadStatus>;

/// Calls `crossbeam::queue::SegQueue::new`: a new queue holds no message.
#[verifier::external_body]
pub(crate) fn queue_new() -> (queue: SegQueue<ThreadStatus>)
    ensures
        queue_contents(queue) == Seq::<ThreadStatus>::empty(),
{
    SegQueue::new()
}

/// Calls `crossbeam::queue::SegQueue::push`: the message goes behind those that are there.
///
/// The queue is held exclusively, so no other push or pop comes between.
#[verifier::external_body]
pub(crate) fn queue_push(queue: &mut SegQueue<ThreadStatus>, message: ThreadStatus)
    ensures
        queue_contents(*final(queue)) == queue_contents(*old(queue)).push(message),
{
    queue.push(message)
}

/// Calls `crossbeam::queue::SegQueue::pop`: the oldest message leaves the queue, and an empty
/// queue gives `None`.
///
/// The queue is held exclusively, so no other push or pop comes between.
#[verifier::external_body]
pub(crate) fn queue_pop(queue: &mut SegQueue<ThreadStatus>) -> (r: Option<ThreadStatus>)
    ensures
        match r {
            Some(message) => queue_contents(*old(queue)) == seq![message] + queue_contents(
                *final(queue),
            ),
            None => queue_contents(*old(queue)).len() == 0 && queue_contents(*final(queue)).len()
                == 0,
        },
{
    queue.pop()
}

} // verus!
