//! The three kinds of task queue that the pool is built on, all from
//! `crossbeam`: the bounded shared queue, the unbounded overflow queues and the
//! workers' own deques.
//!
//! A task is named by a `u64`; what it runs is kept outside of the queues. Every
//! function here takes the queue by exclusive reference, so nothing else touches the
//! queue itself during the call. The contents of a deque are shared with its stealers,
//! which an exclusive reference to the deque does not rule out: the only stealer ever
//! made is the one in `local_steal`, and it does not outlive that call. So the contents
//! of every queue before and after a call are well defined.
use crate::worker::Overflow;
use crossbeam::deque::{Injector, Steal, Worker};
use crossbeam::queue::ArrayQueue;
use vstd::prelude::*;

verus! {

/// The bounded first-in first-out queue of `crossbeam`.
#[verifier::external_type_specification]
#[verifier::external_body]
#[verifier::reject_recursive_types(T)]
pub struct ExArrayQueue<T>(ArrayQueue<T>);

/// The unbounded first-in first-out injector queue of `crossbeam`.
#[verifier::external_type_specification]
#[verifier::external_body]
#[verifier::reject_recursive_types(T)]
pub struct ExInjector<T>(Injector<T>);

/// The work-stealing deque of `crossbeam`, seen from its owner's side.
#[verifier::external_type_specification]
#[verifier::external_body]
#[verifier::reject_recursive_types(T)]
pub struct ExWorker<T>(Worker<T>);

/// The tasks in a bounded queue, oldest first.
pub uninterp spec fn bounded_tasks(queue: ArrayQueue<u64>) -> Seq<u64>;

/// The number of tasks that a bounded queue was made for.
pub uninterp spec fn bounded_capacity(queue: ArrayQueue<u64>) -> nat;

/// The tasks in an injector queue, oldest first.
pub uninterp spec fn injected_tasks(queue: Injector<u64>) -> Seq<u64>;

/// The tasks in a worker's deque, oldest first.
pub uninterp spec fn local_tasks(queue: Worker<u64>) -> Seq<u64>;

/// Whether a worker's deque was made first-in first-out.
pub uninterp spec fn local_is_fifo(queue: Worker<u64>) -> bool;

/// `ArrayQueue::new`: an empty queue with room for `capacity` tasks.
///
/// It panics on a capacity of zero, and where the slots, of sixteen bytes each,
/// would not fit in one allocation.
#[verifier::external_body]
pub(crate) fn bounded_new(capacity: usize) -> (queue: ArrayQueue<u64>)
    requires
        0 < capacity,
        16 * capacity <= isize::MAX,
    ensures
        bounded_tasks(queue) == Seq::<u64>::empty(),
        bounded_capacity(queue) == capacity,
{
    ArrayQueue::new(capacity)
}

/// `ArrayQueue::push`: appends the task where there is room, and hands it back
/// where the queue is full.
#[verifier::external_body]
pub(crate) fn bounded_push(queue: &mut ArrayQueue<u64>, task: u64) -> (r: Result<(), u64>)
    ensures
        bounded_capacity(*final(queue)) == bounded_capacity(*old(queue)),
        match r {
            Ok(_) => bounded_tasks(*old(queue)).len() < bounded_capacity(*old(queue))
                && bounded_tasks(*final(queue)) == bounded_tasks(*old(queue)).push(task),
            Err(back) => bounded_tasks(*old(queue)).len() >= bounded_capacity(*old(queue)) && back
                == task && bounded_tasks(*final(queue)) == bounded_tasks(*old(queue)),
        },
{
    queue.push(task)
}

/// `ArrayQueue::pop`: takes the oldest task, or nothing where the queue is empty.
#[verifier::external_body]
pub(crate) fn bounded_pop(queue: &mut ArrayQueue<u64>) -> (r: Option<u64>)
    ensures
        bounded_capacity(*final(queue)) == bounded_capacity(*old(queue)),
        match r {
            Some(task) => bounded_tasks(*old(queue)).len() > 0 && task == bounded_tasks(
                *old(queue),
            )[0] && bounded_tasks(*final(queue)) == bounded_tasks(*old(queue)).drop_first(),
            None => bounded_tasks(*old(queue)).len() == 0 && bounded_tasks(*final(queue))
                == bounded_tasks(*old(queue)),
        },
{
    queue.pop()
}

/// `ArrayQueue::is_empty`: whether the queue holds no task. The exclusive
/// reference keeps other threads from changing the queue meanwhile; the call
/// itself changes nothing.
#[verifier::external_body]
pub(crate) fn bounded_is_empty(queue: &mut ArrayQueue<u64>) -> (r: bool)
    ensures
        *final(queue) == *old(queue),
        r == (bounded_tasks(*old(queue)).len() == 0),
{
    queue.is_empty()
}

/// `ArrayQueue::len`: the number of tasks in the queue.
#[verifier::external_body]
pub(crate) fn bounded_len(queue: &mut ArrayQueue<u64>) -> (n: usize)
    ensures
        *final(queue) == *old(queue),
        n == bounded_tasks(*old(queue)).len(),
{
    queue.len()
}

/// `Injector::new`: an empty queue.
#[verifier::external_body]
pub(crate) fn injector_new() -> (queue: Injector<u64>)
    ensures
        injected_tasks(queue) == Seq::<u64>::empty(),
{
    Injector::new()
}

/// `Injector::push`: appends the task.
#[verifier::external_body]
pub(crate) fn injector_push(queue: &mut Injector<u64>, task: u64)
    ensures
        injected_tasks(*final(queue)) == injected_tasks(*old(queue)).push(task),
{
    queue.push(task)
}

/// `Injector::steal`: takes the oldest task of a queue that holds one.
///
/// The queue's head is moved by a compare-exchange that may fail without cause. Then
/// the call asks to be made again, and nothing is taken from a queue that holds
/// tasks: so a task is not promised for every queue that holds one.
#[verifier::external_body]
pub(crate) fn injector_steal(queue: &mut Injector<u64>) -> (r: Overflow)
    ensures
        match r {
            Overflow::Task(task) => injected_tasks(*old(queue)).len() > 0 && task == injected_tasks(
                *old(queue),
            )[0] && injected_tasks(*final(queue)) == injected_tasks(*old(queue)).drop_first(),
            Overflow::Empty => injected_tasks(*old(queue)).len() == 0 && injected_tasks(
                *final(queue),
            ) == injected_tasks(*old(queue)),
            Overflow::Busy => injected_tasks(*old(queue)).len() > 0 && injected_tasks(*final(queue))
                == injected_tasks(*old(queue)),
        },
{
    match queue.steal() {
        Steal::Success(task) => Overflow::Task(task),
        Steal::Empty => Overflow::Empty,
        Steal::Retry => Overflow::Busy,
    }
}

/// `Injector::is_empty`: whether the queue holds no task.
#[verifier::external_body]
pub(crate) fn injector_is_empty(queue: &mut Injector<u64>) -> (r: bool)
    ensures
        *final(queue) == *old(queue),
        r == (injected_tasks(*old(queue)).len() == 0),
{
    queue.is_empty()
}

/// `Worker::new_fifo`: an empty first-in first-out deque.
#[verifier::external_body]
pub(crate) fn local_new() -> (queue: Worker<u64>)
    ensures
        local_tasks(queue) == Seq::<u64>::empty(),
        local_is_fifo(queue),
{
    Worker::new_fifo()
}

/// `Worker::pop` on a first-in first-out deque: takes the oldest task, or nothing
/// where the deque is empty.
#[verifier::external_body]
pub(crate) fn local_pop(queue: &mut Worker<u64>) -> (r: Option<u64>)
    requires
        local_is_fifo(*old(queue)),
    ensures
        local_is_fifo(*final(queue)),
        match r {
            Some(task) => local_tasks(*old(queue)).len() > 0 && task == local_tasks(*old(queue))[0]
                && local_tasks(*final(queue)) == local_tasks(*old(queue)).drop_first(),
            None => local_tasks(*old(queue)).len() == 0 && local_tasks(*final(queue))
                == local_tasks(*old(queue)),
        },
{
    queue.pop()
}

/// `Worker::is_empty`: whether the deque holds no task.
#[verifier::external_body]
pub(crate) fn local_is_empty(queue: &mut Worker<u64>) -> (r: bool)
    ensures
        *final(queue) == *old(queue),
        r == (local_tasks(*old(queue)).len() == 0),
{
    queue.is_empty()
}

/// `Stealer::steal`, through a stealer of this deque: takes the oldest task of a
/// deque that holds one, and nothing from an empty one. A retry would take another
/// thread at the deque; the stealer lives no longer than the call, so there is none.
#[verifier::external_body]
pub(crate) fn local_steal(queue: &mut Worker<u64>) -> (r: Option<u64>)
    ensures
        local_is_fifo(*final(queue)) == local_is_fifo(*old(queue)),
        match r {
            Some(task) => local_tasks(*old(queue)).len() > 0 && task == local_tasks(*old(queue))[0]
                && local_tasks(*final(queue)) == local_tasks(*old(queue)).drop_first(),
            None => local_tasks(*old(queue)).len() == 0 && local_tasks(*final(queue))
                == local_tasks(*old(queue)),
        },
{
    queue.stealer().steal().success()
}

} // verus!
