//! How a spawned task may end.
use crate::errors::SpawnError;
use crate::handle::{received, Channel, HandleState};
use crate::result::SpawnResult;
use vstd::prelude::*;

verus! {

/// What was seen of a task that ended. Of its cancellation and its own end, the
/// one that was seen first counts.
pub enum TaskEvent<T> {
    /// It was cancelled.
    Cancelled,
    /// It returned a value.
    Returned(T),
    /// It panicked, with a payload that reads so.
    Panicked(String),
    /// The thread that ran it could not be joined, for this reason.
    JoinFailed(String),
}

/// What a task came to that ended in the given way.
pub open spec fn settled<T>(event: TaskEvent<T>) -> SpawnResult<T> {
    match event {
        TaskEvent::Cancelled => Err(SpawnError::Cancelled),
        TaskEvent::Returned(value) => Ok(value),
        TaskEvent::Panicked(payload) => Err(SpawnError::Panic(payload)),
        TaskEvent::JoinFailed(reason) => Err(SpawnError::JoinFailed(reason)),
    }
}

/// What a task came to that ended in the given way.
pub fn settle<T>(event: TaskEvent<T>) -> (result: SpawnResult<T>)
    ensures
        result == settled(event),
{
    match event {
        TaskEvent::Cancelled => Err(SpawnError::Cancelled),
        TaskEvent::Returned(value) => Ok(value),
        TaskEvent::Panicked(payload) => Err(SpawnError::Panic(payload)),
        TaskEvent::JoinFailed(reason) => Err(SpawnError::JoinFailed(reason)),
    }
}

/// A task succeeds where it returned a value, and in no other way.
pub proof fn law_only_a_returned_value_succeeds<T>(event: TaskEvent<T>)
    ensures
        settled(event) is Ok <==> event is Returned,
        settled(event) matches Ok(value) ==> event == TaskEvent::Returned(value),
{
}

/// What a task came to tells how it ended, and nothing is lost of that: a value, a panic
/// with its payload, a cancellation, a failed join with its reason. No other error is
/// ever given for the end of a task, and two tasks that came to the same ended the same.
pub proof fn law_result_tells_how_the_task_ended<T>(
    event: TaskEvent<T>,
    other: TaskEvent<T>,
    value: T,
    text: String,
)
    ensures
        settled(event) == Ok::<T, SpawnError>(value) <==> event == TaskEvent::Returned(value),
        settled(event) == Err::<T, SpawnError>(SpawnError::Panic(text)) <==> event
            == TaskEvent::<T>::Panicked(text),
        settled(event) == Err::<T, SpawnError>(SpawnError::JoinFailed(text)) <==> event
            == TaskEvent::<T>::JoinFailed(text),
        settled(event) == Err::<T, SpawnError>(SpawnError::Cancelled) <==> event is Cancelled,
        settled(event) matches Err(e) ==> !(e is ChannelClosed) && !(e is SemaphoreClosed) && !(
        e is Timeout),
        settled(event) == settled(other) ==> event == other,
{
}

/// The handle on a task brings what the task came to, whatever its channel is given
/// later and whether or not the task was marked as cancelled.
pub proof fn law_handle_brings_what_the_task_came_to<T>(
    handle: HandleState<T>,
    event: TaskEvent<T>,
    later: Channel<T>,
)
    requires
        handle.channel is Waiting,
    ensures
        received(handle.delivered(Channel::Sent(settled(event))).delivered(later).channel)
            == settled(event),
{
}

} // verus!
