//! The ways in which a spawned task comes to no value.
use vstd::prelude::*;

verus! {

/// Why a spawned task has no value to give.
#[derive(Debug, PartialEq, PartialOrd, Eq, Ord)]
pub enum SpawnError {
    /// The thread that ran the task could not be joined.
    JoinFailed(String),
    /// The task panicked.
    Panic(String),
    /// The task's end of the result channel went away without a result.
    ChannelClosed,
    /// The semaphore that bounds a batch was closed.
    SemaphoreClosed,
    /// No result came within the time that was allowed.
    Timeout,
    /// The task was cancelled before it ended.
    Cancelled,
}

impl Clone for SpawnError {
    fn clone(&self) -> (copy: Self)
        ensures
            copy == *self,
    {
        match self {
            SpawnError::JoinFailed(message) => SpawnError::JoinFailed(message.clone()),
            SpawnError::Panic(message) => SpawnError::Panic(message.clone()),
            SpawnError::ChannelClosed => SpawnError::ChannelClosed,
            SpawnError::SemaphoreClosed => SpawnError::SemaphoreClosed,
            SpawnError::Timeout => SpawnError::Timeout,
            SpawnError::Cancelled => SpawnError::Cancelled,
        }
    }
}

} // verus!
