//! The handle on a spawned task: its cancellation mark, and the receiving end of
//! the channel that brings its result.
use crate::errors::SpawnError;
use crate::result::SpawnResult;
use vstd::prelude::*;

verus! {

/// The channel of a task was closed without a result.
#[derive(Debug)]
pub struct Cancelled;

/// What the receiving end of a task's channel holds.
pub enum Channel<T> {
    /// Nothing yet.
    Waiting,
    /// What the task came to.
    Sent(SpawnResult<T>),
    /// The sending end went away and sent nothing.
    Closed,
}

/// A handle on a task.
pub struct JoinHandle<T> {
    cancelled: bool,
    channel: Channel<T>,
}

/// The state of a handle.
pub struct HandleState<T> {
    /// The task is marked as cancelled.
    pub cancelled: bool,
    /// What the receiving end holds.
    pub channel: Channel<T>,
}

impl<T> HandleState<T> {
    /// After the sending end spoke. Only the first time counts.
    pub open spec fn delivered(self, message: Channel<T>) -> HandleState<T> {
        if self.channel is Waiting {
            HandleState { channel: message, ..self }
        } else {
            self
        }
    }
}

impl<T> View for JoinHandle<T> {
    type V = HandleState<T>;

    closed spec fn view(&self) -> HandleState<T> {
        HandleState { cancelled: self.cancelled, channel: self.channel }
    }
}

/// What a task came to, by what its channel holds in the end. A closed channel
/// counts as an error of its own.
pub open spec fn received<T>(channel: Channel<T>) -> SpawnResult<T> {
    match channel {
        Channel::Sent(result) => result,
        _ => Err(SpawnError::ChannelClosed),
    }
}

impl<T> JoinHandle<T> {
    /// A handle with the given mark and channel.
    pub fn new(cancelled: bool, channel: Channel<T>) -> (handle: Self)
        ensures
            handle@ == (HandleState { cancelled, channel }),
    {
        JoinHandle { cancelled, channel }
    }

    /// Marks the task as cancelled, for good.
    #[inline]
    pub fn cancel(&mut self)
        ensures
            final(self)@ == (HandleState { cancelled: true, ..old(self)@ }),
    {
        self.cancelled = true;
    }

    /// Whether the task is marked as cancelled.
    #[inline]
    pub fn is_cancelled(&self) -> (r: bool)
        ensures
            r == self@.cancelled,
    {
        self.cancelled
    }

    /// Whether the channel still waits.
    pub fn is_waiting(&self) -> (r: bool)
        ensures
            r == (self@.channel is Waiting),
    {
        match self.channel {
            Channel::Waiting => true,
            _ => false,
        }
    }

    /// The sending end spoke, by a result or by going away. Only the first time
    /// counts: a channel carries one message.
    pub fn deliver(&mut self, message: Channel<T>)
        ensures
            final(self)@ == old(self)@.delivered(message),
    {
        match self.channel {
            Channel::Waiting => {
                self.channel = message;
            },
            _ => {},
        }
    }

    /// What the task came to, or the handle itself while its channel waits.
    pub fn poll(self) -> (r: Result<SpawnResult<T>, JoinHandle<T>>)
        ensures
            match r {
                Ok(result) => !(self@.channel is Waiting) && result == received(self@.channel),
                Err(handle) => self@.channel is Waiting && handle@ == self@,
            },
    {
        match self.channel {
            Channel::Waiting => Err(self),
            Channel::Sent(result) => Ok(result),
            Channel::Closed => Ok(Err(SpawnError::ChannelClosed)),
        }
    }

    /// What the task came to, once its channel waits no longer; an error of its own
    /// where the channel was closed.
    #[inline(always)]
    pub fn await_result(self) -> (r: Result<SpawnResult<T>, Cancelled>)
        requires
            !(self@.channel is Waiting),
        ensures
            match self@.channel {
                Channel::Sent(result) => r == Ok::<SpawnResult<T>, Cancelled>(result),
                _ => r is Err,
            },
    {
        match self.channel {
            Channel::Sent(result) => Ok(result),
            _ => Err(Cancelled),
        }
    }

    /// What the task came to, asked when its channel waits no longer or when the
    /// time is up: a timeout where nothing has come.
    pub fn await_timeout(self) -> (result: SpawnResult<T>)
        ensures
            result == match self@.channel {
                Channel::Sent(result) => result,
                Channel::Closed => Err(SpawnError::ChannelClosed),
                Channel::Waiting => Err(SpawnError::Timeout),
            },
    {
        match self.channel {
            Channel::Sent(result) => result,
            Channel::Closed => Err(SpawnError::ChannelClosed),
            Channel::Waiting => Err(SpawnError::Timeout),
        }
    }
}

/// The receiving end of a channel gives what was sent, or the error that stands for a
/// channel that was closed.
pub proof fn law_channel_gives_what_was_sent<T>(result: SpawnResult<T>)
    ensures
        received(Channel::Sent(result)) == result,
        received(Channel::<T>::Closed) == Err::<T, SpawnError>(SpawnError::ChannelClosed),
{
}

/// The first message stays, whatever comes after it, and no message touches the mark that
/// the task is cancelled.
pub proof fn law_first_message_stays<T>(
    handle: HandleState<T>,
    message: Channel<T>,
    later: Channel<T>,
)
    ensures
        handle.channel is Waiting ==> handle.delivered(message).channel == message,
        !(handle.channel is Waiting) ==> handle.delivered(message) == handle,
        !(message is Waiting) ==> handle.delivered(message).delivered(later) == handle.delivered(
            message,
        ),
        handle.delivered(message).cancelled == handle.cancelled,
{
}

} // verus!
