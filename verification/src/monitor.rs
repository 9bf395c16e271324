//! Watching counters at regular times.
use crate::config::Timeout;
use vstd::prelude::*;

verus! {

/// A watch on counters.
pub struct Monitor {
    interval: Timeout,
    stopped: bool,
}

/// The state of a watch.
pub struct MonitorState {
    /// The time from one look to the next.
    pub interval: Timeout,
    /// The watch is over.
    pub stopped: bool,
}

impl View for Monitor {
    type V = MonitorState;

    closed spec fn view(&self) -> MonitorState {
        MonitorState { interval: self.interval, stopped: self.stopped }
    }
}

impl Monitor {
    /// Begins to watch.
    pub fn start(interval: Timeout) -> (monitor: Monitor)
        ensures
            monitor@ == (MonitorState { interval, stopped: false }),
    {
        Monitor { interval, stopped: false }
    }

    /// Ends the watch, for good.
    pub fn stop(&mut self)
        ensures
            final(self)@ == (MonitorState { stopped: true, ..old(self)@ }),
    {
        self.stopped = true;
    }

    /// The time from one look to the next.
    pub fn interval(&self) -> (interval: Timeout)
        ensures
            interval == self@.interval,
    {
        self.interval
    }

    /// Whether the watch is over.
    pub fn is_stopped(&self) -> (r: bool)
        ensures
            r == self@.stopped,
    {
        self.stopped
    }
}

} // verus!
