//! What the pool and a scope report of themselves, and how joined results are
//! ordered.
use vstd::prelude::*;

verus! {

/// A fraction `numerator / denominator`, whose denominator is never zero.
///
/// A rate is handed out as a fraction, so that it is exact; whoever shows it
/// divides.
#[derive(Debug, Clone, Copy, PartialEq, Eq, Structural)]
pub struct Ratio {
    pub numerator: usize,
    pub denominator: usize,
}

impl Ratio {
    /// A fraction between zero and one, the bounds included.
    pub open spec fn is_share(self) -> bool {
        0 < self.denominator && self.numerator <= self.denominator
    }
}

/// The share that `part` has of `whole`, or `empty` where the whole is nothing.
pub open spec fn share(part: int, whole: int, empty: Ratio) -> Ratio {
    if whole == 0 {
        empty
    } else {
        Ratio { numerator: part as usize, denominator: whole as usize }
    }
}

/// The fraction that stands for zero.
pub open spec fn zero_ratio() -> Ratio {
    Ratio { numerator: 0, denominator: 1 }
}

/// The fraction that stands for one.
pub open spec fn one_ratio() -> Ratio {
    Ratio { numerator: 1, denominator: 1 }
}

/// The pool's counters at one moment.
#[derive(Debug, Clone, Copy)]
pub struct PoolMetrics {
    /// Tasks of either kind that were spawned and did not end yet.
    pub active_tasks: usize,
    /// Workers that wait for work.
    pub idle_workers: usize,
    /// Tasks that wait in the bounded queue.
    pub queued_tasks: usize,
    /// Blocking tasks that were spawned while metrics were on.
    pub total_spawned: usize,
    /// Blocking tasks that ended with a value.
    pub completed_tasks: usize,
    /// Blocking tasks that ended with an error.
    pub failed_tasks: usize,
}

impl PoolMetrics {
    /// The share of active tasks in active tasks and idle workers together; zero
    /// where there are neither.
    pub fn utilization(&self) -> (r: Ratio)
        requires
            self.active_tasks + self.idle_workers <= usize::MAX,
        ensures
            r == share(
                self.active_tasks as int,
                self.active_tasks + self.idle_workers,
                zero_ratio(),
            ),
            r.is_share(),
            self.active_tasks + self.idle_workers > 0 ==> r.numerator == self.active_tasks
                && r.denominator == self.active_tasks + self.idle_workers,
            self.active_tasks + self.idle_workers == 0 ==> r.numerator == 0,
    {
        if self.active_tasks + self.idle_workers == 0 {
            return Ratio { numerator: 0, denominator: 1 };
        }
        Ratio {
            numerator: self.active_tasks,
            denominator: self.active_tasks + self.idle_workers,
        }
    }

    /// How many tasks wait in the bounded queue, over one.
    pub fn queue_pressure(&self) -> (r: Ratio)
        ensures
            r == (Ratio { numerator: self.queued_tasks, denominator: 1 }),
    {
        Ratio { numerator: self.queued_tasks, denominator: 1 }
    }

    /// The share of tasks that ended with a value in all that ended; one where
    /// none ended.
    pub fn success_rate(&self) -> (r: Ratio)
        requires
            self.completed_tasks + self.failed_tasks <= usize::MAX,
        ensures
            r == share(
                self.completed_tasks as int,
                self.completed_tasks + self.failed_tasks,
                one_ratio(),
            ),
            r.is_share(),
            self.completed_tasks + self.failed_tasks > 0 ==> r.numerator == self.completed_tasks
                && r.denominator == self.completed_tasks + self.failed_tasks,
            self.completed_tasks + self.failed_tasks == 0 ==> r.numerator == r.denominator,
    {
        let total: usize = self.completed_tasks + self.failed_tasks;
        if total == 0 {
            return Ratio { numerator: 1, denominator: 1 };
        }
        Ratio { numerator: self.completed_tasks, denominator: total }
    }
}

/// A scope's counters at one moment.
#[derive(Debug, Clone, Copy)]
pub struct ScopeMetrics {
    /// Tasks that were spawned and did not end yet.
    pub pending: usize,
    /// Tasks that ended with a value.
    pub completed: usize,
    /// Tasks that ended with an error.
    pub failed: usize,
}

impl ScopeMetrics {
    /// All tasks that the counters know of.
    pub fn total(&self) -> (n: usize)
        requires
            self.pending + self.completed + self.failed <= usize::MAX,
        ensures
            n == self.pending + self.completed + self.failed,
    {
        self.pending + self.completed + self.failed
    }

    /// The share of tasks that ended with a value in all that ended; one where
    /// none ended.
    pub fn success_rate(&self) -> (r: Ratio)
        requires
            self.completed + self.failed <= usize::MAX,
        ensures
            r == share(self.completed as int, self.completed + self.failed, one_ratio()),
            r.is_share(),
            self.completed + self.failed > 0 ==> r.numerator == self.completed && r.denominator
                == self.completed + self.failed,
            self.completed + self.failed == 0 ==> r.numerator == r.denominator,
    {
        let finished: usize = self.completed + self.failed;
        if finished == 0 {
            return Ratio { numerator: 1, denominator: 1 };
        }
        Ratio { numerator: self.completed, denominator: finished }
    }
}

/// The order in which joined results are handed out.
#[derive(Debug, Clone, Copy, PartialEq, Eq, Structural)]
pub enum JoinOrdering {
    /// In the order of the handles.
    Ordered,
    /// In the order in which the tasks ended.
    UnOrdered,
}

/// A share of something is to one as the part is to the whole: it is zero for no part,
/// one for the whole, grows with the part, and the shares of two parts that make the
/// whole make one together.
pub proof fn law_share_is_proportional(part: int, other: int, empty: Ratio)
    requires
        0 <= part,
        0 <= other,
        0 < part + other <= usize::MAX,
    ensures
        ({
            let r = share(part, part + other, empty);
            let s = share(other, part + other, empty);
            &&& r.denominator > 0
            &&& r.numerator * (part + other) == part * r.denominator
            &&& r.numerator == 0 <==> part == 0
            &&& r.numerator == r.denominator <==> other == 0
            &&& r.denominator == s.denominator
            &&& r.numerator + s.numerator == r.denominator
            &&& part < other <==> r.numerator < s.numerator
        }),
{
    let whole = part + other;
    let r = share(part, whole, empty);
    assert(r.numerator * whole == part * r.denominator) by (nonlinear_arith)
        requires
            r.numerator == part,
            r.denominator == whole,
    ;
}

/// Of nothing, the share is the one that is given for that: no utilization at all, and
/// full success. Both are fractions of something.
pub proof fn law_share_of_nothing(part: int, empty: Ratio)
    ensures
        share(part, 0, empty) == empty,
        zero_ratio().numerator == 0 && zero_ratio().denominator != 0,
        one_ratio().numerator == one_ratio().denominator && one_ratio().denominator != 0,
{
}

} // verus!
