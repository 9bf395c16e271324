//! What one worker of the pool remembers from one turn of its loop to the next.
use vstd::prelude::*;

verus! {

/// The number of ended tasks after which a busy worker looks whether the pool was
/// cancelled.
pub const BATCH_SIZE: usize = 16;

/// Where a worker stands in its loop.
#[derive(Debug, Clone, Copy, PartialEq, Eq, Structural)]
pub enum WorkerPhase {
    /// Not started yet.
    Starting,
    /// Searching the queues next.
    Searching,
    /// Waiting for the named task to report how it ended.
    Running(u64),
    /// Done with the named task, which has reported, but for its end.
    Delivered(u64),
    /// Waiting for a notification or for the pool's cancellation.
    Parked,
    /// Out of its loop.
    Stopped,
}

/// What a worker does after a search of the queues.
#[derive(Debug, Clone, Copy, PartialEq, Eq, Structural)]
pub enum WorkerAction {
    /// Run the named task, report how it ended, then that it did.
    Run(u64),
    /// Look again at once: a queue that gave nothing holds tasks.
    Retry,
    /// Wait for a notification or for the pool's cancellation.
    Park,
    /// Leave the loop.
    Stop,
}

/// What a try at an overflow queue brought.
#[derive(Debug, Clone, Copy, PartialEq, Eq, Structural)]
pub enum Overflow {
    /// The oldest task of the queue.
    Task(u64),
    /// The queue holds no task.
    Empty,
    /// The queue holds tasks and gave none this time.
    Busy,
}

/// The state of one worker.
#[derive(Debug, Clone, Copy, PartialEq, Eq, Structural)]
pub struct WorkerState {
    /// Where the worker stands.
    pub phase: WorkerPhase,
    /// Tasks that ended since the worker last looked for a cancellation.
    pub completed_batch: usize,
    /// Searches in a row that ended with nothing to steal.
    pub steal_attempts: u32,
    /// The state of the worker's random numbers.
    pub random: u64,
}

impl WorkerState {
    /// What holds of a worker at every moment: a worker that is about to search or
    /// has found a task has no failed search behind it, and a worker with a task has
    /// not used up its batch.
    pub open spec fn wf(self) -> bool {
        &&& self.completed_batch <= BATCH_SIZE
        &&& self.phase is Running || self.phase is Delivered ==> self.completed_batch
            < BATCH_SIZE
        &&& !(self.phase is Parked || self.phase is Stopped) ==> self.steal_attempts == 0
        &&& self.steal_attempts <= 1
    }

    /// The worker at the point where it looks for a task, its batch begun anew
    /// where it was used up.
    pub open spec fn with_fresh_batch(self) -> WorkerState {
        if self.completed_batch >= BATCH_SIZE {
            WorkerState { completed_batch: 0, ..self }
        } else {
            self
        }
    }
}

/// How many times a search draws another worker at random, given the failed searches
/// before it.
pub open spec fn steal_budget(steal_attempts: u32) -> nat {
    if steal_attempts < 5 {
        2
    } else if steal_attempts < 20 {
        1
    } else {
        0
    }
}

/// The random number that follows `state`: three xor-shift steps.
pub open spec fn next_random(state: u64) -> u64 {
    let a = state ^ (state << 13);
    let b = a ^ (a >> 7);
    b ^ (b << 17)
}

/// The worker that a random number points at.
pub open spec fn steal_target(random: u64, workers: nat) -> int {
    (random as usize) as int % workers as int
}

/// How many times a search draws another worker at random.
pub fn max_attempts(steal_attempts: u32) -> (n: usize)
    ensures
        n == steal_budget(steal_attempts),
{
    if steal_attempts < 5 {
        2
    } else if steal_attempts < 20 {
        1
    } else {
        0
    }
}

/// The random number that follows `state`.
pub fn advance_random(state: u64) -> (r: u64)
    ensures
        r == next_random(state),
{
    let a: u64 = state ^ (state << 13);
    let b: u64 = a ^ (a >> 7);
    b ^ (b << 17)
}

/// The worker that a random number points at, among `workers`.
pub fn target_of(random: u64, workers: usize) -> (target: usize)
    requires
        0 < workers,
    ensures
        target == steal_target(random, workers as nat),
        target < workers,
{
    (random as usize) % workers
}

impl WorkerState {
    /// A worker before its loop.
    pub fn new() -> (w: WorkerState)
        ensures
            w == (WorkerState {
                phase: WorkerPhase::Starting,
                completed_batch: 0,
                steal_attempts: 0,
                random: 0,
            }),
            w.wf(),
    {
        WorkerState {
            phase: WorkerPhase::Starting,
            completed_batch: 0,
            steal_attempts: 0,
            random: 0,
        }
    }
}

/// The random numbers never get stuck: no state but zero leads to zero, so a
/// worker whose seed is not zero goes on choosing among the others.
pub proof fn law_random_stays_nonzero(state: u64)
    requires
        state != 0,
    ensures
        next_random(state) != 0,
{
    assert(state != 0 ==> (state ^ (state << 13)) != 0) by (bit_vector);
    let a = state ^ (state << 13);
    assert(a != 0 ==> (a ^ (a >> 7)) != 0) by (bit_vector);
    let b = a ^ (a >> 7);
    assert(b != 0 ==> (b ^ (b << 17)) != 0) by (bit_vector);
}

/// Each random number can be undone: shifted over itself again and again it gives the
/// state that it followed. So no two states lead to the same number.
pub proof fn law_random_can_be_undone(state: u64)
    ensures
        ({
            let r = next_random(state);
            let b = r ^ (r << 17) ^ (r << 34) ^ (r << 51);
            let a = b ^ (b >> 7) ^ (b >> 14) ^ (b >> 21) ^ (b >> 28) ^ (b >> 35) ^ (b >> 42) ^ (b
                >> 49) ^ (b >> 56) ^ (b >> 63);
            state == a ^ (a << 13) ^ (a << 26) ^ (a << 39) ^ (a << 52)
        }),
{
    let a = state ^ (state << 13);
    let b = a ^ (a >> 7);
    let r = b ^ (b << 17);
    assert(b == r ^ (r << 17) ^ (r << 34) ^ (r << 51)) by (bit_vector)
        requires
            r == b ^ (b << 17),
    ;
    assert(a == b ^ (b >> 7) ^ (b >> 14) ^ (b >> 21) ^ (b >> 28) ^ (b >> 35) ^ (b >> 42) ^ (b
        >> 49) ^ (b >> 56) ^ (b >> 63)) by (bit_vector)
        requires
            b == a ^ (a >> 7),
    ;
    assert(state == a ^ (a << 13) ^ (a << 26) ^ (a << 39) ^ (a << 52)) by (bit_vector)
        requires
            a == state ^ (state << 13),
    ;
}

/// A random number points at a worker that there is, and at the same one as any other
/// that differs from it by a multiple of the number of workers.
pub proof fn law_target_is_a_remainder(random: u64, workers: nat)
    requires
        0 < workers,
    ensures
        0 <= steal_target(random, workers) < workers,
        exists|turns: int|
            0 <= turns && (random as usize) == #[trigger] (turns * workers) + steal_target(
                random,
                workers,
            ),
{
    let number = (random as usize) as int;
    vstd::arithmetic::div_mod::lemma_fundamental_div_mod(number, workers as int);
    vstd::arithmetic::div_mod::lemma_mod_bound(number, workers as int);
    vstd::arithmetic::div_mod::lemma_div_pos_is_pos(number, workers as int);
    let turns = number / workers as int;
    assert(turns * workers == workers * turns) by (nonlinear_arith);
    assert(number == (turns * workers) + steal_target(random, workers));
}

/// A worker draws twice while fewer than five searches in a row have failed, once while
/// fewer than twenty have, and then not at all.
pub proof fn law_draws_get_fewer(steal_attempts: u32)
    ensures
        steal_budget(steal_attempts) == 2 <==> steal_attempts < 5,
        steal_budget(steal_attempts) == 1 <==> 5 <= steal_attempts < 20,
        steal_budget(steal_attempts) == 0 <==> 20 <= steal_attempts,
{
}

/// A batch is sixteen tasks: a worker that has ended as many begins a new one, and any
/// other goes on with the one that it has. Nothing else of the worker changes.
pub proof fn law_batch_is_sixteen_tasks(worker: WorkerState)
    ensures
        BATCH_SIZE == 16,
        worker.with_fresh_batch().completed_batch == if worker.completed_batch < 16 {
            worker.completed_batch as int
        } else {
            0
        },
        worker.with_fresh_batch() == (WorkerState {
            completed_batch: worker.with_fresh_batch().completed_batch,
            ..worker
        }),
{
}

} // verus!
