//! The pool: workers that run blocking tasks, and the limit on asynchronous ones.
//!
//! The pool decides; it does not wait. Whoever drives it performs what a method
//! asks for (run a task, wait for a notification, notify) and reports back what
//! happened. A method runs from start to end on a pool that nobody else uses
//! meanwhile.
use crate::bags::lemma_tally_none;
use crate::config::{queue_capacity, DEFAULT_CAPACITY};
use crate::model::PoolMetrics;
use crate::queues::{
    bounded_capacity, bounded_is_empty, bounded_len, bounded_new, bounded_pop, bounded_push,
    bounded_tasks, injected_tasks, injector_is_empty, injector_new, injector_push, injector_steal,
    local_is_empty, local_is_fifo, local_new, local_pop, local_steal, local_tasks,
};
use crate::pool_laws::{law_victim_is_found, lemma_worker_replaced};
use crate::state::{is_parked, PoolState};
use crate::worker::{
    advance_random, max_attempts, target_of, Overflow, WorkerAction, WorkerPhase, WorkerState,
    BATCH_SIZE,
};
use crossbeam::deque::{Injector, Worker};
use crossbeam::queue::ArrayQueue;
use std::collections::VecDeque;
use vstd::prelude::*;

pub use crate::config::{Config, Timeout};
pub use crate::scope::Scope;

verus! {

/// A place for what is seldom reached.
fn cold() {
}

/// Hands `b` back; its callers expect it to be false.
#[inline(always)]
pub fn unlikely(b: bool) -> (r: bool)
    ensures
        r == b,
{
    if !b {
        cold()
    }
    b
}

/// The pool.
pub struct ThreadPoolInner {
    global_queue: ArrayQueue<u64>,
    local_queues: Vec<Injector<u64>>,
    locals: Vec<Worker<u64>>,
    workers: Vec<WorkerState>,
    next_worker: usize,
    next_task: u64,
    cancelled: bool,
    in_progress: usize,
    waiting: VecDeque<u64>,
    active_spawned_tasks: usize,
    total_spawned: usize,
    completed_tasks: usize,
    failed_tasks: usize,
    idle_workers: usize,
    queued_tasks: usize,
    config: Config,
}

impl View for ThreadPoolInner {
    type V = PoolState;

    closed spec fn view(&self) -> PoolState {
        PoolState {
            config: self.config,
            global: bounded_tasks(self.global_queue),
            injectors: self.local_queues@.map_values(|q: Injector<u64>| injected_tasks(q)),
            locals: self.locals@.map_values(|q: Worker<u64>| local_tasks(q)),
            workers: self.workers@,
            next_worker: self.next_worker,
            next_task: self.next_task,
            cancelled: self.cancelled,
            in_progress: self.in_progress,
            waiting: self.waiting@,
            active: self.active_spawned_tasks,
            total_spawned: self.total_spawned,
            completed: self.completed_tasks,
            failed: self.failed_tasks,
            idle: self.idle_workers,
            queued: self.queued_tasks,
        }
    }
}

impl ThreadPoolInner {
    /// The queues are of the kind that the pool makes: the bounded queue has the
    /// configured capacity, and every deque is first-in first-out.
    pub closed spec fn queues_made(&self) -> bool {
        &&& bounded_capacity(self.global_queue) == queue_capacity(self.config)
        &&& forall|i: int| 0 <= i < self.locals.len() ==> local_is_fifo(#[trigger] self.locals@[i])
    }

    /// What holds of a pool at every moment.
    pub open spec fn wf(&self) -> bool {
        self@.wf() && self.queues_made()
    }

    /// Takes in a task. The answer tells whether a waiting worker is to be notified:
    /// where any waits. No task is ever handed back.
    fn push_task(&mut self, task: u64) -> (r: Result<bool, u64>)
        requires
            old(self).wf(),
            old(self)@.can_take(1),
        ensures
            final(self).wf(),
            final(self)@ == old(self)@.pushed(task),
            r == Ok::<bool, u64>(old(self)@.idle > 0),
    {
        match bounded_push(&mut self.global_queue, task) {
            Ok(_) => {
                self.queued_tasks = self.queued_tasks + 1;
                Ok(unlikely(self.idle_workers > 0))
            },
            Err(task) => {
                let worker_id: usize = self.next_worker % self.local_queues.len();
                self.next_worker = self.next_worker.wrapping_add(1);
                injector_push(&mut self.local_queues[worker_id], task);
                proof {
                    assert(self@.injectors =~= old(self)@.injectors.update(
                        worker_id as int,
                        old(self)@.injectors[worker_id as int].push(task),
                    ));
                }
                Ok(unlikely(self.idle_workers > 0))
            },
        }
    }

    /// Makes a pool; none of its workers has started.
    ///
    /// The bounded queue takes `max_pending` tasks, or ten thousand where no limit
    /// is set. It must have room for at least one, and fit in memory. No more than
    /// `max_pending` asynchronous tasks are in progress at a time.
    pub fn with_config(config: Config) -> (pool: ThreadPoolInner)
        requires
            0 < queue_capacity(config),
            16 * queue_capacity(config) <= isize::MAX,
        ensures
            pool.wf(),
            pool@ == PoolState::initial(config),
    {
        let capacity: usize = config.max_pending.unwrap_or(DEFAULT_CAPACITY);
        let global_queue = bounded_new(capacity);
        let mut local_queues: Vec<Injector<u64>> = Vec::new();
        let mut locals: Vec<Worker<u64>> = Vec::new();
        let mut workers: Vec<WorkerState> = Vec::new();
        let mut i: usize = 0;
        while i < config.num_threads
            invariant
                i <= config.num_threads,
                local_queues.len() == i,
                locals.len() == i,
                workers.len() == i,
                forall|j: int|
                    0 <= j < i ==> injected_tasks(#[trigger] local_queues@[j]) == Seq::<u64>::empty(),
                forall|j: int|
                    0 <= j < i ==> local_tasks(#[trigger] locals@[j]) == Seq::<u64>::empty()
                        && local_is_fifo(locals@[j]),
                forall|j: int|
                    0 <= j < i ==> #[trigger] workers@[j] == PoolState::initial(config).workers[j],
                forall|j: int| 0 <= j < i ==> (#[trigger] workers@[j]).wf(),
            decreases config.num_threads - i,
        {
            local_queues.push(injector_new());
            locals.push(local_new());
            workers.push(WorkerState::new());
            i = i + 1;
        }
        let pool = ThreadPoolInner {
            global_queue,
            local_queues,
            locals,
            workers,
            next_worker: 0,
            next_task: 0,
            cancelled: false,
            in_progress: 0,
            waiting: VecDeque::new(),
            active_spawned_tasks: 0,
            total_spawned: 0,
            completed_tasks: 0,
            failed_tasks: 0,
            idle_workers: 0,
            queued_tasks: 0,
            config,
        };
        proof {
            let initial = PoolState::initial(config);
            assert(pool@.injectors =~= initial.injectors);
            assert(pool@.locals =~= initial.locals);
            assert(pool@.workers =~= initial.workers);
            lemma_tally_none(pool@.workers, is_parked());
            assert(pool@ =~= initial);
        }
        pool
    }

    /// Makes a pool of `num_threads` workers with the given room in the bounded
    /// queue, and everything else as by default.
    pub fn new(num_threads: usize, max_pending: Option<usize>) -> (pool: ThreadPoolInner)
        requires
            max_pending matches Some(limit) ==> 0 < limit && 16 * limit <= isize::MAX,
        ensures
            pool.wf(),
            pool@ == PoolState::initial(
                Config {
                    num_threads,
                    max_pending,
                    enable_work_stealing: true,
                    task_timeout: Some(Timeout { secs: 30, nanos: 0 }),
                    enable_metrics: true,
                },
            ),
    {
        let config = Config { num_threads, max_pending, ..Config::default() };
        Self::with_config(config)
    }

    /// The configuration that the pool was made with.
    pub fn ref_config(&self) -> (config: &Config)
        ensures
            *config == self@.config,
    {
        &self.config
    }

    /// Begins the loop of a worker, its random numbers seeded with `seed`.
    pub fn start_worker(&mut self, worker_id: usize, seed: u64)
        requires
            old(self).wf(),
            worker_id < old(self)@.workers.len(),
            old(self)@.workers[worker_id as int].phase is Starting,
        ensures
            final(self).wf(),
            final(self)@ == old(self)@.started(worker_id as int, seed),
    {
        proof {
            assert(self@.workers[worker_id as int].wf());
        }
        let mut w: WorkerState = self.workers[worker_id];
        w.phase = WorkerPhase::Searching;
        w.random = seed;
        self.workers.set(worker_id, w);
        proof {
            lemma_worker_replaced(old(self)@, worker_id as int, w, self@.idle);
            assert(self@ =~= old(self)@.started(worker_id as int, seed));
        }
    }

    /// Whether the deque or the overflow queue of a worker holds a task.
    fn has_tasks(&mut self, worker_id: usize) -> (r: bool)
        requires
            old(self).wf(),
            worker_id < old(self)@.workers.len(),
        ensures
            final(self).wf(),
            final(self)@ == old(self)@,
            r == old(self)@.has_tasks(worker_id as int),
    {
        let local = !local_is_empty(&mut self.locals[worker_id]);
        let injected = !injector_is_empty(&mut self.local_queues[worker_id]);
        proof {
            assert(self@.locals =~= old(self)@.locals);
            assert(self@.injectors =~= old(self)@.injectors);
            assert(self@ =~= old(self)@);
        }
        local || injected
    }

    /// Looks for another worker that has tasks: some drawn at random first, then all
    /// of them in turn.
    fn find_victim(&mut self, worker_id: usize) -> (r: Option<usize>)
        requires
            old(self).wf(),
            worker_id < old(self)@.workers.len(),
            old(self)@.workers[worker_id as int].phase is Searching,
        ensures
            final(self).wf(),
            final(self)@ == old(self)@.looked(worker_id as int),
            match r {
                Some(v) => old(self)@.victim(worker_id as int) == Some(v as int),
                None => old(self)@.victim(worker_id as int) is None,
            },
    {
        let ghost pre = self@;
        let ghost id = worker_id as int;
        proof {
            assert(pre.workers[id].wf());
        }
        let num_workers: usize = self.local_queues.len();
        if !self.config.enable_work_stealing || num_workers <= 1 {
            return None;
        }
        let mut w: WorkerState = self.workers[worker_id];
        let attempts: usize = max_attempts(w.steal_attempts);
        let ghost seed = w.random;
        let mut i: usize = 0;
        let mut drawn: Option<usize> = None;
        while i < attempts && drawn.is_none()
            invariant
                i <= attempts,
                num_workers == pre.workers.len(),
                num_workers > 1,
                self.wf(),
                self@ == pre,
                w == (WorkerState { random: w.random, ..pre.workers[id] }),
                match drawn {
                    Some(v) => v < num_workers && pre.drawn(id, seed, attempts as nat) == (
                        w.random,
                        Some(v as int),
                    ),
                    None => pre.drawn(id, seed, attempts as nat) == pre.drawn(
                        id,
                        w.random,
                        (attempts - i) as nat,
                    ),
                },
                id == worker_id,
            decreases attempts - i,
        {
            w.random = advance_random(w.random);
            let target_id: usize = target_of(w.random, num_workers);
            if target_id != worker_id && self.has_tasks(target_id) {
                drawn = Some(target_id);
            }
            i = i + 1;
        }
        self.workers.set(worker_id, w);
        proof {
            lemma_worker_replaced(pre, id, w, pre.idle);
            assert(self@ =~= pre.looked(id));
        }
        if drawn.is_some() {
            return drawn;
        }
        let mut v: usize = 0;
        while v < num_workers
            invariant
                v <= num_workers,
                num_workers == self@.workers.len(),
                num_workers == pre.workers.len(),
                pre == old(self)@,
                self.wf(),
                self@ == pre.looked(id),
                pre.next_victim(id, 0) == pre.next_victim(id, v as int),
                pre.victim(id) == pre.next_victim(id, 0),
                id == worker_id,
            decreases num_workers - v,
        {
            if v != worker_id && self.has_tasks(v) {
                return Some(v);
            }
            v = v + 1;
        }
        None
    }

    /// What a worker does once its try at another worker's overflow queue brought
    /// `overflow`: it runs the task, or looks again.
    pub fn settle_steal(&mut self, worker_id: usize, overflow: Overflow) -> (action: WorkerAction)
        requires
            old(self).wf(),
            worker_id < old(self)@.workers.len(),
            old(self)@.workers[worker_id as int].phase is Searching,
            old(self)@.workers[worker_id as int].completed_batch < BATCH_SIZE,
        ensures
            final(self).wf(),
            action == PoolState::steal_action(overflow),
            final(self)@ == old(self)@.steal_settled(worker_id as int, overflow),
    {
        match overflow {
            Overflow::Task(task) => {
                self.run(worker_id, task);
                WorkerAction::Run(task)
            },
            _ => WorkerAction::Retry,
        }
    }

    /// A searching worker runs a task.
    fn run(&mut self, worker_id: usize, task: u64)
        requires
            old(self).wf(),
            worker_id < old(self)@.workers.len(),
            old(self)@.workers[worker_id as int].phase is Searching,
            old(self)@.workers[worker_id as int].completed_batch < BATCH_SIZE,
        ensures
            final(self).wf(),
            final(self)@ == old(self)@.runs(worker_id as int, task),
    {
        let ghost pre = self@;
        let ghost id = worker_id as int;
        proof {
            assert(pre.workers[id].wf());
        }
        let mut w: WorkerState = self.workers[worker_id];
        w.phase = WorkerPhase::Running(task);
        self.workers.set(worker_id, w);
        proof {
            lemma_worker_replaced(pre, id, w, pre.idle);
            assert(self@ =~= pre.runs(id, task));
        }
    }

    /// Steals from a worker that has tasks: the oldest of its deque, or else of its
    /// overflow queue.
    fn steal_from(&mut self, worker_id: usize, victim: usize) -> (action: WorkerAction)
        requires
            old(self).wf(),
            worker_id < old(self)@.workers.len(),
            victim < old(self)@.workers.len(),
            old(self)@.workers[worker_id as int].phase is Searching,
            old(self)@.workers[worker_id as int].completed_batch < BATCH_SIZE,
        ensures
            final(self).wf(),
            old(self)@.steals_from(final(self)@, worker_id as int, victim as int, action),
    {
        let ghost pre = self@;
        let ghost id = worker_id as int;
        let ghost v = victim as int;
        let stolen = local_steal(&mut self.locals[victim]);
        if let Some(task) = stolen {
            proof {
                assert(self@.locals =~= pre.locals.update(v, pre.locals[v].drop_first()));
                assert(self@ =~= (PoolState { locals: self@.locals, ..pre }));
            }
            self.run(worker_id, task);
            return WorkerAction::Run(task);
        }
        proof {
            assert(self@.locals =~= pre.locals);
            assert(self@ =~= pre);
        }
        let overflow = injector_steal(&mut self.local_queues[victim]);
        proof {
            assert(pre.overflow_may_bring(v, overflow));
            assert(self@.injectors =~= pre.after_overflow(v, overflow).injectors);
            assert(self@ =~= pre.after_overflow(v, overflow));
        }
        self.settle_steal(worker_id, overflow)
    }

    /// What a searching worker does once the try at its own overflow queue brought
    /// `overflow`.
    ///
    /// A task from there is run, and the bounded queue stays as it is. Else the oldest
    /// task of the bounded queue is run. Else the worker steals, where it may and another
    /// has tasks. Else it is counted as idle and parks, unless one of its own queues has
    /// a task after all: then it looks again.
    pub fn settle_search(&mut self, worker_id: usize, overflow: Overflow) -> (action: WorkerAction)
        requires
            old(self).wf(),
            worker_id < old(self)@.workers.len(),
            old(self)@.workers[worker_id as int].phase is Searching,
            old(self)@.workers[worker_id as int].completed_batch < BATCH_SIZE,
        ensures
            final(self).wf(),
            old(self)@.searched(final(self)@, worker_id as int, overflow, action),
    {
        let ghost pre = self@;
        let ghost id = worker_id as int;
        proof {
            assert(pre.workers[id].wf());
        }
        if let Overflow::Task(task) = overflow {
            self.run(worker_id, task);
            return WorkerAction::Run(task);
        }
        let shared = bounded_pop(&mut self.global_queue);
        if let Some(task) = shared {
            self.queued_tasks = self.queued_tasks - 1;
            self.run(worker_id, task);
            return WorkerAction::Run(task);
        }
        proof {
            assert(self@ =~= pre);
        }
        proof {
            law_victim_is_found(pre, id);
        }
        let victim = self.find_victim(worker_id);
        if let Some(v) = victim {
            return self.steal_from(worker_id, v);
        }
        let ghost looked = self@;
        proof {
            lemma_worker_replaced(looked, id, looked.workers[id], looked.idle);
        }
        let busy = match overflow {
            Overflow::Busy => true,
            _ => false,
        };
        if busy || self.has_tasks(worker_id) || !bounded_is_empty(&mut self.global_queue) {
            return WorkerAction::Retry;
        }
        let mut w: WorkerState = self.workers[worker_id];
        w.phase = WorkerPhase::Parked;
        if self.config.enable_work_stealing && self.local_queues.len() > 1 {
            w.steal_attempts = w.steal_attempts + 1;
        }
        self.workers.set(worker_id, w);
        self.idle_workers = self.idle_workers.wrapping_add(1);
        proof {
            lemma_worker_replaced(looked, id, w, (looked.idle + 1) as usize);
            assert(self@ =~= looked.rests(id));
        }
        WorkerAction::Park
    }

    /// One turn of a worker's loop, from where it searches to where it has to wait.
    ///
    /// A worker that has finished a batch of tasks leaves if the pool was cancelled.
    /// Else it looks for a task: first in its own deque, then in its overflow queue,
    /// then in the bounded queue, at last in the queues of others.
    pub fn worker_loop(&mut self, worker_id: usize) -> (action: WorkerAction)
        requires
            old(self).wf(),
            worker_id < old(self)@.workers.len(),
            old(self)@.workers[worker_id as int].phase is Searching,
        ensures
            final(self).wf(),
            old(self)@.turn(final(self)@, worker_id as int, action),
    {
        let ghost pre = self@;
        let ghost id = worker_id as int;
        proof {
            assert(pre.workers[id].wf());
        }
        let mut w: WorkerState = self.workers[worker_id];
        if w.completed_batch >= BATCH_SIZE {
            if self.cancelled {
                w.phase = WorkerPhase::Stopped;
                self.workers.set(worker_id, w);
                proof {
                    lemma_worker_replaced(pre, id, w, pre.idle);
                    assert(self@ =~= pre.with_worker(id, w));
                }
                return WorkerAction::Stop;
            }
            w.completed_batch = 0;
        }
        self.workers.set(worker_id, w);
        let ghost fresh = self@;
        proof {
            lemma_worker_replaced(pre, id, w, pre.idle);
            assert(fresh =~= pre.with_fresh_batch(id));
        }
        let own = local_pop(&mut self.locals[worker_id]);
        if let Some(task) = own {
            proof {
                assert(self@.locals =~= fresh.locals.update(id, fresh.locals[id].drop_first()));
                assert(self@ =~= (PoolState { locals: self@.locals, ..fresh }));
            }
            self.run(worker_id, task);
            return WorkerAction::Run(task);
        }
        proof {
            assert(self@.locals =~= fresh.locals);
            assert(self@ =~= fresh);
        }
        let overflow = injector_steal(&mut self.local_queues[worker_id]);
        proof {
            assert(pre.overflow_may_bring(id, overflow));
            assert(self@.injectors =~= fresh.after_overflow(id, overflow).injectors);
            assert(self@ =~= fresh.after_overflow(id, overflow));
        }
        self.settle_search(worker_id, overflow)
    }

    /// The task of a worker ended, after its report. The answer tells whether everybody who waits for
    /// the pool to fall idle is to be notified: where it was the last active task.
    pub fn task_ended(&mut self, worker_id: usize) -> (notify: bool)
        requires
            old(self).wf(),
            worker_id < old(self)@.workers.len(),
            old(self)@.workers[worker_id as int].phase is Delivered,
        ensures
            final(self).wf(),
            final(self)@ == old(self)@.retired(worker_id as int),
            notify == (old(self)@.active == 1),
    {
        let ghost pre = self@;
        let ghost id = worker_id as int;
        proof {
            assert(pre.workers[id].wf());
        }
        let mut w: WorkerState = self.workers[worker_id];
        w.phase = WorkerPhase::Searching;
        w.completed_batch = w.completed_batch + 1;
        w.steal_attempts = 0;
        self.workers.set(worker_id, w);
        let prev: usize = self.active_spawned_tasks;
        self.active_spawned_tasks = prev.wrapping_sub(1);
        proof {
            lemma_worker_replaced(pre, id, w, pre.idle);
            assert(self@ =~= pre.retired(id));
        }
        unlikely(prev == 1) && self.active_spawned_tasks == 0
    }

    /// A parked worker was notified.
    pub fn worker_notified(&mut self, worker_id: usize)
        requires
            old(self).wf(),
            worker_id < old(self)@.workers.len(),
            old(self)@.workers[worker_id as int].phase is Parked,
        ensures
            final(self).wf(),
            final(self)@ == old(self)@.woken(worker_id as int),
    {
        let ghost pre = self@;
        let ghost id = worker_id as int;
        let mut w: WorkerState = self.workers[worker_id];
        w.phase = WorkerPhase::Searching;
        w.steal_attempts = 0;
        w.completed_batch = 0;
        proof {
            lemma_worker_replaced(pre, id, pre.workers[id], pre.idle);
        }
        self.workers.set(worker_id, w);
        self.idle_workers = self.idle_workers.wrapping_sub(1);
        proof {
            lemma_worker_replaced(pre, id, w, (pre.idle - 1) as usize);
            assert(self@ =~= pre.woken(id));
        }
    }

    /// A parked worker saw the pool's cancellation, and leaves its loop.
    pub fn worker_cancelled(&mut self, worker_id: usize)
        requires
            old(self).wf(),
            worker_id < old(self)@.workers.len(),
            old(self)@.workers[worker_id as int].phase is Parked,
            old(self)@.cancelled,
        ensures
            final(self).wf(),
            final(self)@ == old(self)@.left(worker_id as int),
    {
        let ghost pre = self@;
        let ghost id = worker_id as int;
        proof {
            assert(pre.workers[id].wf());
        }
        let mut w: WorkerState = self.workers[worker_id];
        w.phase = WorkerPhase::Stopped;
        proof {
            lemma_worker_replaced(pre, id, pre.workers[id], pre.idle);
        }
        self.workers.set(worker_id, w);
        self.idle_workers = self.idle_workers.wrapping_sub(1);
        proof {
            lemma_worker_replaced(pre, id, w, (pre.idle - 1) as usize);
            assert(self@ =~= pre.left(id));
        }
    }

    /// Where a worker stands in its loop; nothing where there is no such worker.
    pub fn worker_phase(&self, worker_id: usize) -> (phase: Option<WorkerPhase>)
        ensures
            phase == if worker_id < self@.workers.len() {
                Some(self@.workers[worker_id as int].phase)
            } else {
                None
            },
    {
        if worker_id < self.workers.len() {
            Some(self.workers[worker_id].phase)
        } else {
            None
        }
    }

    /// Whether the pool has a place for `n` more tasks.
    pub fn can_take(&mut self, n: usize) -> (r: bool)
        requires
            old(self).wf(),
        ensures
            *final(self) == *old(self),
            r == old(self)@.can_take(n as int),
    {
        let capacity: usize = self.config.max_pending.unwrap_or(DEFAULT_CAPACITY);
        self.workers.len() > 0 || n <= capacity - bounded_len(&mut self.global_queue)
    }

    /// Spawns a blocking task: counts it, names it and takes it in. The answer is
    /// its name, and whether a waiting worker is to be notified.
    pub fn spawn_task(&mut self) -> (r: (u64, bool))
        requires
            old(self).wf(),
            old(self)@.can_take(1),
        ensures
            final(self).wf(),
            final(self)@ == old(self)@.spawned(),
            r == (old(self)@.next_task, old(self)@.idle > 0),
    {
        self.active_spawned_tasks = self.active_spawned_tasks.wrapping_add(1);
        if self.config.enable_metrics {
            self.total_spawned = self.total_spawned.wrapping_add(1);
        }
        let task: u64 = self.next_task;
        self.next_task = self.next_task.wrapping_add(1);
        match self.push_task(task) {
            Ok(wake) => (task, wake),
            Err(task) => (task, false),
        }
    }

    /// Spawns an asynchronous task: counts it and names it. The answer is its name, and
    /// whether it starts; where `max_pending` tasks are in progress it waits, behind the
    /// others that wait.
    pub fn spawn_async(&mut self) -> (r: (u64, bool))
        requires
            old(self).wf(),
        ensures
            final(self).wf(),
            final(self)@ == old(self)@.async_spawned(),
            r == (old(self)@.next_task, old(self)@.may_start()),
    {
        self.active_spawned_tasks = self.active_spawned_tasks.wrapping_add(1);
        let task: u64 = self.next_task;
        self.next_task = self.next_task.wrapping_add(1);
        let starts = match self.config.max_pending {
            Some(limit) => self.in_progress < limit,
            None => true,
        };
        if starts {
            self.in_progress = self.in_progress.wrapping_add(1);
        } else {
            self.waiting.push_back(task);
        }
        (task, starts)
    }

    /// An asynchronous task that was in progress ended. The answer is the waiting task
    /// that starts in its place, and whether everybody who waits for the pool to fall
    /// idle is to be notified: where it was the last active task.
    pub fn async_ended(&mut self) -> (r: (Option<u64>, bool))
        requires
            old(self).wf(),
            old(self)@.in_progress > 0,
        ensures
            final(self).wf(),
            final(self)@ == old(self)@.async_ended(),
            r == (
                if old(self)@.waiting.len() > 0 {
                    Some(old(self)@.waiting[0])
                } else {
                    None
                },
                old(self)@.active == 1,
            ),
    {
        let prev: usize = self.active_spawned_tasks;
        self.active_spawned_tasks = prev.wrapping_sub(1);
        let next = self.waiting.pop_front();
        if next.is_none() {
            self.in_progress = self.in_progress.wrapping_sub(1);
        }
        proof {
            assert(self@ =~= old(self)@.async_ended());
        }
        (next, unlikely(prev == 1))
    }

    /// Gives up an asynchronous task that did not start. The answer is nothing where the
    /// task does not wait; else it tells whether everybody who waits for the pool to
    /// fall idle is to be notified.
    pub fn give_up(&mut self, task: u64) -> (r: Option<bool>)
        requires
            old(self).wf(),
        ensures
            final(self).wf(),
            match old(self)@.waiting.index_of_first(task) {
                Some(place) => r == Some(old(self)@.active == 1) && final(self)@ == old(
                    self,
                )@.given_up(place),
                None => r is None && final(self)@ == old(self)@,
            },
    {
        let mut k: usize = 0;
        while k < self.waiting.len()
            invariant
                self.wf(),
                *self == *old(self),
                k <= self@.waiting.len(),
                forall|j: int| 0 <= j < k ==> self@.waiting[j] != task,
            decreases self@.waiting.len() - k,
        {
            if self.waiting[k] == task {
                let prev: usize = self.active_spawned_tasks;
                self.active_spawned_tasks = prev.wrapping_sub(1);
                let _ = self.waiting.remove(k);
                proof {
                    old(self)@.waiting.index_of_first_ensures(task);
                    assert(old(self)@.waiting[k as int] == task);
                    assert(self@ =~= old(self)@.given_up(k as int));
                }
                return Some(unlikely(prev == 1));
            }
            k = k + 1;
        }
        proof {
            old(self)@.waiting.index_of_first_ensures(task);
        }
        None
    }

    /// How many asynchronous tasks are in progress.
    pub fn in_progress(&self) -> (n: usize)
        ensures
            n == self@.in_progress,
    {
        self.in_progress
    }

    /// The task of a worker reports how it ended; that is counted where metrics are on.
    pub fn report(&mut self, worker_id: usize, ok: bool)
        requires
            old(self).wf(),
            worker_id < old(self)@.workers.len(),
            old(self)@.workers[worker_id as int].phase is Running,
        ensures
            final(self).wf(),
            final(self)@ == old(self)@.reported(worker_id as int, ok),
    {
        let ghost pre = self@;
        let ghost id = worker_id as int;
        proof {
            assert(pre.workers[id].wf());
        }
        let mut w: WorkerState = self.workers[worker_id];
        if let WorkerPhase::Running(task) = w.phase {
            w.phase = WorkerPhase::Delivered(task);
        }
        self.workers.set(worker_id, w);
        if self.config.enable_metrics {
            if ok {
                self.completed_tasks = self.completed_tasks.wrapping_add(1);
            } else {
                self.failed_tasks = self.failed_tasks.wrapping_add(1);
            }
        }
        proof {
            lemma_worker_replaced(pre, id, w, pre.idle);
            assert(self@ =~= pre.reported(id, ok));
        }
    }

    /// The pool's counters.
    #[inline]
    pub fn metrics(&self) -> (m: PoolMetrics)
        ensures
            m == self@.metrics(),
    {
        PoolMetrics {
            active_tasks: self.active_spawned_tasks,
            idle_workers: self.idle_workers,
            queued_tasks: self.queued_tasks,
            total_spawned: self.total_spawned,
            completed_tasks: self.completed_tasks,
            failed_tasks: self.failed_tasks,
        }
    }

    /// Whether the pool was cancelled.
    pub fn is_cancelled(&self) -> (r: bool)
        ensures
            r == self@.cancelled,
    {
        self.cancelled
    }

    /// Whether to stop waiting for the active tasks: there is none left.
    #[inline]
    pub fn join_all(&self) -> (done: bool)
        ensures
            done == (self@.active == 0),
    {
        self.active_spawned_tasks == 0
    }

    /// Whether to stop waiting for the active tasks, with a limit on the time: with
    /// `true` where there is none left, with `false` where the time is up.
    pub fn join_all_timeout(&self, timed_out: bool) -> (r: Option<bool>)
        ensures
            r == if self@.active == 0 {
                Some(true)
            } else if timed_out {
                Some(false)
            } else {
                None
            },
    {
        if self.join_all() {
            Some(true)
        } else if timed_out {
            Some(false)
        } else {
            None
        }
    }

    /// Cancels the pool once there is no active task; until then it stays as it is,
    /// and the caller waits on.
    pub fn shutdown(&mut self) -> (done: bool)
        requires
            old(self).wf(),
        ensures
            final(self).wf(),
            done == (old(self)@.active == 0),
            final(self)@ == (PoolState {
                cancelled: old(self)@.cancelled || done,
                ..old(self)@
            }),
    {
        if !self.join_all() {
            return false;
        }
        self.cancelled = true;
        true
    }

    /// Cancels the pool once there is no active task or the time is up, and tells
    /// which; until then it stays as it is, and the caller waits on.
    pub fn shutdown_timeout(&mut self, timed_out: bool) -> (r: Option<bool>)
        requires
            old(self).wf(),
        ensures
            final(self).wf(),
            r == if old(self)@.active == 0 {
                Some(true)
            } else if timed_out {
                Some(false)
            } else {
                None
            },
            final(self)@ == (PoolState {
                cancelled: old(self)@.cancelled || r is Some,
                ..old(self)@
            }),
    {
        match self.join_all_timeout(timed_out) {
            None => None,
            Some(joined) => {
                self.cancelled = true;
                Some(joined)
            },
        }
    }
}

} // verus!
