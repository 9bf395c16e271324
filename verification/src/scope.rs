//! A scope: tasks that belong together, counted and waited for together.
//!
//! Like the pool, a scope decides and does not wait. Spawning hands out the handle
//! of a task and tells whether it starts; whoever drives the scope runs the task,
//! reports how it ended, and delivers the result to the handle.
use crate::batch::{BatchRun, BatchState, MAX_PERMITS};
use crate::chunk_run::{ChunkRun, ChunkState};
use crate::chunks::{
    chunk, chunk_count, law_chunk_holds_the_next_items, law_chunks_are_as_few_as_can_be,
    lemma_chunk_bounds, split_chunks,
};
use crate::handle::{Channel, HandleState, JoinHandle};
use crate::join::{settled_before, JoinRun, JoinState};
use crate::model::{JoinOrdering, PoolMetrics, ScopeMetrics};
use crate::monitor::{Monitor, MonitorState};
use crate::pool::{ThreadPoolInner, Timeout};
use crate::result::SpawnResult;
use crate::scope_state::ScopeState;
use crate::pool_laws::{lemma_async_spawned_n, lemma_spawned_n};
use crate::state::PoolState;
use crate::step_laws::{law_spawning_brings_every_task_in, law_spawning_starts_the_first_tasks};
use crate::stream::{first_wave, StreamRun, StreamState};
use crate::task::{settle, settled, TaskEvent};
use vstd::prelude::*;

verus! {

/// A scope.
pub struct Scope {
    counter: usize,
    completed: usize,
    failed: usize,
    enable_metrics: bool,
}

impl View for Scope {
    type V = ScopeState;

    closed spec fn view(&self) -> ScopeState {
        ScopeState {
            pending: self.counter,
            completed: self.completed,
            failed: self.failed,
            enable_metrics: self.enable_metrics,
        }
    }
}

/// A spawned asynchronous task.
pub struct AsyncSpawn<T> {
    /// The name under which the pool lets the task start.
    pub task: u64,
    /// Whether the task starts now; else it waits until the end of another names it.
    pub starts: bool,
    /// The handle on the task.
    pub handle: JoinHandle<T>,
}

/// The end of an asynchronous task.
pub struct AsyncEnd<T> {
    /// What the task came to, for its handle.
    pub result: SpawnResult<T>,
    /// The waiting task that starts now.
    pub next: Option<u64>,
    /// Whether whoever waits for the scope is to be notified.
    pub wake_scope: bool,
    /// Whether everybody who waits for the pool to fall idle is to be notified.
    pub wake_pool: bool,
}

/// Asynchronous tasks that were spawned together.
pub struct AsyncTasks {
    /// The names under which the pool lets them start.
    pub tasks: Vec<u64>,
    /// How many of them start now: the first ones. The others wait.
    pub starting: usize,
}

impl AsyncTasks {
    /// These are the `n` asynchronous tasks that were spawned next in a pool of the
    /// given state.
    pub open spec fn are(self, pool: PoolState, n: nat) -> bool {
        &&& self.tasks.len() == n
        &&& forall|i: int|
            0 <= i < n ==> #[trigger] self.tasks@[i] == pool.async_spawned_n(i as nat).next_task
        &&& self.starting == pool.starting(n)
    }
}

/// A spawned blocking task.
pub struct BlockingSpawn<T> {
    /// The name under which the pool hands the task to a worker.
    pub task: u64,
    /// Whether a waiting worker is to be notified.
    pub wake: bool,
    /// The handle on the task.
    pub handle: JoinHandle<T>,
}

/// A handle on a task that was just spawned.
pub open spec fn fresh_handle<T>() -> HandleState<T> {
    HandleState { cancelled: false, channel: Channel::Waiting }
}

/// A join of `n` tasks that were just spawned.
pub open spec fn fresh_join<T>(n: nat, ordering: JoinOrdering) -> JoinState<T> {
    JoinState {
        ordering,
        channels: Seq::new(n, |i: int| Channel::Waiting),
        arrivals: Seq::empty(),
    }
}

impl Scope {
    /// A scope over the given pool, without tasks.
    pub fn new(pool: &ThreadPoolInner) -> (scope: Scope)
        ensures
            scope@ == ScopeState::initial(pool@.config.enable_metrics),
    {
        Scope {
            counter: 0,
            completed: 0,
            failed: 0,
            enable_metrics: pool.ref_config().enable_metrics,
        }
    }

    /// Spawns an asynchronous task.
    #[inline]
    pub fn spawn<T>(&mut self, pool: &mut ThreadPoolInner) -> (r: AsyncSpawn<T>)
        requires
            old(pool).wf(),
        ensures
            final(pool).wf(),
            final(pool)@ == old(pool)@.async_spawned(),
            final(self)@ == old(self)@.spawned(),
            r.task == old(pool)@.next_task,
            r.starts == old(pool)@.may_start(),
            r.handle@ == fresh_handle::<T>(),
    {
        self.spawn_with_handle(pool)
    }

    /// Spawns an asynchronous task. It starts now unless as many are in progress as the
    /// pool's `max_pending` allows.
    #[inline]
    pub fn spawn_with_handle<T>(&mut self, pool: &mut ThreadPoolInner) -> (r: AsyncSpawn<T>)
        requires
            old(pool).wf(),
        ensures
            final(pool).wf(),
            final(pool)@ == old(pool)@.async_spawned(),
            final(self)@ == old(self)@.spawned(),
            r.task == old(pool)@.next_task,
            r.starts == old(pool)@.may_start(),
            r.handle@ == fresh_handle::<T>(),
    {
        self.counter = self.counter.wrapping_add(1);
        let (task, starts) = pool.spawn_async();
        AsyncSpawn { task, starts, handle: JoinHandle::new(false, Channel::Waiting) }
    }

    /// Counts the end of a task. The answer tells whether it was the last pending one.
    fn count_end(&mut self, ok: bool) -> (last: bool)
        ensures
            final(self)@ == old(self)@.finished(ok),
            last == (old(self)@.pending == 1),
    {
        if self.enable_metrics {
            if ok {
                self.completed = self.completed.wrapping_add(1);
            } else {
                self.failed = self.failed.wrapping_add(1);
            }
        }
        let prev: usize = self.counter;
        self.counter = prev.wrapping_sub(1);
        prev == 1
    }

    /// An asynchronous task that was in progress ended. Whoever waits for the scope is
    /// to be notified where it was the last pending task.
    pub fn finish<T>(&mut self, pool: &mut ThreadPoolInner, event: TaskEvent<T>) -> (r: AsyncEnd<T>)
        requires
            old(pool).wf(),
            old(pool)@.in_progress > 0,
        ensures
            final(pool).wf(),
            final(pool)@ == old(pool)@.async_ended(),
            final(self)@ == old(self)@.finished(settled(event) is Ok),
            r == (AsyncEnd {
                result: settled(event),
                next: if old(pool)@.waiting.len() > 0 {
                    Some(old(pool)@.waiting[0])
                } else {
                    None
                },
                wake_scope: old(self)@.pending == 1,
                wake_pool: old(pool)@.active == 1,
            }),
    {
        let result = settle(event);
        let wake_scope = self.count_end(result.is_ok());
        let (next, wake_pool) = pool.async_ended();
        AsyncEnd { result, next, wake_scope, wake_pool }
    }

    /// An asynchronous task was cancelled while it waited to start. The answer is nothing
    /// where the task does not wait; then it has started, and its end is still to come.
    pub fn finish_waiting<T>(&mut self, pool: &mut ThreadPoolInner, task: u64) -> (r: Option<
        AsyncEnd<T>,
    >)
        requires
            old(pool).wf(),
        ensures
            final(pool).wf(),
            match old(pool)@.waiting.index_of_first(task) {
                Some(place) => {
                    &&& final(pool)@ == old(pool)@.given_up(place)
                    &&& final(self)@ == old(self)@.finished(false)
                    &&& r == Some(
                        AsyncEnd {
                            result: settled(TaskEvent::<T>::Cancelled),
                            next: None,
                            wake_scope: old(self)@.pending == 1,
                            wake_pool: old(pool)@.active == 1,
                        },
                    )
                },
                None => {
                    &&& r is None
                    &&& final(pool)@ == old(pool)@
                    &&& final(self)@ == old(self)@
                },
            },
    {
        match pool.give_up(task) {
            Some(wake_pool) => {
                let wake_scope = self.count_end(false);
                let result = settle(TaskEvent::Cancelled);
                Some(AsyncEnd { result, next: None, wake_scope, wake_pool })
            },
            None => None,
        }
    }

    /// Spawns a blocking task, which a worker of the pool will run.
    pub fn spawn_blocking_with_handle<T>(&mut self, pool: &mut ThreadPoolInner) -> (r:
        BlockingSpawn<T>)
        requires
            old(pool).wf(),
            old(pool)@.can_take(1),
        ensures
            final(pool).wf(),
            final(pool)@ == old(pool)@.spawned(),
            final(self)@ == old(self)@.spawned(),
            r.task == old(pool)@.next_task,
            r.wake == (old(pool)@.idle > 0),
            r.handle@ == fresh_handle::<T>(),
    {
        self.counter = self.counter.wrapping_add(1);
        let (task, wake) = pool.spawn_task();
        BlockingSpawn { task, wake, handle: JoinHandle::new(false, Channel::Waiting) }
    }

    /// The blocking task that a worker runs came to its result: the pool counts it too.
    /// The answer is the result, for its handle, and whether whoever waits for the scope
    /// is to be notified. The end of the task, for the worker, comes after.
    pub fn finish_blocking<T>(
        &mut self,
        pool: &mut ThreadPoolInner,
        worker_id: usize,
        event: TaskEvent<T>,
    ) -> (r: (SpawnResult<T>, bool))
        requires
            old(pool).wf(),
            worker_id < old(pool)@.workers.len(),
            old(pool)@.workers[worker_id as int].phase is Running,
        ensures
            final(pool).wf(),
            final(pool)@ == old(pool)@.reported(worker_id as int, settled(event) is Ok),
            final(self)@ == old(self)@.finished(settled(event) is Ok),
            r == (settled(event), old(self)@.pending == 1),
    {
        let result = settle(event);
        let last = self.count_end(result.is_ok());
        pool.report(worker_id, result.is_ok());
        (result, last)
    }

    /// Spawns `n` asynchronous tasks, in order.
    fn spawn_n<T>(&mut self, pool: &mut ThreadPoolInner, n: usize) -> (r: (
        AsyncTasks,
        Vec<JoinHandle<T>>,
    ))
        requires
            old(pool).wf(),
        ensures
            final(pool).wf(),
            final(pool)@ == old(pool)@.async_spawned_n(n as nat),
            final(self)@ == old(self)@.spawned_n(n as nat),
            r.0.are(old(pool)@, n as nat),
            r.1.len() == n,
            forall|i: int| 0 <= i < n ==> (#[trigger] r.1@[i])@ == fresh_handle::<T>(),
    {
        let ghost before = pool@;
        let mut tasks: Vec<u64> = Vec::new();
        let mut starting: usize = 0;
        let mut handles: Vec<JoinHandle<T>> = Vec::new();
        let mut i: usize = 0;
        proof {
            lemma_async_spawned_n(before, 0);
        }
        while i < n
            invariant
                i <= n,
                before.wf(),
                pool.wf(),
                pool@ == before.async_spawned_n(i as nat),
                self@ == old(self)@.spawned_n(i as nat),
                tasks.len() == i,
                forall|j: int|
                    0 <= j < i ==> #[trigger] tasks@[j] == before.async_spawned_n(
                        j as nat,
                    ).next_task,
                starting == before.starting(i as nat),
                starting <= i,
                handles.len() == i,
                forall|j: int| 0 <= j < i ==> (#[trigger] handles@[j])@ == fresh_handle::<T>(),
            decreases n - i,
        {
            proof {
                lemma_async_spawned_n(before, i as nat);
            }
            let spawned = self.spawn(pool);
            tasks.push(spawned.task);
            if spawned.starts {
                starting = starting + 1;
            }
            handles.push(spawned.handle);
            i = i + 1;
        }
        (AsyncTasks { tasks, starting }, handles)
    }

    /// Spawns `n` blocking tasks, in order.
    fn spawn_blocking_n<T>(&mut self, pool: &mut ThreadPoolInner, n: usize) -> (r: (
        BlockingTasks,
        Vec<JoinHandle<T>>,
    ))
        requires
            old(pool).wf(),
            old(pool)@.can_take(n as int),
        ensures
            final(pool).wf(),
            final(pool)@ == old(pool)@.spawned_n(n as nat),
            final(self)@ == old(self)@.spawned_n(n as nat),
            r.0.are(old(pool)@, n as nat),
            r.1.len() == n,
            forall|i: int| 0 <= i < n ==> (#[trigger] r.1@[i])@ == fresh_handle::<T>(),
    {
        let ghost before = pool@;
        let mut tasks: Vec<u64> = Vec::new();
        let mut wakes: usize = 0;
        let mut handles: Vec<JoinHandle<T>> = Vec::new();
        let mut i: usize = 0;
        while i < n
            invariant
                i <= n,
                before.wf(),
                before.can_take(n as int),
                pool.wf(),
                pool@ == before.spawned_n(i as nat),
                self@ == old(self)@.spawned_n(i as nat),
                tasks.len() == i,
                forall|j: int|
                    0 <= j < i ==> #[trigger] tasks@[j] == before.spawned_n(j as nat).next_task,
                wakes == if before.idle > 0 {
                    i as int
                } else {
                    0
                },
                handles.len() == i,
                forall|j: int| 0 <= j < i ==> (#[trigger] handles@[j])@ == fresh_handle::<T>(),
            decreases n - i,
        {
            proof {
                lemma_spawned_n(before, i as nat);
            }
            let spawned = self.spawn_blocking_with_handle(pool);
            tasks.push(spawned.task);
            if spawned.wake {
                wakes = wakes + 1;
            }
            handles.push(spawned.handle);
            i = i + 1;
        }
        (BlockingTasks { tasks, wakes }, handles)
    }

    /// Spawns an asynchronous task for each item, to be joined. The `i`-th task and the
    /// `i`-th handle are those of the `i`-th item.
    pub fn spawn_bulk_compute<T, R>(
        &mut self,
        pool: &mut ThreadPoolInner,
        items: &[T],
        ordering: JoinOrdering,
    ) -> (r: (AsyncTasks, JoinRun<R>))
        requires
            old(pool).wf(),
        ensures
            final(pool).wf(),
            final(pool)@ == old(pool)@.async_spawned_n(items@.len()),
            final(self)@ == old(self)@.spawned_n(items@.len()),
            r.0.are(old(pool)@, items@.len()),
            r.1.wf(),
            r.1@ == fresh_join::<R>(items@.len(), ordering),
    {
        let (tasks, handles) = self.spawn_n(pool, items.len());
        let run = self.join_handles(handles, ordering);
        proof {
            lemma_fresh_join(run@, items@.len());
        }
        (tasks, run)
    }

    /// Spawns a blocking task for each item, to be joined. The `i`-th task and the
    /// `i`-th handle are those of the `i`-th item.
    pub fn spawn_bulk_compute_cpu<T, R>(
        &mut self,
        pool: &mut ThreadPoolInner,
        items: &[T],
        ordering: JoinOrdering,
    ) -> (r: (BlockingTasks, JoinRun<R>))
        requires
            old(pool).wf(),
            old(pool)@.can_take(items@.len() as int),
        ensures
            final(pool).wf(),
            final(pool)@ == old(pool)@.spawned_n(items@.len()),
            final(self)@ == old(self)@.spawned_n(items@.len()),
            r.0.are(old(pool)@, items@.len()),
            r.1.wf(),
            r.1@ == fresh_join::<R>(items@.len(), ordering),
    {
        let (tasks, handles) = self.spawn_blocking_n(pool, items.len());
        let run = self.join_handles(handles, ordering);
        proof {
            lemma_fresh_join(run@, items@.len());
        }
        (tasks, run)
    }

    /// Spawns an asynchronous task for each item, of which no more than `max_concurrent`
    /// are at work at a time, to be joined.
    pub fn batch_process<T, R>(
        &mut self,
        pool: &mut ThreadPoolInner,
        items: &[T],
        max_concurrent: usize,
        ordering: JoinOrdering,
    ) -> (r: (AsyncTasks, BatchRun<R>))
        requires
            old(pool).wf(),
            items@.len() > 0 ==> max_concurrent <= MAX_PERMITS,
        ensures
            final(pool).wf(),
            final(pool)@ == old(pool)@.async_spawned_n(items@.len()),
            final(self)@ == old(self)@.spawned_n(items@.len()),
            r.0.are(old(pool)@, items@.len()),
            r.1.wf(),
            r.1@ == BatchState::begun(fresh_join::<R>(items@.len(), ordering), max_concurrent),
    {
        let (tasks, join) = self.spawn_bulk_compute(pool, items, ordering);
        (tasks, BatchRun::begin(join, max_concurrent))
    }

    /// Splits the items into chunks and spawns a blocking task for each. The `k`-th
    /// task is that of the `k`-th chunk.
    fn spawn_chunks<T, U>(
        &mut self,
        pool: &mut ThreadPoolInner,
        items: Vec<T>,
        chunk_size: usize,
        trims: bool,
    ) -> (r: (ChunkJobs<T>, ChunkRun<U>))
        requires
            items.len() > 0 ==> chunk_size > 0,
            old(pool).wf(),
            old(pool)@.can_take(number_of_chunks(items@.len(), chunk_size as nat) as int),
        ensures
            final(pool).wf(),
            final(pool)@ == old(pool)@.spawned_n(
                number_of_chunks(items@.len(), chunk_size as nat),
            ),
            final(self)@ == old(self)@.spawned_n(
                number_of_chunks(items@.len(), chunk_size as nat),
            ),
            r.0.are(old(pool)@, items@, chunk_size as nat),
            r.1.wf(),
            r.1@ == fresh_chunks::<U>(items@.len(), chunk_size, trims),
    {
        let total: usize = items.len();
        let chunks = split_chunks(items, chunk_size);
        let (tasks, handles) = self.spawn_blocking_n::<Vec<U>>(pool, chunks.len());
        let join = self.join_handles(handles, JoinOrdering::Ordered);
        proof {
            lemma_fresh_join(join@, chunks@.len());
        }
        (ChunkJobs { chunks, tasks }, ChunkRun::begin(join, chunk_size, total, trims))
    }

    /// Processes the items in chunks, by a blocking task for each. A chunk that fails
    /// stands for `chunk_size` errors, the last one too where it is shorter.
    pub fn batch_process_cpu<T, R>(
        &mut self,
        pool: &mut ThreadPoolInner,
        items: Vec<T>,
        chunk_size: usize,
    ) -> (r: (ChunkJobs<T>, ChunkRun<R>))
        requires
            items.len() > 0 ==> chunk_size > 0,
            old(pool).wf(),
            old(pool)@.can_take(number_of_chunks(items@.len(), chunk_size as nat) as int),
        ensures
            final(pool).wf(),
            final(pool)@ == old(pool)@.spawned_n(
                number_of_chunks(items@.len(), chunk_size as nat),
            ),
            final(self)@ == old(self)@.spawned_n(
                number_of_chunks(items@.len(), chunk_size as nat),
            ),
            r.0.are(old(pool)@, items@, chunk_size as nat),
            r.1.wf(),
            r.1@ == fresh_chunks::<R>(items@.len(), chunk_size, false),
    {
        self.spawn_chunks(pool, items, chunk_size, false)
    }

    /// Maps the items in chunks, by a blocking task for each. A chunk that fails
    /// stands for an error for each of its items.
    pub fn par_map_cpu<T, U>(
        &mut self,
        pool: &mut ThreadPoolInner,
        items: Vec<T>,
        chunk_size: usize,
    ) -> (r: (ChunkJobs<T>, ChunkRun<U>))
        requires
            items.len() > 0 ==> chunk_size > 0,
            old(pool).wf(),
            old(pool)@.can_take(number_of_chunks(items@.len(), chunk_size as nat) as int),
        ensures
            final(pool).wf(),
            final(pool)@ == old(pool)@.spawned_n(
                number_of_chunks(items@.len(), chunk_size as nat),
            ),
            final(self)@ == old(self)@.spawned_n(
                number_of_chunks(items@.len(), chunk_size as nat),
            ),
            r.0.are(old(pool)@, items@, chunk_size as nat),
            r.1.wf(),
            r.1@ == fresh_chunks::<U>(items@.len(), chunk_size, true),
    {
        self.spawn_chunks(pool, items, chunk_size, true)
    }

    /// Processes the items with no more than `max_concurrent` in the works at a time.
    /// The answer holds the items that are spawned at once, and their tasks; each result
    /// brings the next.
    pub fn stream_process<T, R>(
        &mut self,
        pool: &mut ThreadPoolInner,
        items: Vec<T>,
        max_concurrent: usize,
    ) -> (r: (StreamRun<T, R>, Vec<T>, AsyncTasks))
        requires
            old(pool).wf(),
            items.len() > 0 ==> max_concurrent <= MAX_PERMITS,
        ensures
            final(pool).wf(),
            final(pool)@ == old(pool)@.async_spawned_n(first_wave(items@.len(), max_concurrent)),
            final(self)@ == old(self)@.spawned_n(first_wave(items@.len(), max_concurrent)),
            r.0.wf(),
            r.0@ == StreamState::<T, R>::begun(items@, max_concurrent),
            r.1@ == items@.take(first_wave(items@.len(), max_concurrent) as int),
            r.2.are(old(pool)@, first_wave(items@.len(), max_concurrent)),
    {
        let (run, started) = StreamRun::begin(items, max_concurrent);
        let (tasks, _) = self.spawn_n::<R>(pool, started.len());
        (run, started, tasks)
    }

    /// Begins to join the tasks of a map, given by the handles of its items. Each item's
    /// task was spawned for itself, once its future was made: where making one fails,
    /// only those before it are pending.
    pub fn par_map_async<U>(&self, handles: Vec<JoinHandle<U>>, ordering: JoinOrdering) -> (run:
        JoinRun<U>)
        ensures
            run.wf(),
            run@ == ({
                let channels = handles@.map_values(|h: JoinHandle<U>| h@.channel);
                JoinState {
                    ordering,
                    channels,
                    arrivals: settled_before(channels, channels.len() as int),
                }
            }),
    {
        self.join_handles(handles, ordering)
    }

    /// Whether to stop waiting for the scope: no task is pending.
    pub fn wait(&self) -> (done: bool)
        ensures
            done == (self@.pending == 0),
    {
        self.counter == 0
    }

    /// Whether to stop waiting for the scope, with a limit on the time: with `true`
    /// where no task is pending, with `false` where the time is up.
    pub fn wait_timeout(&self, timed_out: bool) -> (r: Option<bool>)
        ensures
            r == if self@.pending == 0 {
                Some(true)
            } else if timed_out {
                Some(false)
            } else {
                None
            },
    {
        if self.wait() {
            Some(true)
        } else if timed_out {
            Some(false)
        } else {
            None
        }
    }

    /// Marks every task as cancelled.
    #[inline]
    pub fn cancel_all<T>(&self, handles: &mut Vec<JoinHandle<T>>)
        ensures
            final(handles).len() == old(handles).len(),
            forall|i: int|
                0 <= i < old(handles).len() ==> (#[trigger] final(handles)@[i])@ == (HandleState {
                    cancelled: true,
                    ..old(handles)@[i]@
                }),
    {
        let ghost before = handles@;
        let mut i: usize = 0;
        while i < handles.len()
            invariant
                i <= handles.len(),
                handles.len() == before.len(),
                forall|j: int|
                    0 <= j < i ==> (#[trigger] handles@[j])@ == (HandleState {
                        cancelled: true,
                        ..before[j]@
                    }),
                forall|j: int| i <= j < before.len() ==> #[trigger] handles@[j] == before[j],
            decreases handles.len() - i,
        {
            handles[i].cancel();
            i = i + 1;
        }
    }

    /// Begins to join the given handles.
    #[inline]
    pub fn join_handles<T>(&self, handles: Vec<JoinHandle<T>>, ordering: JoinOrdering) -> (run:
        JoinRun<T>)
        ensures
            run.wf(),
            run@ == ({
                let channels = handles@.map_values(|h: JoinHandle<T>| h@.channel);
                JoinState {
                    ordering,
                    channels,
                    arrivals: settled_before(channels, channels.len() as int),
                }
            }),
    {
        JoinRun::new(handles, ordering)
    }

    /// The scope's counters.
    #[inline]
    pub fn metrics(&self) -> (m: ScopeMetrics)
        ensures
            m == self@.metrics(),
    {
        ScopeMetrics { pending: self.counter, completed: self.completed, failed: self.failed }
    }

    /// Begins to watch the scope's counters.
    pub fn start_monitoring(&self, interval: Timeout) -> (monitor: Monitor)
        ensures
            monitor@ == (MonitorState { interval, stopped: false }),
    {
        Monitor::start(interval)
    }

    /// The interval has passed: what to show, unless the watch is over.
    pub fn monitor_tick(&self, monitor: &Monitor) -> (r: Option<ScopeMetrics>)
        ensures
            r == if monitor@.stopped {
                None
            } else {
                Some(self@.metrics())
            },
    {
        if monitor.is_stopped() {
            None
        } else {
            Some(self.metrics())
        }
    }

    /// Ends a watch.
    pub fn stop_monitoring(monitor: &mut Monitor)
        ensures
            final(monitor)@ == (MonitorState { stopped: true, ..old(monitor)@ }),
    {
        monitor.stop();
    }
}

impl ThreadPoolInner {
    /// Whether a piece of work in a scope of its own is over: its body has ended, with
    /// `out`, and no task of the scope is pending. Then `out` is handed out, else it
    /// is handed back.
    pub fn scope_async<T>(scope: &Scope, out: Option<T>) -> (r: Result<T, Option<T>>)
        ensures
            r == match out {
                Some(value) if scope@.pending == 0 => Ok(value),
                _ => Err(out),
            },
    {
        match out {
            Some(value) => if scope.wait() {
                Ok(value)
            } else {
                Err(Some(value))
            },
            None => Err(None),
        }
    }

    /// Begins to watch the pool's counters.
    pub fn start_monitoring(&self, interval: Timeout) -> (monitor: Monitor)
        ensures
            monitor@ == (MonitorState { interval, stopped: false }),
    {
        Monitor::start(interval)
    }

    /// The interval has passed: what to show, unless the watch is over.
    pub fn monitor_tick(&self, monitor: &Monitor) -> (r: Option<PoolMetrics>)
        ensures
            r == if monitor@.stopped {
                None
            } else {
                Some(self@.metrics())
            },
    {
        if monitor.is_stopped() {
            None
        } else {
            Some(self.metrics())
        }
    }

    /// Ends a watch.
    pub fn stop_monitoring(monitor: &mut Monitor)
        ensures
            final(monitor)@ == (MonitorState { stopped: true, ..old(monitor)@ }),
    {
        monitor.stop();
    }
}

/// Blocking tasks that were spawned together.
pub struct BlockingTasks {
    /// The names under which the pool hands them to workers.
    pub tasks: Vec<u64>,
    /// How many times a waiting worker is to be notified.
    pub wakes: usize,
}

impl BlockingTasks {
    /// These are the `n` tasks that were spawned next in a pool of the given state:
    /// each asks for a notification where any worker waits.
    pub open spec fn are(self, pool: PoolState, n: nat) -> bool {
        &&& self.tasks.len() == n
        &&& forall|i: int|
            0 <= i < n ==> #[trigger] self.tasks@[i] == pool.spawned_n(i as nat).next_task
        &&& self.wakes == if pool.idle > 0 {
            n
        } else {
            0
        }
    }
}

/// Chunks that were spawned together.
pub struct ChunkJobs<T> {
    /// The items of each chunk.
    pub chunks: Vec<Vec<T>>,
    /// The task of each chunk.
    pub tasks: BlockingTasks,
}

/// The number of chunks that `n` items make; none where there are no items.
pub open spec fn number_of_chunks(n: nat, size: nat) -> nat {
    if n == 0 {
        0
    } else {
        chunk_count(n, size)
    }
}

impl<T> ChunkJobs<T> {
    /// These are the chunks of `items`, and their tasks were spawned next in a pool
    /// of the given state.
    pub open spec fn are(self, pool: PoolState, items: Seq<T>, size: nat) -> bool {
        &&& self.chunks.len() == number_of_chunks(items.len(), size)
        &&& forall|k: int|
            0 <= k < self.chunks.len() ==> (#[trigger] self.chunks@[k])@ == chunk(items, size, k)
        &&& self.tasks.are(pool, number_of_chunks(items.len(), size))
    }
}

/// Chunks of `n` items that were just spawned.
pub open spec fn fresh_chunks<U>(n: nat, size: usize, trims: bool) -> ChunkState<U> {
    ChunkState {
        join: fresh_join::<Vec<U>>(number_of_chunks(n, size as nat), JoinOrdering::Ordered),
        size,
        total: n as usize,
        trims,
    }
}

/// A join of handles that all wait is one in which nothing has arrived.
proof fn lemma_fresh_join<T>(state: JoinState<T>, n: nat)
    requires
        state.channels.len() == n,
        forall|i: int| 0 <= i < n ==> #[trigger] state.channels[i] is Waiting,
        state.arrivals == settled_before(state.channels, n as int),
    ensures
        state == fresh_join::<T>(n, state.ordering),
{
    lemma_none_settled(state.channels, n as int);
    assert(state.channels =~= fresh_join::<T>(n, state.ordering).channels);
}

/// Of channels that all wait, none holds anything.
proof fn lemma_none_settled<T>(channels: Seq<Channel<T>>, n: int)
    requires
        0 <= n <= channels.len(),
        forall|i: int| 0 <= i < channels.len() ==> #[trigger] channels[i] is Waiting,
    ensures
        settled_before(channels, n) == Seq::<usize>::empty(),
    decreases n,
{
    if n > 0 {
        lemma_none_settled(channels, n - 1);
    }
}

/// A task that was just spawned is not marked as cancelled and nothing has come of it.
pub proof fn law_new_task_has_no_result<T>(n: nat, ordering: JoinOrdering)
    ensures
        !fresh_handle::<T>().cancelled,
        fresh_handle::<T>().channel is Waiting,
        fresh_join::<T>(n, ordering).ordering == ordering,
        fresh_join::<T>(n, ordering).channels.len() == n,
        forall|i: int|
            0 <= i < n ==> #[trigger] fresh_join::<T>(n, ordering).channels[i] is Waiting,
        fresh_join::<T>(n, ordering).arrivals.len() == 0,
{
}

/// Blocking tasks that are spawned together have the next names of the pool, one each,
/// all different, and come into the pool under them. Each asks for a notification where
/// any worker waits.
pub proof fn law_every_blocking_task_has_its_name(tasks: BlockingTasks, pool: PoolState, n: nat)
    requires
        pool.wf(),
        pool.can_take(n as int),
        pool.next_task + n <= u64::MAX,
        pool.active + n <= usize::MAX,
        pool.total_spawned + n <= usize::MAX,
        tasks.are(pool, n),
    ensures
        tasks.tasks@.len() == n,
        forall|i: int| 0 <= i < n ==> #[trigger] tasks.tasks@[i] == pool.next_task + i,
        tasks.tasks@.no_duplicates(),
        pool.spawned_n(n).in_flight() == pool.in_flight().add(tasks.tasks@.to_multiset()),
        pool.idle > 0 ==> tasks.wakes == n,
        pool.idle == 0 ==> tasks.wakes == 0,
{
    assert forall|i: int| 0 <= i < n implies #[trigger] tasks.tasks@[i] == pool.next_task + i by {
        law_spawning_brings_every_task_in(pool, i as nat);
    }
    law_spawning_brings_every_task_in(pool, n);
    assert(tasks.tasks@ =~= Seq::new(n, |i: int| (pool.next_task + i) as u64));
}

/// Asynchronous tasks that are spawned together have the next names of the pool, one
/// each, all different. The first of them start, as many as the limit leaves room for,
/// and the others wait under their names.
pub proof fn law_every_async_task_has_its_name(tasks: AsyncTasks, pool: PoolState, n: nat)
    requires
        pool.wf(),
        pool.next_task + n <= u64::MAX,
        pool.active + n <= usize::MAX,
        pool.in_progress + n <= usize::MAX,
        tasks.are(pool, n),
    ensures
        tasks.tasks@.len() == n,
        forall|i: int| 0 <= i < n ==> #[trigger] tasks.tasks@[i] == pool.next_task + i,
        tasks.tasks@.no_duplicates(),
        tasks.starting <= n,
        pool.config.max_pending is None ==> tasks.starting == n,
        pool.config.max_pending matches Some(limit) ==> tasks.starting == n || pool.in_progress
            + tasks.starting == limit,
        pool.async_spawned_n(n).in_progress == pool.in_progress + tasks.starting,
        pool.async_spawned_n(n).waiting == pool.waiting + tasks.tasks@.skip(tasks.starting as int),
{
    assert forall|i: int| 0 <= i < n implies #[trigger] tasks.tasks@[i] == pool.next_task + i by {
        law_spawning_starts_the_first_tasks(pool, i as nat);
    }
    law_spawning_starts_the_first_tasks(pool, n);
    assert(tasks.tasks@.skip(tasks.starting as int) =~= Seq::new(
        (n - tasks.starting) as nat,
        |i: int| (pool.next_task + tasks.starting + i) as u64,
    ));
}

/// Chunks that are spawned together hold all items, in their order, each once, and each
/// has a task of its own. Without items there is no chunk.
pub proof fn law_every_item_is_in_a_spawned_chunk<T>(
    jobs: ChunkJobs<T>,
    pool: PoolState,
    items: Seq<T>,
    size: nat,
)
    requires
        items.len() > 0 ==> size > 0,
        jobs.are(pool, items, size),
    ensures
        jobs.tasks.tasks@.len() == jobs.chunks@.len(),
        items.len() == 0 ==> jobs.chunks@.len() == 0,
        items.len() > 0 ==> jobs.chunks@.len() > 0 && (jobs.chunks@.len() - 1) * size < items.len()
            <= jobs.chunks@.len() * size,
        forall|k: int|
            0 <= k < jobs.chunks@.len() ==> (#[trigger] jobs.chunks@[k])@.len() == if k + 1
                < jobs.chunks@.len() {
                size as int
            } else {
                items.len() - k * size
            },
        forall|k: int, j: int|
            0 <= k < jobs.chunks@.len() && 0 <= j < jobs.chunks@[k]@.len() ==> (
            #[trigger] jobs.chunks@[k]@[j]) == items[k * size + j],
{
    if items.len() > 0 {
        law_chunks_are_as_few_as_can_be(items.len(), size);
        assert forall|k: int| 0 <= k < jobs.chunks@.len() implies (
        #[trigger] jobs.chunks@[k])@.len() == if k + 1 < jobs.chunks@.len() {
            size as int
        } else {
            items.len() - k * size
        } by {
            lemma_chunk_bounds(items.len(), size, k);
        }
        assert forall|k: int, j: int|
            0 <= k < jobs.chunks@.len() && 0 <= j < jobs.chunks@[k]@.len() implies (
        #[trigger] jobs.chunks@[k]@[j]) == items[k * size + j] by {
            law_chunk_holds_the_next_items(items, size, k);
            assert(jobs.chunks@[k]@ == chunk(items, size, k));
        }
    }
}

/// Chunks that were just spawned are joined in their order, one handle for each, and
/// nothing has come of any.
pub proof fn law_new_chunks_have_no_results<U>(n: nat, size: usize, trims: bool)
    requires
        n <= usize::MAX,
        n > 0 ==> size > 0,
    ensures
        ({
            let state = fresh_chunks::<U>(n, size, trims);
            let m = state.join.channels.len();
            &&& state.size == size
            &&& state.total == n
            &&& state.trims == trims
            &&& state.join.ordering is Ordered
            &&& state.join.arrivals.len() == 0
            &&& n == 0 ==> m == 0
            &&& n > 0 ==> m > 0 && (m - 1) * size < n <= m * size
            &&& forall|k: int| 0 <= k < m ==> #[trigger] state.join.channels[k] is Waiting
        }),
{
    if n > 0 {
        law_chunks_are_as_few_as_can_be(n, size as nat);
    }
}

} // verus!
