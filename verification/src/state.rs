//! The pool as a mathematical object: its state and the steps it takes.
use crate::bags::{tally, total};
use crate::config::{queue_capacity, Config};
use crate::model::PoolMetrics;
use crate::worker::{
    next_random, steal_budget, steal_target, Overflow, WorkerAction, WorkerPhase, WorkerState,
    BATCH_SIZE,
};
use vstd::multiset::Multiset;
use vstd::prelude::*;
use vstd::wrapping::{u64_specs, usize_specs};

verus! {

/// The state of a pool.
#[verifier::ext_equal]
pub struct PoolState {
    /// The configuration that the pool was made with.
    pub config: Config,
    /// The tasks in the bounded queue, oldest first.
    pub global: Seq<u64>,
    /// The tasks in each worker's overflow queue, oldest first.
    pub injectors: Seq<Seq<u64>>,
    /// The tasks in each worker's own deque, oldest first.
    pub locals: Seq<Seq<u64>>,
    /// The workers.
    pub workers: Seq<WorkerState>,
    /// The turn of the overflow queues.
    pub next_worker: usize,
    /// The name of the next task.
    pub next_task: u64,
    /// Whether the pool was cancelled.
    pub cancelled: bool,
    /// Asynchronous tasks that started and did not end.
    pub in_progress: usize,
    /// Asynchronous tasks that were spawned and did not start, oldest first.
    pub waiting: Seq<u64>,
    /// Tasks that were spawned and did not end.
    pub active: usize,
    /// Blocking tasks that were spawned while metrics were on.
    pub total_spawned: usize,
    /// Blocking tasks that ended with a value.
    pub completed: usize,
    /// Blocking tasks that ended with an error.
    pub failed: usize,
    /// Workers that wait.
    pub idle: usize,
    /// Tasks that wait in the bounded queue.
    pub queued: usize,
}

/// The task that a worker has in hand, if any.
pub open spec fn held_by(worker: WorkerState) -> Multiset<u64> {
    match worker.phase {
        WorkerPhase::Running(task) => Multiset::singleton(task),
        WorkerPhase::Delivered(task) => Multiset::singleton(task),
        _ => Multiset::empty(),
    }
}

/// Tells parked workers from others.
pub open spec fn is_parked() -> spec_fn(WorkerState) -> bool {
    |worker: WorkerState| worker.phase is Parked
}

/// The number of parked workers.
pub open spec fn parked(workers: Seq<WorkerState>) -> nat {
    tally(workers, is_parked())
}

/// Tells workers whose task has reported from others.
pub open spec fn is_delivered() -> spec_fn(WorkerState) -> bool {
    |worker: WorkerState| worker.phase is Delivered
}

/// The number of workers whose task has reported and not ended.
pub open spec fn delivered(workers: Seq<WorkerState>) -> nat {
    tally(workers, is_delivered())
}

impl PoolState {
    /// What holds of a pool at every moment. Every worker has its overflow queue
    /// and its deque; the bounded queue keeps within its capacity, and the queued count
    /// is the number of tasks in it; the idle count is the number of parked workers.
    /// Where a limit is set, no more asynchronous tasks are in progress than it allows,
    /// and as many as it allows while any waits.
    pub open spec fn wf(self) -> bool {
        &&& self.workers.len() == self.config.num_threads
        &&& self.injectors.len() == self.config.num_threads
        &&& self.locals.len() == self.config.num_threads
        &&& 0 < queue_capacity(self.config)
        &&& self.global.len() <= queue_capacity(self.config)
        &&& self.queued == self.global.len()
        &&& self.config.max_pending matches Some(limit) ==> self.in_progress <= limit
        &&& self.waiting.len() > 0 ==> self.config.max_pending == Some(self.in_progress)
        &&& forall|i: int| 0 <= i < self.workers.len() ==> #[trigger] self.workers[i].wf()
        &&& self.idle == parked(self.workers)
    }

    /// The state with nothing in it: no task, no worker started, nothing counted.
    pub open spec fn initial(config: Config) -> PoolState {
        PoolState {
            config,
            global: Seq::empty(),
            injectors: Seq::new(config.num_threads as nat, |i: int| Seq::empty()),
            locals: Seq::new(config.num_threads as nat, |i: int| Seq::empty()),
            workers: Seq::new(
                config.num_threads as nat,
                |i: int|
                    WorkerState {
                        phase: WorkerPhase::Starting,
                        completed_batch: 0,
                        steal_attempts: 0,
                        random: 0,
                    },
            ),
            next_worker: 0,
            next_task: 0,
            cancelled: false,
            in_progress: 0,
            waiting: Seq::empty(),
            active: 0,
            total_spawned: 0,
            completed: 0,
            failed: 0,
            idle: 0,
            queued: 0,
        }
    }

    /// Every blocking task in the pool: in the bounded queue, in an overflow queue, in
    /// a deque, or with the worker that runs it.
    pub open spec fn in_flight(self) -> Multiset<u64> {
        self.global.to_multiset().add(
            total(self.injectors.map_values(|q: Seq<u64>| q.to_multiset())),
        ).add(total(self.locals.map_values(|q: Seq<u64>| q.to_multiset()))).add(
            total(self.workers.map_values(|w: WorkerState| held_by(w))),
        )
    }

    /// The number of tasks in the pool, of both kinds.
    pub open spec fn load(self) -> nat {
        self.in_flight().len() + self.in_progress as nat + self.waiting.len()
    }

    /// The active count is the number of tasks in the pool.
    pub open spec fn balanced(self) -> bool {
        self.active == self.load()
    }

    /// The names that the pool hands to workers, or will hand out to start a task.
    pub open spec fn names(self) -> Multiset<u64> {
        self.in_flight().add(self.waiting.to_multiset())
    }

    /// No name is in the pool twice, and none is there that is still to be given.
    pub open spec fn names_are_distinct(self) -> bool {
        forall|task: u64| #[trigger]
            self.names().count(task) <= if task < self.next_task {
                1int
            } else {
                0
            }
    }

    /// The bounded queue has no room.
    pub open spec fn is_full(self) -> bool {
        self.global.len() >= queue_capacity(self.config)
    }

    /// The number of tasks that the bounded queue has room for.
    pub open spec fn room(self) -> int {
        queue_capacity(self.config) - self.global.len()
    }

    /// There is a place for `n` more tasks: a worker's overflow queue takes any
    /// number, and without a worker the bounded queue must have the room.
    pub open spec fn can_take(self, n: int) -> bool {
        0 < self.workers.len() || n <= self.room()
    }

    /// The overflow queue whose turn it is.
    pub open spec fn overflow_target(self) -> int {
        self.next_worker as int % self.workers.len() as int
    }

    /// After `task` came in: at the end of the bounded queue where that has room,
    /// else at the end of the overflow queue whose turn it is.
    pub open spec fn pushed(self, task: u64) -> PoolState {
        if self.is_full() {
            let target = self.overflow_target();
            PoolState {
                injectors: self.injectors.update(target, self.injectors[target].push(task)),
                next_worker: usize_specs::wrapping_add(self.next_worker, 1),
                ..self
            }
        } else {
            PoolState {
                global: self.global.push(task),
                queued: (self.queued + 1) as usize,
                ..self
            }
        }
    }

    /// After a blocking task was spawned: it is counted and named, and it came in.
    pub open spec fn spawned(self) -> PoolState {
        PoolState {
            active: usize_specs::wrapping_add(self.active, 1),
            total_spawned: if self.config.enable_metrics {
                usize_specs::wrapping_add(self.total_spawned, 1)
            } else {
                self.total_spawned
            },
            next_task: u64_specs::wrapping_add(self.next_task, 1),
            ..self
        }.pushed(self.next_task)
    }

    /// After `n` blocking tasks were spawned, one after the other.
    pub open spec fn spawned_n(self, n: nat) -> PoolState
        decreases n,
    {
        if n == 0 {
            self
        } else {
            self.spawned_n((n - 1) as nat).spawned()
        }
    }

    /// Another asynchronous task may start: no limit is set, or it is not reached.
    pub open spec fn may_start(self) -> bool {
        self.config.max_pending matches Some(limit) ==> self.in_progress < limit
    }

    /// After an asynchronous task was spawned: it is counted and named, and it starts
    /// where it may, else it waits behind the others.
    pub open spec fn async_spawned(self) -> PoolState {
        let counted = PoolState {
            active: usize_specs::wrapping_add(self.active, 1),
            next_task: u64_specs::wrapping_add(self.next_task, 1),
            ..self
        };
        if self.may_start() {
            PoolState { in_progress: usize_specs::wrapping_add(self.in_progress, 1), ..counted }
        } else {
            PoolState { waiting: self.waiting.push(self.next_task), ..counted }
        }
    }

    /// After `n` asynchronous tasks were spawned, one after the other.
    pub open spec fn async_spawned_n(self, n: nat) -> PoolState
        decreases n,
    {
        if n == 0 {
            self
        } else {
            self.async_spawned_n((n - 1) as nat).async_spawned()
        }
    }

    /// How many of the next `n` asynchronous tasks start at once: the first ones, as
    /// many as may be in progress besides those that are.
    pub open spec fn starting(self, n: nat) -> nat {
        match self.config.max_pending {
            Some(limit) => if n <= limit - self.in_progress {
                n
            } else {
                (limit - self.in_progress) as nat
            },
            None => n,
        }
    }

    /// After an asynchronous task that was in progress ended: the one that waited
    /// longest, if any, takes its place.
    pub open spec fn async_ended(self) -> PoolState {
        let counted = PoolState { active: usize_specs::wrapping_sub(self.active, 1), ..self };
        if self.waiting.len() > 0 {
            PoolState { waiting: self.waiting.drop_first(), ..counted }
        } else {
            PoolState { in_progress: usize_specs::wrapping_sub(self.in_progress, 1), ..counted }
        }
    }

    /// After the waiting asynchronous task at place `k` was given up.
    pub open spec fn given_up(self, k: int) -> PoolState {
        PoolState {
            active: usize_specs::wrapping_sub(self.active, 1),
            waiting: self.waiting.remove(k),
            ..self
        }
    }

    /// After the task of worker `id` reported how it ended; that is counted while
    /// metrics are on.
    pub open spec fn reported(self, id: int, ok: bool) -> PoolState {
        PoolState {
            completed: if self.config.enable_metrics && ok {
                usize_specs::wrapping_add(self.completed, 1)
            } else {
                self.completed
            },
            failed: if self.config.enable_metrics && !ok {
                usize_specs::wrapping_add(self.failed, 1)
            } else {
                self.failed
            },
            ..self
        }.with_worker(
            id,
            WorkerState {
                phase: WorkerPhase::Delivered(self.workers[id].phase->Running_0),
                ..self.workers[id]
            },
        )
    }

    /// With worker `id` in the state `worker`.
    pub open spec fn with_worker(self, id: int, worker: WorkerState) -> PoolState {
        PoolState { workers: self.workers.update(id, worker), ..self }
    }

    /// A worker that finds nothing steals from others.
    pub open spec fn steals(self) -> bool {
        self.config.enable_work_stealing && self.workers.len() > 1
    }

    /// After worker `id` began its loop, with its random numbers seeded.
    pub open spec fn started(self, id: int, seed: u64) -> PoolState {
        self.with_worker(
            id,
            WorkerState { phase: WorkerPhase::Searching, random: seed, ..self.workers[id] },
        )
    }

    /// A deque or an overflow queue of worker `v` holds a task.
    pub open spec fn has_tasks(self, v: int) -> bool {
        self.locals[v].len() > 0 || self.injectors[v].len() > 0
    }

    /// Draws other workers at random, no more than `tries` times, until one has tasks:
    /// the random state then, and that worker.
    pub open spec fn drawn(self, id: int, random: u64, tries: nat) -> (u64, Option<int>)
        decreases tries,
    {
        if tries == 0 {
            (random, None)
        } else {
            let next = next_random(random);
            let v = steal_target(next, self.workers.len());
            if v != id && self.has_tasks(v) {
                (next, Some(v))
            } else {
                self.drawn(id, next, (tries - 1) as nat)
            }
        }
    }

    /// The first worker from `from` on, other than `id`, that has tasks.
    pub open spec fn next_victim(self, id: int, from: int) -> Option<int>
        decreases self.workers.len() - from,
    {
        if from >= self.workers.len() {
            None
        } else if from != id && self.has_tasks(from) {
            Some(from)
        } else {
            self.next_victim(id, from + 1)
        }
    }

    /// The worker that worker `id` steals from: one drawn at random that has tasks, or
    /// else the first that has.
    pub open spec fn victim(self, id: int) -> Option<int> {
        let worker = self.workers[id];
        if !self.steals() {
            None
        } else {
            match self.drawn(id, worker.random, steal_budget(worker.steal_attempts)).1 {
                Some(v) => Some(v),
                None => self.next_victim(id, 0),
            }
        }
    }

    /// After worker `id` looked for another worker to steal from.
    pub open spec fn looked(self, id: int) -> PoolState {
        let worker = self.workers[id];
        if !self.steals() {
            self
        } else {
            self.with_worker(
                id,
                WorkerState {
                    random: self.drawn(
                        id,
                        worker.random,
                        steal_budget(worker.steal_attempts),
                    ).0,
                    ..worker
                },
            )
        }
    }

    /// With worker `id` running `task`.
    pub open spec fn runs(self, id: int, task: u64) -> PoolState {
        self.with_worker(
            id,
            WorkerState { phase: WorkerPhase::Running(task), ..self.workers[id] },
        )
    }

    /// A try at the overflow queue of worker `v` may bring `overflow`.
    pub open spec fn overflow_may_bring(self, v: int, overflow: Overflow) -> bool {
        match overflow {
            Overflow::Task(task) => self.injectors[v].len() > 0 && task == self.injectors[v][0],
            Overflow::Empty => self.injectors[v].len() == 0,
            Overflow::Busy => self.injectors[v].len() > 0,
        }
    }

    /// After a try at the overflow queue of worker `v` brought `overflow`.
    pub open spec fn after_overflow(self, v: int, overflow: Overflow) -> PoolState {
        match overflow {
            Overflow::Task(_) => PoolState {
                injectors: self.injectors.update(v, self.injectors[v].drop_first()),
                ..self
            },
            _ => self,
        }
    }

    /// After worker `id` took the oldest task of the deque of worker `v`, its own or
    /// another's.
    pub open spec fn took_local(self, id: int, v: int) -> PoolState {
        PoolState {
            locals: self.locals.update(v, self.locals[v].drop_first()),
            ..self
        }.runs(id, self.locals[v][0])
    }

    /// After worker `id` took the oldest task of the overflow queue of worker `v`, its
    /// own or another's.
    pub open spec fn took_overflow(self, id: int, v: int) -> PoolState {
        self.after_overflow(v, Overflow::Task(self.injectors[v][0])).runs(
            id,
            self.injectors[v][0],
        )
    }

    /// After worker `id` took the oldest task of the bounded queue.
    pub open spec fn took_global(self, id: int) -> PoolState {
        PoolState {
            global: self.global.drop_first(),
            queued: (self.queued - 1) as usize,
            ..self
        }.runs(id, self.global[0])
    }

    /// After worker `id`, that found nothing anywhere, parked.
    pub open spec fn rests(self, id: int) -> PoolState {
        PoolState { idle: (self.idle + 1) as usize, ..self }.with_worker(
            id,
            WorkerState {
                phase: WorkerPhase::Parked,
                steal_attempts: if self.steals() {
                    (self.workers[id].steal_attempts + 1) as u32
                } else {
                    self.workers[id].steal_attempts
                },
                ..self.workers[id]
            },
        )
    }

    /// What worker `id` does once a try at another's overflow queue brought `overflow`:
    /// it runs the task, or looks again.
    pub open spec fn steal_action(overflow: Overflow) -> WorkerAction {
        match overflow {
            Overflow::Task(task) => WorkerAction::Run(task),
            _ => WorkerAction::Retry,
        }
    }

    /// After worker `id` did that.
    pub open spec fn steal_settled(self, id: int, overflow: Overflow) -> PoolState {
        match overflow {
            Overflow::Task(task) => self.runs(id, task),
            _ => self,
        }
    }

    /// A try of worker `id` at the queues of worker `v` leads from this state to `post`,
    /// and the worker is told to do `action`: the deque comes before the overflow
    /// queue.
    pub open spec fn steals_from(
        self,
        post: PoolState,
        id: int,
        v: int,
        action: WorkerAction,
    ) -> bool {
        if self.locals[v].len() > 0 {
            action == WorkerAction::Run(self.locals[v][0]) && post == self.took_local(id, v)
        } else {
            exists|overflow: Overflow| #[trigger]
                self.overflow_may_bring(v, overflow) && action == Self::steal_action(overflow)
                    && post == self.after_overflow(v, overflow).steal_settled(id, overflow)
        }
    }

    /// The search of worker `id`, whose try at its own overflow queue brought
    /// `overflow`, leads from this state to `post`, and the worker is told to do
    /// `action`.
    ///
    /// A task from the overflow queue is run. Else the oldest of the bounded queue is
    /// run. Else the worker steals from another that has tasks, if it may. Where there
    /// is nothing to steal it parks, unless one of its own queues has a task after all:
    /// then it looks again.
    pub open spec fn searched(
        self,
        post: PoolState,
        id: int,
        overflow: Overflow,
        action: WorkerAction,
    ) -> bool {
        if overflow is Task {
            action == WorkerAction::Run(overflow->Task_0) && post == self.runs(
                id,
                overflow->Task_0,
            )
        } else if self.global.len() > 0 {
            action == WorkerAction::Run(self.global[0]) && post == self.took_global(id)
        } else {
            match self.victim(id) {
                Some(v) => self.looked(id).steals_from(post, id, v, action),
                None => if overflow is Busy || self.has_tasks(id) {
                    action == WorkerAction::Retry && post == self.looked(id)
                } else {
                    action == WorkerAction::Park && post == self.looked(id).rests(id)
                },
            }
        }
    }

    /// With the batch of worker `id` begun anew where it was used up.
    pub open spec fn with_fresh_batch(self, id: int) -> PoolState {
        self.with_worker(id, self.workers[id].with_fresh_batch())
    }

    /// One turn of the loop of worker `id` leads from this state to `post`, and the
    /// worker is told to do `action`.
    ///
    /// A worker that used up its batch leaves where the pool was cancelled. Else it
    /// takes the oldest task of its deque. Else it tries its overflow queue, which
    /// brings something that it may bring, and goes on with that.
    pub open spec fn turn(self, post: PoolState, id: int, action: WorkerAction) -> bool {
        if self.workers[id].completed_batch >= BATCH_SIZE && self.cancelled {
            &&& action is Stop
            &&& post == self.with_worker(
                id,
                WorkerState { phase: WorkerPhase::Stopped, ..self.workers[id] },
            )
        } else if self.locals[id].len() > 0 {
            &&& action == WorkerAction::Run(self.locals[id][0])
            &&& post == self.with_fresh_batch(id).took_local(id, id)
        } else {
            exists|overflow: Overflow| #[trigger]
                self.overflow_may_bring(id, overflow) && self.with_fresh_batch(id).after_overflow(
                    id,
                    overflow,
                ).searched(post, id, overflow, action)
        }
    }

    /// After the task of worker `id` ended, which had reported.
    pub open spec fn retired(self, id: int) -> PoolState {
        PoolState { active: usize_specs::wrapping_sub(self.active, 1), ..self }.with_worker(
            id,
            WorkerState {
                phase: WorkerPhase::Searching,
                completed_batch: (self.workers[id].completed_batch + 1) as usize,
                steal_attempts: 0,
                ..self.workers[id]
            },
        )
    }

    /// After the parked worker `id` was notified.
    pub open spec fn woken(self, id: int) -> PoolState {
        PoolState { idle: (self.idle - 1) as usize, ..self }.with_worker(
            id,
            WorkerState {
                phase: WorkerPhase::Searching,
                completed_batch: 0,
                steal_attempts: 0,
                ..self.workers[id]
            },
        )
    }

    /// After the parked worker `id` saw the pool's cancellation.
    pub open spec fn left(self, id: int) -> PoolState {
        PoolState { idle: (self.idle - 1) as usize, ..self }.with_worker(
            id,
            WorkerState { phase: WorkerPhase::Stopped, ..self.workers[id] },
        )
    }

    /// The counters that the pool shows.
    pub open spec fn metrics(self) -> PoolMetrics {
        PoolMetrics {
            active_tasks: self.active,
            idle_workers: self.idle,
            queued_tasks: self.queued,
            total_spawned: self.total_spawned,
            completed_tasks: self.completed,
            failed_tasks: self.failed,
        }
    }
}

/// One step of a pool.
pub enum PoolStep {
    /// A blocking task was spawned.
    Spawned,
    /// A worker began its loop.
    Started { id: int, seed: u64 },
    /// A worker searched.
    Turned { id: int, action: WorkerAction },
    /// The task of a worker ended, after its report.
    Ended { id: int },
    /// A parked worker was notified.
    Notified { id: int },
    /// A parked worker saw the cancellation.
    Left { id: int },
    /// The task of a worker reported how it ended.
    Reported { id: int, ok: bool },
    /// An asynchronous task was spawned.
    AsyncSpawned,
    /// An asynchronous task that was in progress ended.
    AsyncEnded,
    /// The waiting asynchronous task at a place was given up.
    GivenUp { place: int },
    /// The pool was cancelled.
    Cancelled,
}

impl PoolState {
    /// There is a worker `id`.
    pub open spec fn has_worker(self, id: int) -> bool {
        0 <= id < self.workers.len()
    }

    /// `step` leads from this state to `post`.
    pub open spec fn steps_to(self, post: PoolState, step: PoolStep) -> bool {
        match step {
            PoolStep::Spawned => self.can_take(1) && post == self.spawned(),
            PoolStep::Started { id, seed } => self.has_worker(id)
                && self.workers[id].phase is Starting && post == self.started(id, seed),
            PoolStep::Turned { id, action } => self.has_worker(id)
                && self.workers[id].phase is Searching && self.turn(post, id, action),
            PoolStep::Ended { id } => self.has_worker(id) && self.workers[id].phase is Delivered
                && post == self.retired(id),
            PoolStep::Notified { id } => self.has_worker(id) && self.workers[id].phase is Parked
                && post == self.woken(id),
            PoolStep::Left { id } => self.has_worker(id) && self.workers[id].phase is Parked
                && self.cancelled && post == self.left(id),
            PoolStep::Reported { id, ok } => self.has_worker(id)
                && self.workers[id].phase is Running && post == self.reported(id, ok),
            PoolStep::AsyncSpawned => post == self.async_spawned(),
            PoolStep::AsyncEnded => self.in_progress > 0 && post == self.async_ended(),
            PoolStep::GivenUp { place } => 0 <= place < self.waiting.len() && post
                == self.given_up(place),
            PoolStep::Cancelled => post == (PoolState { cancelled: true, ..self }),
        }
    }
}

/// `steps` lead from one state of `trace` to the next.
pub open spec fn is_run(trace: Seq<PoolState>, steps: Seq<PoolStep>) -> bool {
    &&& trace.len() == steps.len() + 1
    &&& forall|i: int|
        0 <= i < steps.len() ==> trace[i].steps_to(trace[i + 1], #[trigger] steps[i])
}

} // verus!
