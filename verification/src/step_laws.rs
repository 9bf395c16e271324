//! What each step of a pool does, told by what it changes and what it leaves alone.
use crate::config::{queue_capacity, Config};
use crate::pool_laws::{
    law_parked_worker_gets_notified, law_step_keeps_the_tasks, law_victim_is_found,
    lemma_async_spawned_n, lemma_last_step, lemma_spawned_n, lemma_steal_brings, lemma_turn_frame,
    lemma_turn_search, lemma_worker_replaced,
};
use crate::state::{is_run, PoolState, PoolStep};
use crate::worker::{
    next_random, steal_target, Overflow, WorkerAction, WorkerPhase, WorkerState,
};
use vstd::prelude::*;
use vstd::wrapping::{u64_specs, usize_specs};

verus! {

/// A new pool, whatever its configuration, is not cancelled; it holds no task and has
/// counted none; its workers are as many as were asked for, each with two empty queues
/// of its own, and none has begun.
pub proof fn law_new_pool_is_ready(config: Config)
    ensures
        ({
            let state = PoolState::initial(config);
            &&& state.config == config
            &&& !state.cancelled
            &&& state.global.len() == 0
            &&& state.waiting.len() == 0
            &&& state.in_progress == 0
            &&& state.active == 0
            &&& state.idle == 0
            &&& state.queued == 0
            &&& state.total_spawned == 0
            &&& state.completed == 0
            &&& state.failed == 0
            &&& state.next_task == 0
            &&& state.next_worker == 0
            &&& state.workers.len() == config.num_threads
            &&& state.injectors.len() == config.num_threads
            &&& state.locals.len() == config.num_threads
            &&& forall|id: int|
                0 <= id < config.num_threads ==> (#[trigger] state.workers[id]).phase is Starting
                    && state.workers[id].completed_batch == 0
                    && state.workers[id].steal_attempts == 0
            &&& forall|id: int|
                0 <= id < config.num_threads ==> #[trigger] state.injectors[id].len() == 0
            &&& forall|id: int|
                0 <= id < config.num_threads ==> #[trigger] state.locals[id].len() == 0
        }),
{
}

/// As long as nobody cancels it, a pool is not cancelled and none of its workers leaves
/// its loop, whatever other steps it takes.
pub proof fn law_uncancelled_pool_keeps_its_workers(
    config: Config,
    trace: Seq<PoolState>,
    steps: Seq<PoolStep>,
)
    requires
        is_run(trace, steps),
        trace[0] == PoolState::initial(config),
        forall|i: int| 0 <= i < steps.len() ==> !(#[trigger] steps[i] is Cancelled),
    ensures
        !trace.last().cancelled,
        trace.last().workers.len() == config.num_threads,
        forall|id: int|
            0 <= id < trace.last().workers.len() ==> !((
            #[trigger] trace.last().workers[id]).phase is Stopped),
    decreases steps.len(),
{
    if steps.len() > 0 {
        let n = steps.len() - 1;
        lemma_last_step(trace, steps);
        law_uncancelled_pool_keeps_its_workers(config, trace.drop_last(), steps.drop_last());
        let before = trace[n];
        let state = trace.last();
        assert(!(steps[n] is Cancelled));
        if let PoolStep::Turned { id, action } = steps[n] {
            lemma_turn_frame(before, state, id, action);
        }
        assert forall|id: int| 0 <= id < state.workers.len() implies !((
        #[trigger] state.workers[id]).phase is Stopped) by {
            assert(!(before.workers[id].phase is Stopped));
        }
    }
}

/// A pool has a place for any number of tasks while it has a worker; without one, for as
/// many as its bounded queue has room for, which is `max_pending` or ten thousand.
pub proof fn law_room_is_what_is_left(state: PoolState, n: int)
    ensures
        state.workers.len() > 0 ==> state.can_take(n),
        state.workers.len() == 0 ==> (state.can_take(n) <==> state.global.len() + n
            <= match state.config.max_pending {
            Some(limit) => limit as int,
            None => 10_000,
        }),
{
}

/// A task that comes in goes behind all others of one queue: of the bounded queue while
/// that holds fewer tasks than `max_pending`, or ten thousand, else of the overflow queue
/// of the worker whose turn it is. The turn then passes on. Nothing else changes.
pub proof fn law_task_comes_in_behind_the_others(state: PoolState, task: u64)
    requires
        state.wf(),
        state.can_take(1),
    ensures
        ({
            let post = state.pushed(task);
            let capacity: int = match state.config.max_pending {
                Some(limit) => limit as int,
                None => 10_000,
            };
            let turn = state.next_worker as int % state.workers.len() as int;
            if state.global.len() < capacity {
                &&& post == (PoolState { global: post.global, queued: post.queued, ..state })
                &&& post.global.len() == state.global.len() + 1
                &&& post.global.last() == task
                &&& post.global.drop_last() == state.global
                &&& post.queued == state.queued + 1
            } else {
                &&& post == (PoolState {
                    injectors: post.injectors,
                    next_worker: usize_specs::wrapping_add(state.next_worker, 1),
                    ..state
                })
                &&& post.injectors.len() == state.injectors.len()
                &&& 0 <= turn < state.injectors.len()
                &&& post.injectors[turn].len() == state.injectors[turn].len() + 1
                &&& post.injectors[turn].last() == task
                &&& post.injectors[turn].drop_last() == state.injectors[turn]
                &&& forall|id: int|
                    0 <= id < state.injectors.len() && id != turn ==> #[trigger] post.injectors[id]
                        == state.injectors[id]
            }
        }),
{
    let post = state.pushed(task);
    if state.global.len() < queue_capacity(state.config) {
        assert(post.global.drop_last() =~= state.global);
    } else {
        let turn = state.next_worker as int % state.workers.len() as int;
        assert(0 <= turn < state.workers.len()) by (nonlinear_arith)
            requires
                0 < state.workers.len(),
                turn == state.next_worker as int % state.workers.len() as int,
        ;
        assert(post.injectors[turn].drop_last() =~= state.injectors[turn]);
    }
}

/// A spawned blocking task gets the next name, is active from then on, is counted as
/// spawned while metrics are on, and comes in behind the others. It changes nothing else:
/// no worker, no deque, no asynchronous task, no count of ended tasks.
pub proof fn law_blocking_task_comes_in(state: PoolState)
    requires
        state.wf(),
        state.can_take(1),
    ensures
        ({
            let post = state.spawned();
            let capacity: int = match state.config.max_pending {
                Some(limit) => limit as int,
                None => 10_000,
            };
            let turn = state.next_worker as int % state.workers.len() as int;
            &&& post.active == usize_specs::wrapping_add(state.active, 1)
            &&& post.next_task == u64_specs::wrapping_add(state.next_task, 1)
            &&& post.total_spawned == if state.config.enable_metrics {
                usize_specs::wrapping_add(state.total_spawned, 1)
            } else {
                state.total_spawned
            }
            &&& post == (PoolState {
                global: post.global,
                injectors: post.injectors,
                next_worker: post.next_worker,
                next_task: post.next_task,
                active: post.active,
                total_spawned: post.total_spawned,
                queued: post.queued,
                ..state
            })
            &&& post.in_flight() == state.in_flight().insert(state.next_task)
            &&& if state.global.len() < capacity {
                &&& post.global.len() == state.global.len() + 1
                &&& post.global.last() == state.next_task
                &&& post.global.drop_last() == state.global
                &&& post.injectors == state.injectors
            } else {
                &&& post.global == state.global
                &&& post.injectors[turn].len() == state.injectors[turn].len() + 1
                &&& post.injectors[turn].last() == state.next_task
                &&& post.injectors[turn].drop_last() == state.injectors[turn]
                &&& forall|id: int|
                    0 <= id < state.injectors.len() && id != turn ==> #[trigger] post.injectors[id]
                        == state.injectors[id]
            }
        }),
{
    let counted = PoolState {
        active: usize_specs::wrapping_add(state.active, 1),
        total_spawned: if state.config.enable_metrics {
            usize_specs::wrapping_add(state.total_spawned, 1)
        } else {
            state.total_spawned
        },
        next_task: u64_specs::wrapping_add(state.next_task, 1),
        ..state
    };
    assert(counted.wf());
    law_task_comes_in_behind_the_others(counted, state.next_task);
    law_step_keeps_the_tasks(state, state.spawned(), PoolStep::Spawned);
}

/// Spawning `n` blocking tasks brings `n` new tasks into the pool, under the next `n`
/// names, each once: that many more are active, and counted as spawned while metrics are
/// on. The numbers are taken to fit their counters. Workers, deques and asynchronous
/// tasks stay as they are.
pub proof fn law_spawning_brings_every_task_in(state: PoolState, n: nat)
    requires
        state.wf(),
        state.can_take(n as int),
        state.next_task + n <= u64::MAX,
        state.active + n <= usize::MAX,
        state.total_spawned + n <= usize::MAX,
    ensures
        ({
            let post = state.spawned_n(n);
            &&& post.wf()
            &&& post.in_flight() == state.in_flight().add(
                Seq::new(n, |i: int| (state.next_task + i) as u64).to_multiset(),
            )
            &&& post.in_flight().len() == state.in_flight().len() + n
            &&& post.next_task == state.next_task + n
            &&& post.active == state.active + n
            &&& post.total_spawned == state.total_spawned + if state.config.enable_metrics {
                n as int
            } else {
                0
            }
            &&& post == (PoolState {
                global: post.global,
                injectors: post.injectors,
                next_worker: post.next_worker,
                next_task: post.next_task,
                active: post.active,
                total_spawned: post.total_spawned,
                queued: post.queued,
                ..state
            })
        }),
    decreases n,
{
    broadcast use vstd::multiset::group_multiset_axioms;

    let names = Seq::new(n, |i: int| (state.next_task + i) as u64);
    names.to_multiset_ensures();
    lemma_spawned_n(state, n);
    if n == 0 {
        assert(names =~= Seq::<u64>::empty());
        assert(state.in_flight().add(names.to_multiset()) =~= state.in_flight());
    } else {
        let m = (n - 1) as nat;
        let before = state.spawned_n(m);
        let fewer = Seq::new(m, |i: int| (state.next_task + i) as u64);
        law_spawning_brings_every_task_in(state, m);
        lemma_spawned_n(state, m);
        law_blocking_task_comes_in(before);
        fewer.to_multiset_ensures();
        assert(names =~= fewer.push(before.next_task));
        assert(state.in_flight().add(names.to_multiset()) =~= state.in_flight().add(
            fewer.to_multiset(),
        ).insert(before.next_task));
    }
}

/// A spawned asynchronous task gets the next name and is active from then on. It starts
/// where no limit is set or fewer are in progress than the limit; else it waits behind
/// the others that wait. Nothing else changes.
pub proof fn law_async_task_starts_or_waits(state: PoolState)
    ensures
        ({
            let post = state.async_spawned();
            let starts = state.config.max_pending is None || state.in_progress
                < state.config.max_pending->Some_0;
            &&& state.may_start() == starts
            &&& post.active == usize_specs::wrapping_add(state.active, 1)
            &&& post.next_task == u64_specs::wrapping_add(state.next_task, 1)
            &&& post == (PoolState {
                next_task: post.next_task,
                active: post.active,
                in_progress: post.in_progress,
                waiting: post.waiting,
                ..state
            })
            &&& if starts {
                &&& post.in_progress == usize_specs::wrapping_add(state.in_progress, 1)
                &&& post.waiting == state.waiting
            } else {
                &&& post.in_progress == state.in_progress
                &&& post.waiting.len() == state.waiting.len() + 1
                &&& post.waiting.last() == state.next_task
                &&& post.waiting.drop_last() == state.waiting
            }
        }),
{
    assert(state.waiting.push(state.next_task).drop_last() =~= state.waiting);
}

/// Of `n` asynchronous tasks that are spawned, under the next `n` names, the first start,
/// as many as the limit leaves room for, or all where none is set; the others wait, in
/// their order, behind those that waited. All are active. The numbers are taken to fit
/// their counters.
pub proof fn law_spawning_starts_the_first_tasks(state: PoolState, n: nat)
    requires
        state.wf(),
        state.next_task + n <= u64::MAX,
        state.active + n <= usize::MAX,
        state.in_progress + n <= usize::MAX,
    ensures
        ({
            let post = state.async_spawned_n(n);
            let first: int = match state.config.max_pending {
                Some(limit) => if n <= limit - state.in_progress {
                    n as int
                } else {
                    limit - state.in_progress
                },
                None => n as int,
            };
            &&& post.wf()
            &&& state.starting(n) == first
            &&& 0 <= first <= n
            &&& post.next_task == state.next_task + n
            &&& post.active == state.active + n
            &&& post.in_progress == state.in_progress + first
            &&& post.waiting == state.waiting + Seq::new(
                (n - first) as nat,
                |i: int| (state.next_task + first + i) as u64,
            )
            &&& post == (PoolState {
                next_task: post.next_task,
                active: post.active,
                in_progress: post.in_progress,
                waiting: post.waiting,
                ..state
            })
        }),
    decreases n,
{
    lemma_async_spawned_n(state, n);
    let first: int = state.starting(n) as int;
    let late = Seq::new((n - first) as nat, |i: int| (state.next_task + first + i) as u64);
    if n == 0 {
        assert(state.waiting + late =~= state.waiting);
    } else {
        let m = (n - 1) as nat;
        law_spawning_starts_the_first_tasks(state, m);
        lemma_async_spawned_n(state, m);
        let before = state.async_spawned_n(m);
        law_async_task_starts_or_waits(before);
        let sooner: int = state.starting(m) as int;
        let fewer = Seq::new((m - sooner) as nat, |i: int| (state.next_task + sooner + i) as u64);
        if before.may_start() {
            assert(fewer =~= Seq::<u64>::empty());
            assert(late =~= Seq::<u64>::empty());
        } else {
            assert(late =~= fewer.push(before.next_task));
        }
        assert(state.async_spawned_n(n).waiting =~= state.waiting + late);
    }
}

/// The end of an asynchronous task in progress makes one task less active. The one that
/// waited longest, if any, takes its place, and the others go on waiting in their order;
/// else one less is in progress. Nothing else changes.
pub proof fn law_async_end_lets_the_next_start(state: PoolState)
    requires
        state.in_progress > 0,
        state.active > 0,
    ensures
        ({
            let post = state.async_ended();
            &&& post.active == state.active - 1
            &&& post == (PoolState {
                active: post.active,
                in_progress: post.in_progress,
                waiting: post.waiting,
                ..state
            })
            &&& if state.waiting.len() > 0 {
                &&& post.in_progress == state.in_progress
                &&& state.waiting == seq![state.waiting[0]] + post.waiting
            } else {
                &&& post.in_progress == state.in_progress - 1
                &&& post.waiting.len() == 0
            }
        }),
{
    if state.waiting.len() > 0 {
        assert(state.waiting =~= seq![state.waiting[0]] + state.async_ended().waiting);
    }
}

/// Giving up a waiting task makes one task less active and takes that one out of those
/// that wait, which keep their order. Nothing else changes.
pub proof fn law_given_up_task_is_gone(state: PoolState, place: int)
    requires
        0 <= place < state.waiting.len(),
        state.active > 0,
    ensures
        ({
            let post = state.given_up(place);
            &&& post.active == state.active - 1
            &&& post == (PoolState { active: post.active, waiting: post.waiting, ..state })
            &&& post.waiting.len() == state.waiting.len() - 1
            &&& forall|k: int| 0 <= k < place ==> #[trigger] post.waiting[k] == state.waiting[k]
            &&& forall|k: int|
                place <= k < post.waiting.len() ==> #[trigger] post.waiting[k] == state.waiting[k
                    + 1]
        }),
{
}

/// The report of a worker's task counts it by how it ended, once, while metrics are on,
/// and leaves the task in the worker's hand. Nothing else changes.
pub proof fn law_report_counts_how_the_task_ended(state: PoolState, id: int, ok: bool)
    requires
        state.has_worker(id),
        state.workers[id].phase is Running,
        state.completed < usize::MAX,
        state.failed < usize::MAX,
    ensures
        ({
            let post = state.reported(id, ok);
            &&& post == (PoolState {
                workers: post.workers,
                completed: post.completed,
                failed: post.failed,
                ..state
            })
            &&& post.completed == state.completed + if ok && state.config.enable_metrics {
                1int
            } else {
                0
            }
            &&& post.failed == state.failed + if !ok && state.config.enable_metrics {
                1int
            } else {
                0
            }
            &&& post.workers.len() == state.workers.len()
            &&& forall|v: int|
                0 <= v < state.workers.len() && v != id ==> #[trigger] post.workers[v]
                    == state.workers[v]
            &&& post.workers[id].phase == WorkerPhase::Delivered(
                state.workers[id].phase->Running_0,
            )
            &&& post.workers[id] == (WorkerState {
                phase: post.workers[id].phase,
                ..state.workers[id]
            })
        }),
{
}

/// The end of a worker's task makes one task less active and sends the worker back to
/// its search, with one task more in its batch. Nothing else changes.
pub proof fn law_end_sends_the_worker_searching(state: PoolState, id: int)
    requires
        state.wf(),
        state.has_worker(id),
        state.workers[id].phase is Delivered,
        state.active > 0,
    ensures
        ({
            let post = state.retired(id);
            &&& post.active == state.active - 1
            &&& post == (PoolState { active: post.active, workers: post.workers, ..state })
            &&& post.workers.len() == state.workers.len()
            &&& forall|v: int|
                0 <= v < state.workers.len() && v != id ==> #[trigger] post.workers[v]
                    == state.workers[v]
            &&& post.workers[id].phase is Searching
            &&& post.workers[id].completed_batch == state.workers[id].completed_batch + 1
            &&& post.workers[id].steal_attempts == 0
            &&& post.workers[id].random == state.workers[id].random
        }),
{
    assert(state.workers[id].wf());
}

/// A worker that begins its loop searches next, with the random numbers that follow its
/// seed. Nothing else changes.
pub proof fn law_started_worker_searches(state: PoolState, id: int, seed: u64)
    requires
        state.has_worker(id),
    ensures
        ({
            let post = state.started(id, seed);
            &&& post == (PoolState { workers: post.workers, ..state })
            &&& post.workers.len() == state.workers.len()
            &&& forall|v: int|
                0 <= v < state.workers.len() && v != id ==> #[trigger] post.workers[v]
                    == state.workers[v]
            &&& post.workers[id].phase is Searching
            &&& post.workers[id].random == seed
            &&& post.workers[id].completed_batch == state.workers[id].completed_batch
            &&& post.workers[id].steal_attempts == state.workers[id].steal_attempts
        }),
{
}

/// A parked worker that is notified is no longer idle; it searches next, its batch begun
/// anew. One that sees the cancellation is no longer idle either, and has left its loop.
/// Nothing else changes.
pub proof fn law_parked_worker_wakes_or_leaves(state: PoolState, id: int)
    requires
        state.wf(),
        state.has_worker(id),
        state.workers[id].phase is Parked,
    ensures
        ({
            let post = state.woken(id);
            &&& post == (PoolState { idle: post.idle, workers: post.workers, ..state })
            &&& post.idle == state.idle - 1
            &&& post.workers.len() == state.workers.len()
            &&& forall|v: int|
                0 <= v < state.workers.len() && v != id ==> #[trigger] post.workers[v]
                    == state.workers[v]
            &&& post.workers[id].phase is Searching
            &&& post.workers[id].completed_batch == 0
            &&& post.workers[id].steal_attempts == 0
            &&& post.workers[id].random == state.workers[id].random
        }),
        ({
            let post = state.left(id);
            &&& post == (PoolState { idle: post.idle, workers: post.workers, ..state })
            &&& post.idle == state.idle - 1
            &&& post.workers.len() == state.workers.len()
            &&& forall|v: int|
                0 <= v < state.workers.len() && v != id ==> #[trigger] post.workers[v]
                    == state.workers[v]
            &&& post.workers[id].phase is Stopped
        }),
{
    law_parked_worker_gets_notified(state, id);
}

/// The pool shows its own counts, each under its own name.
pub proof fn law_pool_shows_its_counts(state: PoolState)
    ensures
        state.metrics().active_tasks == state.active,
        state.metrics().idle_workers == state.idle,
        state.metrics().queued_tasks == state.queued,
        state.metrics().total_spawned == state.total_spawned,
        state.metrics().completed_tasks == state.completed,
        state.metrics().failed_tasks == state.failed,
{
}

/// A turn that runs a task takes the oldest task of exactly one queue, and leaves every
/// other queue as it is. The worker's own deque comes first. Then come its own overflow
/// queue and the bounded queue; and another worker's queue only where stealing is on and
/// the bounded queue is empty. The worker has the task in hand; no other worker changes,
/// and no count but that of the bounded queue.
pub proof fn law_turn_takes_the_oldest_task(state: PoolState, post: PoolState, id: int, task: u64)
    requires
        state.wf(),
        state.has_worker(id),
        state.workers[id].phase is Searching,
        state.turn(post, id, WorkerAction::Run(task)),
    ensures
        post == (PoolState {
            global: post.global,
            injectors: post.injectors,
            locals: post.locals,
            workers: state.workers.update(id, post.workers[id]),
            queued: post.queued,
            ..state
        }),
        post.workers[id].phase == WorkerPhase::Running(task),
        post.workers[id].completed_batch == if state.workers[id].completed_batch >= 16 {
            0
        } else {
            state.workers[id].completed_batch as int
        },
        ({
            ||| {
                &&& state.locals[id].len() > 0
                &&& state.locals[id] == seq![task] + post.locals[id]
                &&& post.locals == state.locals.update(id, post.locals[id])
                &&& post.injectors == state.injectors
                &&& post.global == state.global
                &&& post.queued == state.queued
            }
            ||| {
                &&& state.locals[id].len() == 0
                &&& state.injectors[id] == seq![task] + post.injectors[id]
                &&& post.injectors == state.injectors.update(id, post.injectors[id])
                &&& post.locals == state.locals
                &&& post.global == state.global
                &&& post.queued == state.queued
            }
            ||| {
                &&& state.locals[id].len() == 0
                &&& state.global == seq![task] + post.global
                &&& post.queued == state.queued - 1
                &&& post.locals == state.locals
                &&& post.injectors == state.injectors
            }
            ||| {
                &&& state.locals[id].len() == 0
                &&& state.global.len() == 0
                &&& state.config.enable_work_stealing
                &&& post.global == state.global
                &&& post.queued == state.queued
                &&& exists|v: int| #[trigger]
                    state.has_worker(v) && v != id && {
                        ||| {
                            &&& state.locals[v] == seq![task] + post.locals[v]
                            &&& post.locals == state.locals.update(v, post.locals[v])
                            &&& post.injectors == state.injectors
                        }
                        ||| {
                            &&& state.locals[v].len() == 0
                            &&& state.injectors[v] == seq![task] + post.injectors[v]
                            &&& post.injectors == state.injectors.update(v, post.injectors[v])
                            &&& post.locals == state.locals
                        }
                    }
            }
        }),
{
    let action = WorkerAction::Run(task);
    lemma_turn_frame(state, post, id, action);
    if state.locals[id].len() > 0 {
        assert(state.locals[id] =~= seq![task] + post.locals[id]);
        assert(post.locals =~= state.locals.update(id, post.locals[id]));
    } else {
        let overflow = lemma_turn_search(state, post, id, action);
        let mid = state.with_fresh_batch(id).after_overflow(id, overflow);
        if overflow is Task {
            assert(state.injectors[id] =~= seq![task] + post.injectors[id]);
            assert(post.injectors =~= state.injectors.update(id, post.injectors[id]));
        } else if state.global.len() > 0 {
            assert(state.global =~= seq![task] + post.global);
        } else {
            law_victim_is_found(mid, id);
            let v = mid.victim(id)->Some_0;
            lemma_steal_brings(mid.looked(id), post, id, v, action);
            assert(state.has_worker(v));
            if state.locals[v].len() > 0 {
                assert(state.locals[v] =~= seq![task] + post.locals[v]);
                assert(post.locals =~= state.locals.update(v, post.locals[v]));
            } else {
                assert(state.injectors[v] =~= seq![task] + post.injectors[v]);
                assert(post.injectors =~= state.injectors.update(v, post.injectors[v]));
            }
        }
    }
}

/// A turn that runs no task leaves every queue as it is. A worker that parks is one more
/// that is idle; one that looks again goes on searching; one that stops had ended sixteen
/// tasks in a row in a pool that was cancelled, and in such a pool every turn of it stops.
pub proof fn law_turn_without_a_task_leaves_the_queues(
    state: PoolState,
    post: PoolState,
    id: int,
    action: WorkerAction,
)
    requires
        state.wf(),
        state.has_worker(id),
        state.workers[id].phase is Searching,
        state.turn(post, id, action),
        !(action is Run),
    ensures
        post == (PoolState {
            workers: state.workers.update(id, post.workers[id]),
            idle: post.idle,
            ..state
        }),
        action is Stop <==> state.cancelled && state.workers[id].completed_batch >= 16,
        match action {
            WorkerAction::Park => post.idle == state.idle + 1 && post.workers[id].phase is Parked,
            WorkerAction::Retry => post.idle == state.idle && post.workers[id].phase is Searching,
            WorkerAction::Stop => post.idle == state.idle && post.workers[id].phase is Stopped,
            WorkerAction::Run(_) => false,
        },
{
    assert(state.workers[id].wf());
    lemma_turn_frame(state, post, id, action);
    lemma_worker_replaced(state, id, state.workers[id], state.idle);
    if !(action is Stop) && state.locals[id].len() == 0 {
        let overflow = lemma_turn_search(state, post, id, action);
        let mid = state.with_fresh_batch(id).after_overflow(id, overflow);
        if !(overflow is Task) && state.global.len() == 0 {
            law_victim_is_found(mid, id);
            if let Some(v) = mid.victim(id) {
                let looked = mid.looked(id);
                lemma_steal_brings(looked, post, id, v, action);
                let taken = choose|taken: Overflow| #[trigger]
                    looked.overflow_may_bring(v, taken) && action == PoolState::steal_action(taken)
                        && post == looked.after_overflow(v, taken).steal_settled(id, taken);
                assert(looked.overflow_may_bring(v, taken));
            }
        }
    }
}

/// What a search does follows what the worker's own overflow queue brought. A task from
/// there is run and no queue changes. Else the oldest task of the bounded queue is run.
/// Else, and only where stealing is on, the oldest task of another worker's queue may be
/// run. The worker parks exactly where neither its own queues nor, where stealing is on,
/// those of any other have a task and its overflow queue did not ask for another try.
pub proof fn law_search_follows_the_overflow_queue(
    state: PoolState,
    post: PoolState,
    id: int,
    overflow: Overflow,
    action: WorkerAction,
)
    requires
        state.wf(),
        state.has_worker(id),
        state.workers[id].phase is Searching,
        state.workers[id].completed_batch < 16,
        state.searched(post, id, overflow, action),
    ensures
        overflow matches Overflow::Task(task) ==> action == WorkerAction::Run(task) && post == (
        PoolState { workers: state.workers.update(id, post.workers[id]), ..state })
            && post.workers[id].phase == WorkerPhase::Running(task),
        !(overflow is Task) && state.global.len() > 0 ==> {
            &&& action == WorkerAction::Run(state.global[0])
            &&& state.global == seq![state.global[0]] + post.global
            &&& post == (PoolState {
                global: post.global,
                queued: (state.queued - 1) as usize,
                workers: state.workers.update(id, post.workers[id]),
                ..state
            })
            &&& post.workers[id].phase == WorkerPhase::Running(state.global[0])
        },
        !(overflow is Task) && state.global.len() == 0 && action is Run
            ==> state.config.enable_work_stealing && exists|v: int| #[trigger]
            state.has_worker(v) && v != id && if state.locals[v].len() > 0 {
                action == WorkerAction::Run(state.locals[v][0])
            } else {
                state.injectors[v].len() > 0 && action == WorkerAction::Run(state.injectors[v][0])
            },
        action is Park <==> {
            &&& overflow is Empty
            &&& state.global.len() == 0
            &&& state.locals[id].len() == 0
            &&& state.injectors[id].len() == 0
            &&& state.config.enable_work_stealing ==> forall|v: int| #[trigger]
                state.has_worker(v) && v != id ==> state.locals[v].len() == 0
                    && state.injectors[v].len() == 0
        },
        !(action is Stop),
        action is Park ==> post.idle == state.idle + 1 && post.workers[id].phase is Parked,
        !(action is Park) ==> post.idle == state.idle,
{
    assert(state.workers[id].wf());
    lemma_worker_replaced(state, id, state.workers[id], state.idle);
    if !(overflow is Task) {
        if state.global.len() > 0 {
            assert(state.global =~= seq![state.global[0]] + post.global);
        } else {
            law_victim_is_found(state, id);
            let looked = state.looked(id);
            match state.victim(id) {
                Some(v) => {
                    lemma_steal_brings(looked, post, id, v, action);
                    assert(state.has_worker(v));
                    if action is Retry {
                        let taken = choose|taken: Overflow| #[trigger]
                            looked.overflow_may_bring(v, taken) && action
                                == PoolState::steal_action(taken) && post == looked.after_overflow(
                                v,
                                taken,
                            ).steal_settled(id, taken);
                        assert(looked.overflow_may_bring(v, taken));
                    }
                },
                None => {
                    assert forall|v: int| #[trigger]
                        state.has_worker(v) && v != id && state.config.enable_work_stealing implies
                        state.locals[v].len() == 0 && state.injectors[v].len() == 0 by {
                        assert(!state.has_tasks(v));
                    }
                },
            }
        }
    }
}

/// A try at another worker's overflow queue ends in running the task that it brought,
/// with nothing else changed, or in looking again with nothing changed at all.
pub proof fn law_steal_runs_what_it_brought(state: PoolState, id: int, overflow: Overflow)
    requires
        state.has_worker(id),
    ensures
        overflow matches Overflow::Task(task) ==> {
            let post = state.steal_settled(id, overflow);
            &&& PoolState::steal_action(overflow) == WorkerAction::Run(task)
            &&& post == (PoolState { workers: post.workers, ..state })
            &&& post.workers == state.workers.update(id, post.workers[id])
            &&& post.workers[id].phase == WorkerPhase::Running(task)
            &&& post.workers[id].completed_batch == state.workers[id].completed_batch
        },
        !(overflow is Task) ==> PoolState::steal_action(overflow) is Retry
            && state.steal_settled(id, overflow) == state,
{
}

/// A worker that steals tries the worker that its next random number points at, if that
/// is another and has tasks; if not, the one after that; and only then the first of the
/// others that has tasks.
pub proof fn law_steals_at_random_first(state: PoolState, id: int)
    requires
        state.wf(),
        state.has_worker(id),
        state.workers[id].phase is Searching,
        state.config.enable_work_stealing,
        state.workers.len() > 1,
    ensures
        ({
            let one = next_random(state.workers[id].random);
            let two = next_random(one);
            let v = steal_target(one, state.workers.len());
            let w = steal_target(two, state.workers.len());
            let busy = |u: int| u != id && (state.locals[u].len() > 0 || state.injectors[u].len() > 0);
            if busy(v) {
                state.victim(id) == Some(v) && state.looked(id).workers[id].random == one
            } else if busy(w) {
                state.victim(id) == Some(w) && state.looked(id).workers[id].random == two
            } else {
                &&& state.looked(id).workers[id].random == two
                &&& state.victim(id) matches Some(u) ==> state.has_worker(u) && busy(u)
                    && forall|t: int| 0 <= t < u ==> !#[trigger] busy(t)
                &&& state.victim(id) is None ==> forall|t: int|
                    0 <= t < state.workers.len() ==> !#[trigger] busy(t)
            }
        }),
        state.looked(id) == (PoolState {
            workers: state.workers.update(id, state.looked(id).workers[id]),
            ..state
        }),
        state.looked(id).workers[id] == (WorkerState {
            random: state.looked(id).workers[id].random,
            ..state.workers[id]
        }),
{
    assert(state.workers[id].wf());
    reveal_with_fuel(PoolState::drawn, 3);
    let busy = |u: int| u != id && (state.locals[u].len() > 0 || state.injectors[u].len() > 0);
    lemma_first_victim(state, id, 0);
    assert forall|t: int| #[trigger] busy(t) == (t != id && state.has_tasks(t)) by {}
    assert(state.looked(id).workers =~= state.workers.update(id, state.looked(id).workers[id]));
}

/// Going through the workers stops at the first that has tasks.
proof fn lemma_first_victim(state: PoolState, id: int, from: int)
    requires
        0 <= from,
    ensures
        match state.next_victim(id, from) {
            Some(v) => from <= v < state.workers.len() && v != id && state.has_tasks(v)
                && forall|t: int| from <= t < v && t != id ==> !#[trigger] state.has_tasks(t),
            None => forall|t: int|
                from <= t < state.workers.len() && t != id ==> !#[trigger] state.has_tasks(t),
        },
    decreases state.workers.len() - from,
{
    if from < state.workers.len() {
        lemma_first_victim(state, id, from + 1);
    }
}

/// A try at an overflow queue brings the oldest task, which is then gone from the queue,
/// or tells that the queue is empty, or nothing at all; then nothing has changed.
pub proof fn law_overflow_queue_brings_its_oldest_task(state: PoolState, v: int, overflow: Overflow)
    requires
        state.wf(),
        state.has_worker(v),
        state.overflow_may_bring(v, overflow),
    ensures
        overflow is Empty <==> state.injectors[v].len() == 0,
        overflow matches Overflow::Task(task) ==> {
            let post = state.after_overflow(v, overflow);
            &&& state.injectors[v] == seq![task] + post.injectors[v]
            &&& post == (PoolState {
                injectors: state.injectors.update(v, post.injectors[v]),
                ..state
            })
        },
        !(overflow is Task) ==> state.after_overflow(v, overflow) == state,
{
    if overflow is Task {
        let post = state.after_overflow(v, overflow);
        assert(state.injectors[v] =~= seq![overflow->Task_0] + post.injectors[v]);
        assert(post.injectors =~= state.injectors.update(v, post.injectors[v]));
    }
}

} // verus!
