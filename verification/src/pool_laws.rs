//! What holds of a pool, whatever steps it takes.
use crate::bags::{
    lemma_cancel, lemma_tally_none, lemma_tally_update, lemma_total_empty, lemma_total_part,
    lemma_total_update, total,
};
use crate::config::{queue_capacity, Config};
use crate::model::PoolMetrics;
use crate::state::{
    delivered, held_by, is_delivered, is_parked, is_run, PoolState, PoolStep,
};
use crate::worker::{
    steal_budget, steal_target, Overflow, WorkerAction, WorkerPhase, WorkerState, BATCH_SIZE,
};
use vstd::multiset::Multiset;
use vstd::prelude::*;
use vstd::wrapping::{u64_specs, usize_specs};

verus! {

/// A worker may be replaced by another in order, if the idle count follows.
pub proof fn lemma_worker_replaced(state: PoolState, id: int, worker: WorkerState, idle: usize)
    requires
        state.wf(),
        0 <= id < state.workers.len(),
        worker.wf(),
        idle + (if state.workers[id].phase is Parked {
            1int
        } else {
            0
        }) == state.idle + (if worker.phase is Parked {
            1int
        } else {
            0
        }),
    ensures
        (PoolState { idle, ..state }).with_worker(id, worker).wf(),
        state.workers[id].phase is Parked ==> state.idle >= 1,
        !(state.workers[id].phase is Parked) ==> state.idle < usize::MAX,
{
    lemma_tally_update(state.workers, is_parked(), id, worker);
    let after = (PoolState { idle, ..state }).with_worker(id, worker);
    assert forall|i: int| 0 <= i < after.workers.len() implies #[trigger] after.workers[i].wf() by {
        assert(state.workers[i].wf());
    }
}

/// A worker that changes trades the task it held for the one it holds.
proof fn lemma_in_flight_worker(state: PoolState, id: int, worker: WorkerState)
    requires
        0 <= id < state.workers.len(),
    ensures
        state.with_worker(id, worker).in_flight().add(held_by(state.workers[id]))
            == state.in_flight().add(held_by(worker)),
{
    broadcast use vstd::multiset::group_multiset_axioms;

    let held = |w: WorkerState| held_by(w);
    let parts = state.workers.map_values(held);
    let after = state.with_worker(id, worker);
    lemma_total_update(parts, id, held_by(worker));
    assert(after.workers.map_values(held) =~= parts.update(id, held_by(worker)));
    let left = after.in_flight().add(held_by(state.workers[id]));
    let right = state.in_flight().add(held_by(worker));
    assert forall|task: u64| left.count(task) == right.count(task) by {
        assert(total(parts.update(id, held_by(worker))).add(parts[id]).count(task) == total(
            parts,
        ).add(held_by(worker)).count(task));
    }
    assert(left =~= right);
}

/// An overflow queue that changes trades its old tasks for the new ones.
proof fn lemma_in_flight_injector(state: PoolState, id: int, queue: Seq<u64>)
    requires
        0 <= id < state.injectors.len(),
    ensures
        (PoolState { injectors: state.injectors.update(id, queue), ..state }).in_flight().add(
            state.injectors[id].to_multiset(),
        ) == state.in_flight().add(queue.to_multiset()),
{
    broadcast use vstd::multiset::group_multiset_axioms;

    let content = |q: Seq<u64>| q.to_multiset();
    let parts = state.injectors.map_values(content);
    let after = PoolState { injectors: state.injectors.update(id, queue), ..state };
    lemma_total_update(parts, id, queue.to_multiset());
    assert(after.injectors.map_values(content) =~= parts.update(id, queue.to_multiset()));
    let left = after.in_flight().add(state.injectors[id].to_multiset());
    let right = state.in_flight().add(queue.to_multiset());
    assert forall|task: u64| left.count(task) == right.count(task) by {
        assert(total(parts.update(id, queue.to_multiset())).add(parts[id]).count(task) == total(
            parts,
        ).add(queue.to_multiset()).count(task));
    }
    assert(left =~= right);
}

/// A deque that changes trades its old tasks for the new ones.
proof fn lemma_in_flight_local(state: PoolState, id: int, queue: Seq<u64>)
    requires
        0 <= id < state.locals.len(),
    ensures
        (PoolState { locals: state.locals.update(id, queue), ..state }).in_flight().add(
            state.locals[id].to_multiset(),
        ) == state.in_flight().add(queue.to_multiset()),
{
    broadcast use vstd::multiset::group_multiset_axioms;

    let content = |q: Seq<u64>| q.to_multiset();
    let parts = state.locals.map_values(content);
    let after = PoolState { locals: state.locals.update(id, queue), ..state };
    lemma_total_update(parts, id, queue.to_multiset());
    assert(after.locals.map_values(content) =~= parts.update(id, queue.to_multiset()));
    let left = after.in_flight().add(state.locals[id].to_multiset());
    let right = state.in_flight().add(queue.to_multiset());
    assert forall|task: u64| left.count(task) == right.count(task) by {
        assert(total(parts.update(id, queue.to_multiset())).add(parts[id]).count(task) == total(
            parts,
        ).add(queue.to_multiset()).count(task));
    }
    assert(left =~= right);
}

/// The oldest task of a queue, put back, gives the queue's tasks.
proof fn lemma_take_first(queue: Seq<u64>)
    requires
        queue.len() > 0,
    ensures
        queue.drop_first().to_multiset().insert(queue[0]) == queue.to_multiset(),
{
    broadcast use vstd::multiset::group_multiset_axioms;

    queue.to_multiset_ensures();
    queue.drop_first().to_multiset_ensures();
    assert(queue.remove(0) =~= queue.drop_first());
    assert(queue.drop_first().to_multiset().insert(queue[0]) =~= queue.to_multiset());
}

/// Taking in a task adds that one to the tasks in the pool and keeps the pool in
/// order, wherever the task goes.
pub proof fn law_push_adds_the_task(state: PoolState, task: u64)
    requires
        state.wf(),
        state.can_take(1),
    ensures
        state.pushed(task).wf(),
        state.pushed(task).in_flight() == state.in_flight().insert(task),
{
    broadcast use vstd::multiset::group_multiset_axioms;

    let after = state.pushed(task);
    if state.is_full() {
        let target = state.overflow_target();
        let queue = state.injectors[target];
        queue.to_multiset_ensures();
        lemma_in_flight_injector(state, target, queue.push(task));
        assert(after.in_flight() == (PoolState {
            injectors: state.injectors.update(target, queue.push(task)),
            ..state
        }).in_flight());
        assert(state.in_flight().add(queue.push(task).to_multiset()) =~= state.in_flight().insert(
            task,
        ).add(queue.to_multiset()));
        lemma_cancel(after.in_flight(), state.in_flight().insert(task), queue.to_multiset());
    } else {
        state.global.to_multiset_ensures();
        assert(after.in_flight() =~= state.in_flight().insert(task));
    }
}

/// A searching worker that runs a task has that one more.
proof fn lemma_runs(state: PoolState, id: int, task: u64)
    requires
        state.wf(),
        state.has_worker(id),
        state.workers[id].phase is Searching,
        state.workers[id].completed_batch < BATCH_SIZE,
    ensures
        state.runs(id, task).wf(),
        state.runs(id, task).in_flight() == state.in_flight().insert(task),
{
    broadcast use vstd::multiset::group_multiset_axioms;

    assert(state.workers[id].wf());
    let after = state.runs(id, task).workers[id];
    lemma_worker_replaced(state, id, after, state.idle);
    lemma_in_flight_worker(state, id, after);
    assert(state.runs(id, task) =~= state.with_worker(id, after));
    assert(state.runs(id, task).in_flight().add(held_by(state.workers[id]))
        =~= state.runs(id, task).in_flight());
    assert(state.in_flight().add(held_by(after)) =~= state.in_flight().insert(task));
}

/// The oldest task of an overflow queue, put back, gives the tasks of the pool.
proof fn lemma_overflow_taken(state: PoolState, v: int)
    requires
        state.wf(),
        state.has_worker(v),
        state.injectors[v].len() > 0,
    ensures
        ({
            let task = state.injectors[v][0];
            let after = state.after_overflow(v, Overflow::Task(task));
            after.wf() && after.in_flight().insert(task) == state.in_flight()
        }),
{
    broadcast use vstd::multiset::group_multiset_axioms;

    let queue = state.injectors[v];
    let after = state.after_overflow(v, Overflow::Task(queue[0]));
    lemma_take_first(queue);
    lemma_in_flight_injector(state, v, queue.drop_first());
    assert forall|t: u64|
        after.in_flight().insert(queue[0]).count(t) == state.in_flight().count(t) by {
        assert(after.in_flight().add(queue.to_multiset()).count(t) == state.in_flight().add(
            queue.drop_first().to_multiset(),
        ).count(t));
        assert(queue.drop_first().to_multiset().insert(queue[0]).count(t)
            == queue.to_multiset().count(t));
    }
    assert(after.in_flight().insert(queue[0]) =~= state.in_flight());
}

/// A worker that takes the oldest task of a deque changes no task.
proof fn lemma_local_taken(state: PoolState, id: int, v: int)
    requires
        state.wf(),
        state.has_worker(id),
        state.has_worker(v),
        state.locals[v].len() > 0,
        state.workers[id].phase is Searching,
        state.workers[id].completed_batch < BATCH_SIZE,
    ensures
        state.took_local(id, v).wf(),
        state.took_local(id, v).in_flight() == state.in_flight(),
{
    broadcast use vstd::multiset::group_multiset_axioms;

    let queue = state.locals[v];
    let mid = PoolState { locals: state.locals.update(v, queue.drop_first()), ..state };
    lemma_take_first(queue);
    lemma_in_flight_local(state, v, queue.drop_first());
    lemma_runs(mid, id, queue[0]);
    assert forall|t: u64| mid.in_flight().insert(queue[0]).count(t) == state.in_flight().count(t) by {
        assert(mid.in_flight().add(queue.to_multiset()).count(t) == state.in_flight().add(
            queue.drop_first().to_multiset(),
        ).count(t));
        assert(queue.drop_first().to_multiset().insert(queue[0]).count(t)
            == queue.to_multiset().count(t));
    }
    assert(mid.in_flight().insert(queue[0]) =~= state.in_flight());
}

/// A worker that takes the oldest task of the bounded queue changes no task.
proof fn lemma_global_taken(state: PoolState, id: int)
    requires
        state.wf(),
        state.has_worker(id),
        state.global.len() > 0,
        state.workers[id].phase is Searching,
        state.workers[id].completed_batch < BATCH_SIZE,
    ensures
        state.took_global(id).wf(),
        state.took_global(id).in_flight() == state.in_flight(),
{
    broadcast use vstd::multiset::group_multiset_axioms;

    let mid = PoolState {
        global: state.global.drop_first(),
        queued: (state.queued - 1) as usize,
        ..state
    };
    lemma_take_first(state.global);
    lemma_runs(mid, id, state.global[0]);
    assert forall|t: u64|
        mid.in_flight().insert(state.global[0]).count(t) == state.in_flight().count(t) by {
        assert(state.global.drop_first().to_multiset().insert(state.global[0]).count(t)
            == state.global.to_multiset().count(t));
    }
    assert(mid.in_flight().insert(state.global[0]) =~= state.in_flight());
}

/// A worker that is drawn at random is another that has tasks.
proof fn lemma_drawn(state: PoolState, id: int, random: u64, tries: nat)
    requires
        state.workers.len() > 0,
    ensures
        state.drawn(id, random, tries).1 matches Some(v) ==> v != id && state.has_worker(v)
            && state.has_tasks(v),
    decreases tries,
{
    if tries > 0 {
        let next = crate::worker::next_random(random);
        assert(0 <= steal_target(next, state.workers.len()) < state.workers.len()) by (
        nonlinear_arith)
            requires
                state.workers.len() > 0,
                steal_target(next, state.workers.len()) == (next as usize) as int
                    % state.workers.len() as int,
        ;
        lemma_drawn(state, id, next, (tries - 1) as nat);
    }
}

/// Going through the workers from `from` on finds another that has tasks, if there is
/// one.
proof fn lemma_next_victim(state: PoolState, id: int, from: int)
    requires
        0 <= from,
    ensures
        match state.next_victim(id, from) {
            Some(v) => v != id && state.has_worker(v) && state.has_tasks(v),
            None => forall|v: int|
                from <= v < state.workers.len() && v != id ==> !#[trigger] state.has_tasks(v),
        },
    decreases state.workers.len() - from,
{
    if from < state.workers.len() {
        lemma_next_victim(state, id, from + 1);
    }
}

/// A worker that steals finds another that has tasks whenever there is one.
pub proof fn law_victim_is_found(state: PoolState, id: int)
    requires
        state.has_worker(id),
    ensures
        match state.victim(id) {
            Some(v) => state.steals() && v != id && state.has_worker(v) && state.has_tasks(v),
            None => state.steals() ==> forall|v: int|
                state.has_worker(v) && v != id ==> !#[trigger] state.has_tasks(v),
        },
{
    let worker = state.workers[id];
    lemma_drawn(state, id, worker.random, steal_budget(worker.steal_attempts));
    lemma_next_victim(state, id, 0);
}

/// A worker that looks for another, or begins its batch anew, changes no task.
proof fn lemma_random_moved(state: PoolState, id: int, worker: WorkerState)
    requires
        state.wf(),
        state.has_worker(id),
        state.workers[id].phase is Searching,
        worker.wf(),
        worker.phase is Searching,
    ensures
        state.with_worker(id, worker).wf(),
        state.with_worker(id, worker).in_flight() == state.in_flight(),
{
    lemma_worker_replaced(state, id, worker, state.idle);
    lemma_same_held(state, id, worker);
}

/// A worker that tries the queues of another loses no task and makes none.
proof fn lemma_steals_from(state: PoolState, post: PoolState, id: int, v: int, action: WorkerAction)
    requires
        state.wf(),
        state.has_worker(id),
        state.has_worker(v),
        state.workers[id].phase is Searching,
        state.workers[id].completed_batch < BATCH_SIZE,
        state.steals_from(post, id, v, action),
    ensures
        post.wf(),
        post.in_flight() == state.in_flight(),
{
    if state.locals[v].len() > 0 {
        lemma_local_taken(state, id, v);
    } else {
        let overflow = choose|overflow: Overflow| #[trigger]
            state.overflow_may_bring(v, overflow) && action == PoolState::steal_action(overflow)
                && post == state.after_overflow(v, overflow).steal_settled(id, overflow);
        if overflow is Task {
            lemma_overflow_taken(state, v);
            lemma_runs(state.after_overflow(v, overflow), id, overflow->Task_0);
        }
    }
}

/// A search loses no task and makes none: the task that the worker's own overflow queue
/// brought, if any, is the only one that is new to the queues.
pub proof fn law_search_keeps_the_tasks(
    state: PoolState,
    post: PoolState,
    id: int,
    overflow: Overflow,
    action: WorkerAction,
)
    requires
        state.wf(),
        state.has_worker(id),
        state.workers[id].phase is Searching,
        state.workers[id].completed_batch < BATCH_SIZE,
        state.searched(post, id, overflow, action),
    ensures
        post.wf(),
        post.in_flight() == match overflow {
            Overflow::Task(task) => state.in_flight().insert(task),
            _ => state.in_flight(),
        },
{
    assert(state.workers[id].wf());
    if overflow is Task {
        lemma_runs(state, id, overflow->Task_0);
    } else if state.global.len() > 0 {
        lemma_global_taken(state, id);
    } else {
        let looked = state.looked(id);
        lemma_random_moved(state, id, looked.workers[id]);
        assert(looked =~= state.with_worker(id, looked.workers[id]));
        law_victim_is_found(state, id);
        match state.victim(id) {
            Some(v) => {
                lemma_steals_from(looked, post, id, v, action);
            },
            None => {
                if action is Park {
                    lemma_worker_replaced(looked, id, looked.workers[id], looked.idle);
                    lemma_worker_replaced(looked, id, post.workers[id], post.idle);
                    let mid = PoolState { idle: post.idle, ..looked };
                    assert(mid.in_flight() == looked.in_flight());
                    lemma_same_held(mid, id, post.workers[id]);
                    assert(post =~= mid.with_worker(id, post.workers[id]));
                }
            },
        }
    }
}

/// A turn of a worker loses no task and makes none: it only moves one from a queue
/// to the worker.
pub proof fn law_turn_keeps_the_tasks(
    state: PoolState,
    post: PoolState,
    id: int,
    action: WorkerAction,
)
    requires
        state.wf(),
        state.has_worker(id),
        state.workers[id].phase is Searching,
        state.turn(post, id, action),
    ensures
        post.wf(),
        post.in_flight() == state.in_flight(),
{
    assert(state.workers[id].wf());
    if state.workers[id].completed_batch >= BATCH_SIZE && state.cancelled {
        lemma_worker_replaced(state, id, post.workers[id], state.idle);
        lemma_same_held(state, id, post.workers[id]);
        assert(post =~= state.with_worker(id, post.workers[id]));
    } else {
        let fresh = state.with_fresh_batch(id);
        lemma_random_moved(state, id, fresh.workers[id]);
        if state.locals[id].len() > 0 {
            lemma_local_taken(fresh, id, id);
        } else {
            let overflow = choose|overflow: Overflow| #[trigger]
                state.overflow_may_bring(id, overflow) && fresh.after_overflow(
                    id,
                    overflow,
                ).searched(post, id, overflow, action);
            if overflow is Task {
                lemma_overflow_taken(fresh, id);
            }
            law_search_keeps_the_tasks(
                fresh.after_overflow(id, overflow),
                post,
                id,
                overflow,
                action,
            );
        }
    }
}

/// The end of a task takes that one, and no other, out of the pool.
pub proof fn law_end_removes_the_task(state: PoolState, id: int)
    requires
        state.wf(),
        0 <= id < state.workers.len(),
        state.workers[id].phase is Delivered,
    ensures
        state.retired(id).wf(),
        state.retired(id).in_flight().insert(state.workers[id].phase->Delivered_0)
            == state.in_flight(),
{
    broadcast use vstd::multiset::group_multiset_axioms;

    assert(state.workers[id].wf());
    let after = state.retired(id).workers[id];
    lemma_worker_replaced(state, id, after, state.idle);
    lemma_in_flight_worker(state, id, after);
    let task = state.workers[id].phase->Delivered_0;
    assert(state.retired(id).in_flight() == state.with_worker(id, after).in_flight());
    assert(state.in_flight().add(held_by(after)) =~= state.in_flight());
}

/// Replacing a worker by one that holds the same task changes no task.
proof fn lemma_same_held(state: PoolState, id: int, worker: WorkerState)
    requires
        0 <= id < state.workers.len(),
        held_by(worker) == held_by(state.workers[id]),
    ensures
        state.with_worker(id, worker).in_flight() == state.in_flight(),
{
    lemma_in_flight_worker(state, id, worker);
    lemma_cancel(state.with_worker(id, worker).in_flight(), state.in_flight(), held_by(worker));
}

/// The state in which a spawned task is counted and named, but did not come in.
spec fn counted(state: PoolState) -> PoolState {
    PoolState {
        active: usize_specs::wrapping_add(state.active, 1),
        total_spawned: if state.config.enable_metrics {
            usize_specs::wrapping_add(state.total_spawned, 1)
        } else {
            state.total_spawned
        },
        next_task: u64_specs::wrapping_add(state.next_task, 1),
        ..state
    }
}

/// Every step keeps the pool in order.
pub proof fn law_step_keeps_the_order(state: PoolState, post: PoolState, step: PoolStep)
    requires
        state.wf(),
        state.steps_to(post, step),
    ensures
        post.wf(),
{
    match step {
        PoolStep::Spawned => {
            assert(counted(state).wf());
            law_push_adds_the_task(counted(state), state.next_task);
        },
        PoolStep::Started { id, seed } => {
            assert(state.workers[id].wf());
            lemma_worker_replaced(state, id, post.workers[id], state.idle);
        },
        PoolStep::Turned { id, action } => {
            law_turn_keeps_the_tasks(state, post, id, action);
        },
        PoolStep::Ended { id } => {
            law_end_removes_the_task(state, id);
        },
        PoolStep::Notified { id } => {
            lemma_worker_replaced(state, id, state.workers[id], state.idle);
            lemma_worker_replaced(state, id, post.workers[id], post.idle);
        },
        PoolStep::Left { id } => {
            assert(state.workers[id].wf());
            lemma_worker_replaced(state, id, state.workers[id], state.idle);
            lemma_worker_replaced(state, id, post.workers[id], post.idle);
        },
        PoolStep::Reported { id, ok } => {
            assert(state.workers[id].wf());
            lemma_worker_replaced(state, id, post.workers[id], state.idle);
        },
        PoolStep::AsyncSpawned => {},
        PoolStep::AsyncEnded => {},
        PoolStep::GivenUp { place } => {},
        PoolStep::Cancelled => {},
    }
}

/// A spawned blocking task comes in, an ended one goes out, and no other step changes
/// which blocking tasks are in the pool.
pub proof fn law_step_keeps_the_tasks(state: PoolState, post: PoolState, step: PoolStep)
    requires
        state.wf(),
        state.steps_to(post, step),
    ensures
        match step {
            PoolStep::Spawned => post.in_flight() == state.in_flight().insert(state.next_task),
            PoolStep::Ended { id } => post.in_flight().insert(
                state.workers[id].phase->Delivered_0,
            ) == state.in_flight(),
            _ => post.in_flight() == state.in_flight(),
        },
{
    match step {
        PoolStep::Spawned => {
            assert(counted(state).wf());
            law_push_adds_the_task(counted(state), state.next_task);
            assert(counted(state).in_flight() == state.in_flight());
        },
        PoolStep::Started { id, seed } => {
            lemma_same_held(state, id, post.workers[id]);
        },
        PoolStep::Turned { id, action } => {
            law_turn_keeps_the_tasks(state, post, id, action);
        },
        PoolStep::Ended { id } => {
            law_end_removes_the_task(state, id);
        },
        PoolStep::Notified { id } => {
            lemma_same_held(PoolState { idle: post.idle, ..state }, id, post.workers[id]);
            assert((PoolState { idle: post.idle, ..state }).in_flight() == state.in_flight());
        },
        PoolStep::Left { id } => {
            lemma_same_held(PoolState { idle: post.idle, ..state }, id, post.workers[id]);
            assert((PoolState { idle: post.idle, ..state }).in_flight() == state.in_flight());
        },
        PoolStep::Reported { id, ok } => {
            lemma_same_held(state, id, post.workers[id]);
            assert(post.in_flight() == state.with_worker(id, post.workers[id]).in_flight());
        },
        _ => {
            assert(post.in_flight() == state.in_flight());
        },
    }
}

/// A turn changes nothing but queues, their count, the worker and the idle count.
pub proof fn lemma_turn_frame(state: PoolState, post: PoolState, id: int, action: WorkerAction)
    requires
        state.has_worker(id),
        state.turn(post, id, action),
    ensures
        post == (PoolState {
            global: post.global,
            injectors: post.injectors,
            locals: post.locals,
            workers: state.workers.update(id, post.workers[id]),
            idle: post.idle,
            queued: post.queued,
            ..state
        }),
        match action {
            WorkerAction::Run(task) => post.workers[id].phase == WorkerPhase::Running(task),
            WorkerAction::Retry => post.workers[id].phase == state.workers[id].phase,
            WorkerAction::Park => post.workers[id].phase is Parked,
            WorkerAction::Stop => post.workers[id].phase is Stopped && state.cancelled,
        },
        !(action is Stop) ==> post.workers[id].completed_batch
            == state.workers[id].with_fresh_batch().completed_batch,
        action is Stop ==> post.workers[id].completed_batch
            == state.workers[id].completed_batch,
        action is Stop <==> state.workers[id].completed_batch >= BATCH_SIZE && state.cancelled,
{
    if state.workers[id].completed_batch >= BATCH_SIZE && state.cancelled {
        assert(post.workers =~= state.workers.update(id, post.workers[id]));
    } else if state.locals[id].len() > 0 {
        assert(post.workers =~= state.workers.update(id, post.workers[id]));
    } else {
        let fresh = state.with_fresh_batch(id);
        let overflow = choose|overflow: Overflow| #[trigger]
            state.overflow_may_bring(id, overflow) && fresh.after_overflow(id, overflow).searched(
                post,
                id,
                overflow,
                action,
            );
        let mid = fresh.after_overflow(id, overflow);
        if !(overflow is Task) && mid.global.len() == 0 {
            if let Some(v) = mid.victim(id) {
                let looked = mid.looked(id);
                if looked.locals[v].len() == 0 {
                    let taken = choose|taken: Overflow| #[trigger]
                        looked.overflow_may_bring(v, taken) && action == PoolState::steal_action(
                            taken,
                        ) && post == looked.after_overflow(v, taken).steal_settled(id, taken);
                    assert(post == looked.after_overflow(v, taken).steal_settled(id, taken));
                }
            }
        }
        assert(post.workers =~= state.workers.update(id, post.workers[id]));
    }
}

/// The active count goes on being the number of tasks in the pool, by whatever
/// step, as long as that number stays below the largest.
pub proof fn law_step_keeps_the_balance(state: PoolState, post: PoolState, step: PoolStep)
    requires
        state.wf(),
        state.balanced(),
        state.load() < usize::MAX,
        state.steps_to(post, step),
    ensures
        post.balanced(),
{
    broadcast use vstd::multiset::group_multiset_axioms;

    law_step_keeps_the_tasks(state, post, step);
    if let PoolStep::Turned { id, action } = step {
        lemma_turn_frame(state, post, id, action);
    }
}

/// The names of waiting tasks follow the queue in which they wait.
proof fn lemma_waiting_names(waiting: Seq<u64>, task: u64)
    ensures
        waiting.push(task).to_multiset() == waiting.to_multiset().insert(task),
        forall|k: int|
            0 <= k < waiting.len() ==> #[trigger] waiting.remove(k).to_multiset()
                == waiting.to_multiset().remove(waiting[k]),
        waiting.len() > 0 ==> waiting.drop_first() == waiting.remove(0),
{
    broadcast use vstd::multiset::group_multiset_axioms;

    waiting.to_multiset_ensures();
    if waiting.len() > 0 {
        assert(waiting.drop_first() =~= waiting.remove(0));
    }
}

/// No two tasks in the pool have the same name, by whatever step, as long as there
/// are new names.
pub proof fn law_step_keeps_the_names(state: PoolState, post: PoolState, step: PoolStep)
    requires
        state.wf(),
        state.names_are_distinct(),
        state.next_task < u64::MAX,
        state.steps_to(post, step),
    ensures
        post.names_are_distinct(),
{
    broadcast use vstd::multiset::group_multiset_axioms;

    law_step_keeps_the_tasks(state, post, step);
    lemma_waiting_names(state.waiting, state.next_task);
    if let PoolStep::Turned { id, action } = step {
        lemma_turn_frame(state, post, id, action);
    }
    assert forall|task: u64| #[trigger]
        post.names().count(task) <= if task < post.next_task {
            1int
        } else {
            0
        } by {
        assert(state.names().count(task) <= if task < state.next_task {
            1int
        } else {
            0
        });
        match step {
            PoolStep::Ended { id } => {
                let gone = state.workers[id].phase->Delivered_0;
                assert(post.in_flight().insert(gone).count(task) == state.in_flight().count(task));
            },
            PoolStep::AsyncEnded => {
                if state.waiting.len() > 0 {
                    assert(state.waiting.remove(0).to_multiset().count(task)
                        <= state.waiting.to_multiset().count(task));
                }
            },
            PoolStep::GivenUp { place } => {
                assert(state.waiting.remove(place).to_multiset().count(task)
                    <= state.waiting.to_multiset().count(task));
            },
            _ => {},
        }
    }
}

/// A pool starts with nothing in it, in order and balanced.
proof fn lemma_initial(config: Config)
    requires
        0 < queue_capacity(config),
    ensures
        PoolState::initial(config).wf(),
        PoolState::initial(config).balanced(),
        PoolState::initial(config).names_are_distinct(),
{
    broadcast use vstd::multiset::group_multiset_axioms;

    let state = PoolState::initial(config);
    state.global.to_multiset_ensures();
    let queues = state.injectors.map_values(|q: Seq<u64>| q.to_multiset());
    let deques = state.locals.map_values(|q: Seq<u64>| q.to_multiset());
    let held = state.workers.map_values(|w: WorkerState| held_by(w));
    assert(state.global.to_multiset() =~= Multiset::empty());
    lemma_total_empty(queues);
    lemma_total_empty(deques);
    lemma_total_empty(held);
    lemma_tally_none(state.workers, is_parked());
    assert(state.in_flight() =~= Multiset::empty());
}

/// In every state that a new pool comes to, by whatever steps, the pool is in
/// order and its active count is the number of tasks that are queued, running, in
/// progress or waiting, as long as that number stays below the largest.
pub proof fn law_active_counts_the_tasks(
    config: Config,
    trace: Seq<PoolState>,
    steps: Seq<PoolStep>,
    i: int,
)
    requires
        0 < queue_capacity(config),
        is_run(trace, steps),
        trace[0] == PoolState::initial(config),
        forall|j: int|
            0 <= j < trace.len() ==> (#[trigger] trace[j]).load() < usize::MAX,
        0 <= i < trace.len(),
    ensures
        trace[i].wf(),
        trace[i].active == trace[i].load(),
    decreases i,
{
    if i == 0 {
        lemma_initial(config);
    } else {
        law_active_counts_the_tasks(config, trace, steps, i - 1);
        assert(trace[i - 1].steps_to(trace[i], steps[i - 1]));
        law_step_keeps_the_order(trace[i - 1], trace[i], steps[i - 1]);
        law_step_keeps_the_balance(trace[i - 1], trace[i], steps[i - 1]);
    }
}

/// In every state that a new pool comes to, by whatever steps, no two tasks that
/// are queued or running have the same name, as long as there are new names.
pub proof fn law_names_are_distinct(
    config: Config,
    trace: Seq<PoolState>,
    steps: Seq<PoolStep>,
    i: int,
)
    requires
        0 < queue_capacity(config),
        is_run(trace, steps),
        trace[0] == PoolState::initial(config),
        forall|j: int| 0 <= j < trace.len() ==> (#[trigger] trace[j]).next_task < u64::MAX,
        0 <= i < trace.len(),
    ensures
        trace[i].wf(),
        trace[i].names_are_distinct(),
    decreases i,
{
    if i == 0 {
        lemma_initial(config);
    } else {
        law_names_are_distinct(config, trace, steps, i - 1);
        assert(trace[i - 1].steps_to(trace[i], steps[i - 1]));
        law_step_keeps_the_order(trace[i - 1], trace[i], steps[i - 1]);
        law_step_keeps_the_names(trace[i - 1], trace[i], steps[i - 1]);
    }
}

/// When no task is active, which is when waiting for all of them ends and when a pool
/// is shut down, every task has ended: no queue holds one, no worker runs one, and no
/// asynchronous task is in progress or waits.
pub proof fn law_idle_pool_is_empty(state: PoolState)
    requires
        state.wf(),
        state.balanced(),
        state.active == 0,
    ensures
        state.in_progress == 0,
        state.waiting.len() == 0,
        state.global.len() == 0,
        forall|i: int| 0 <= i < state.injectors.len() ==> #[trigger] state.injectors[i].len() == 0,
        forall|i: int| 0 <= i < state.locals.len() ==> #[trigger] state.locals[i].len() == 0,
        forall|i: int|
            0 <= i < state.workers.len() ==> !((#[trigger] state.workers[i]).phase is Running) && !(
            state.workers[i].phase is Delivered),
{
    broadcast use vstd::multiset::group_multiset_axioms;

    let queues = state.injectors.map_values(|q: Seq<u64>| q.to_multiset());
    let deques = state.locals.map_values(|q: Seq<u64>| q.to_multiset());
    let held = state.workers.map_values(|w: WorkerState| held_by(w));
    state.global.to_multiset_ensures();
    assert forall|i: int| 0 <= i < state.injectors.len() implies #[trigger] state.injectors[i].len()
        == 0 by {
        lemma_total_part(queues, i);
        state.injectors[i].to_multiset_ensures();
        assert(queues[i] == state.injectors[i].to_multiset());
    }
    assert forall|i: int| 0 <= i < state.locals.len() implies #[trigger] state.locals[i].len()
        == 0 by {
        lemma_total_part(deques, i);
        state.locals[i].to_multiset_ensures();
        assert(deques[i] == state.locals[i].to_multiset());
    }
    assert forall|i: int| 0 <= i < state.workers.len() implies !(
    (#[trigger] state.workers[i]).phase is Running) && !(state.workers[i].phase is Delivered) by {
        lemma_total_part(held, i);
        assert(held[i] == held_by(state.workers[i]));
    }
}

/// While any worker is parked, the idle count says so: a task that comes in then
/// asks for a notification.
pub proof fn law_parked_worker_gets_notified(state: PoolState, id: int)
    requires
        state.wf(),
        state.has_worker(id),
        state.workers[id].phase is Parked,
    ensures
        state.idle > 0,
{
    lemma_tally_update(state.workers, is_parked(), id, state.workers[id]);
}

/// The way from a turn that neither leaves nor finds a task in the worker's deque.
pub proof fn lemma_turn_search(state: PoolState, post: PoolState, id: int, action: WorkerAction) -> (r:
    Overflow)
    requires
        state.turn(post, id, action),
        state.locals[id].len() == 0,
        !(state.workers[id].completed_batch >= BATCH_SIZE && state.cancelled),
    ensures
        state.overflow_may_bring(id, r),
        state.with_fresh_batch(id).after_overflow(id, r).searched(post, id, r, action),
{
    choose|overflow: Overflow| #[trigger]
        state.overflow_may_bring(id, overflow) && state.with_fresh_batch(id).after_overflow(
            id,
            overflow,
        ).searched(post, id, overflow, action)
}

/// A worker that does not leave runs a task whenever the bounded queue holds one, and
/// parks exactly where no queue that it may take from holds one: its own two, the
/// bounded queue and, where it steals, those of every other worker. It is told to look
/// again only where an overflow queue holds a task.
pub proof fn law_search_is_decided(
    state: PoolState,
    post: PoolState,
    id: int,
    action: WorkerAction,
)
    requires
        state.wf(),
        state.has_worker(id),
        state.turn(post, id, action),
        !(state.workers[id].completed_batch >= BATCH_SIZE && state.cancelled),
    ensures
        state.global.len() > 0 ==> action is Run,
        action is Park <==> {
            &&& state.global.len() == 0
            &&& !state.has_tasks(id)
            &&& state.steals() ==> forall|v: int|
                state.has_worker(v) && v != id ==> !#[trigger] state.has_tasks(v)
        },
        action is Retry ==> exists|v: int| #[trigger]
            state.has_worker(v) && (v == id || state.steals()) && state.injectors[v].len() > 0,
{
    if state.locals[id].len() == 0 {
        let overflow = lemma_turn_search(state, post, id, action);
        let fresh = state.with_fresh_batch(id);
        let mid = fresh.after_overflow(id, overflow);
        law_victim_is_found(mid, id);
        assert(state.has_worker(id));
        if !(overflow is Task) {
            assert forall|v: int| mid.has_tasks(v) == #[trigger] state.has_tasks(v) by {}
            if mid.global.len() == 0 {
                if let Some(v) = mid.victim(id) {
                    assert(state.has_worker(v));
                    assert(state.has_tasks(v));
                    lemma_steal_brings(mid.looked(id), post, id, v, action);
                } else {
                    assert forall|v: int| state.has_worker(v) && v != id && state.steals() implies
                        !#[trigger] state.has_tasks(v) by {
                        assert(mid.has_worker(v));
                        assert(!mid.has_tasks(v));
                    }
                }
            }
        }
    }
}

/// A try at the queues of a worker that has tasks runs the oldest of its deque or of its
/// overflow queue, or is to be made again.
pub proof fn lemma_steal_brings(
    state: PoolState,
    post: PoolState,
    id: int,
    v: int,
    action: WorkerAction,
)
    requires
        state.has_tasks(v),
        state.steals_from(post, id, v, action),
    ensures
        !(action is Park),
        action is Retry ==> state.injectors[v].len() > 0,
        action matches WorkerAction::Run(task) ==> if state.locals[v].len() > 0 {
            task == state.locals[v][0] && post == state.took_local(id, v)
        } else {
            task == state.injectors[v][0] && post == state.took_overflow(id, v)
        },
        action is Run || action is Retry,
{
    if state.locals[v].len() == 0 {
        let taken = choose|taken: Overflow| #[trigger]
            state.overflow_may_bring(v, taken) && action == PoolState::steal_action(taken) && post
                == state.after_overflow(v, taken).steal_settled(id, taken);
        assert(state.overflow_may_bring(v, taken));
    }
}

/// Work is balanced: a worker with nothing of its own to run takes, where it steals, the
/// oldest task of another worker's queue whenever any other has one. It never parks
/// then; it looks again only where an overflow queue gave nothing though it holds
/// tasks.
pub proof fn law_idle_worker_steals(
    state: PoolState,
    post: PoolState,
    id: int,
    v: int,
    action: WorkerAction,
)
    requires
        state.wf(),
        state.steals(),
        state.has_worker(id),
        state.has_worker(v),
        v != id,
        state.has_tasks(v),
        !state.has_tasks(id),
        state.global.len() == 0,
        !(state.workers[id].completed_batch >= BATCH_SIZE && state.cancelled),
        state.turn(post, id, action),
    ensures
        match action {
            WorkerAction::Run(task) => exists|u: int| #[trigger]
                state.has_worker(u) && u != id && {
                    let from = state.with_fresh_batch(id).looked(id);
                    if state.locals[u].len() > 0 {
                        task == state.locals[u][0] && post == from.took_local(id, u)
                    } else {
                        state.injectors[u].len() > 0 && task == state.injectors[u][0] && post
                            == from.took_overflow(id, u)
                    }
                },
            WorkerAction::Retry => true,
            _ => false,
        },
{
    let overflow = lemma_turn_search(state, post, id, action);
    let fresh = state.with_fresh_batch(id);
    law_victim_is_found(fresh, id);
    assert(fresh.has_worker(v) && fresh.has_tasks(v));
    let u = fresh.victim(id)->Some_0;
    assert(fresh.victim(id) is Some);
    lemma_steal_brings(fresh.looked(id), post, id, u, action);
    assert(state.has_worker(u));
}

/// What waits in a worker's own overflow queue comes before what waits in the bounded
/// queue: a worker with an empty deque whose overflow queue gives its task runs that
/// one, and the bounded queue stays as it is.
pub proof fn law_overflow_comes_first(
    state: PoolState,
    post: PoolState,
    id: int,
    task: u64,
    action: WorkerAction,
)
    requires
        state.searched(post, id, Overflow::Task(task), action),
    ensures
        action == WorkerAction::Run(task),
        post.global == state.global,
{
}

/// A run is a shorter run and one more step.
pub proof fn lemma_last_step(trace: Seq<PoolState>, steps: Seq<PoolStep>)
    requires
        is_run(trace, steps),
        steps.len() > 0,
    ensures
        is_run(trace.drop_last(), steps.drop_last()),
        trace.drop_last().last() == trace[steps.len() - 1],
        trace[steps.len() - 1].steps_to(trace.last(), steps.last()),
{
    let before = trace.drop_last();
    assert forall|i: int| 0 <= i < steps.drop_last().len() implies before[i].steps_to(
        before[i + 1],
        #[trigger] steps.drop_last()[i],
    ) by {
        assert(trace[i].steps_to(trace[i + 1], steps[i]));
    }
    let n = steps.len() - 1;
    assert(trace[n].steps_to(trace[n + 1], steps[n]));
}

/// How many tasks worker `id` ended in a run.
pub open spec fn tasks_ended(steps: Seq<PoolStep>, id: int) -> nat
    decreases steps.len(),
{
    if steps.len() == 0 {
        0
    } else {
        tasks_ended(steps.drop_last(), id) + if steps.last() == (PoolStep::Ended { id }) {
            1nat
        } else {
            0nat
        }
    }
}

/// After the pool was cancelled, a worker that does not come to park ends no more
/// tasks than its batch has left, so at most one batch.
pub proof fn law_cancelled_worker_stops_within_a_batch(
    trace: Seq<PoolState>,
    steps: Seq<PoolStep>,
    id: int,
)
    requires
        is_run(trace, steps),
        trace[0].wf(),
        trace[0].cancelled,
        trace[0].has_worker(id),
        forall|i: int|
            0 <= i < trace.len() ==> !((#[trigger] trace[i]).workers[id].phase is Parked),
    ensures
        tasks_ended(steps, id) + trace[0].workers[id].completed_batch <= BATCH_SIZE,
{
    lemma_cancelled_run(trace, steps, id);
    assert(trace.last().workers[id].wf());
}

/// The batch of a worker counts the tasks that it ends, from the cancellation on.
proof fn lemma_cancelled_run(trace: Seq<PoolState>, steps: Seq<PoolStep>, id: int)
    requires
        is_run(trace, steps),
        trace[0].wf(),
        trace[0].cancelled,
        trace[0].has_worker(id),
        forall|i: int|
            0 <= i < trace.len() ==> !((#[trigger] trace[i]).workers[id].phase is Parked),
    ensures
        trace.last().wf(),
        trace.last().cancelled,
        trace.last().has_worker(id),
        tasks_ended(steps, id) + trace[0].workers[id].completed_batch
            == trace.last().workers[id].completed_batch,
    decreases steps.len(),
{
    if steps.len() > 0 {
        let n = steps.len() - 1;
        let before = trace.drop_last();
        lemma_last_step(trace, steps);
        lemma_cancelled_run(before, steps.drop_last(), id);
        law_step_keeps_the_order(trace[n], trace[n + 1], steps[n]);
        lemma_cancelled_step(trace[n], trace[n + 1], steps[n], id);
    }
}

/// One step of a cancelled pool adds to the batch of a worker that is not parked
/// exactly where it ends a task of that worker.
proof fn lemma_cancelled_step(state: PoolState, post: PoolState, step: PoolStep, id: int)
    requires
        state.wf(),
        state.cancelled,
        state.has_worker(id),
        state.steps_to(post, step),
        !(state.workers[id].phase is Parked),
        !(post.workers[id].phase is Parked),
    ensures
        post.cancelled,
        post.has_worker(id),
        post.workers[id].completed_batch == state.workers[id].completed_batch + if step == (
        PoolStep::Ended { id }) {
            1int
        } else {
            0
        },
{
    assert(state.workers[id].wf());
    if let PoolStep::Turned { id: other, action } = step {
        lemma_turn_frame(state, post, other, action);
    }
}

/// The `k`-th number of a cycle of `n`, counted from `start`.
proof fn lemma_cycle(start: int, k: int, n: int)
    requires
        0 <= start,
        0 <= k < n,
    ensures
        (start + k) % n == if start % n + k < n {
            start % n + k
        } else {
            start % n + k - n
        },
        0 <= start % n < n,
{
    vstd::arithmetic::div_mod::lemma_fundamental_div_mod(start, n);
    let r = start % n;
    let q = start / n;
    assert(0 <= r < n) by (nonlinear_arith)
        requires
            0 < n,
            r == start % n,
    ;
    if r + k < n {
        assert(start + k == q * n + (r + k)) by (nonlinear_arith)
            requires
                start == n * q + r,
        ;
        vstd::arithmetic::div_mod::lemma_fundamental_div_mod_converse(start + k, n, q, r + k);
    } else {
        assert(start + k == (q + 1) * n + (r + k - n)) by (nonlinear_arith)
            requires
                start == n * q + r,
        ;
        vstd::arithmetic::div_mod::lemma_fundamental_div_mod_converse(
            start + k,
            n,
            q + 1,
            r + k - n,
        );
    }
}

impl PoolState {
    /// After the given tasks came in, one after the other.
    pub open spec fn pushed_all(self, tasks: Seq<u64>) -> PoolState
        decreases tasks.len(),
    {
        if tasks.len() == 0 {
            self
        } else {
            self.pushed_all(tasks.drop_last()).pushed(tasks.last())
        }
    }
}

/// What overflows goes round: as many tasks as there are workers, taken in while
/// the bounded queue is full, give each worker's overflow queue one task. The turn
/// counter is taken not to wrap meanwhile.
pub proof fn law_overflow_goes_round(state: PoolState, tasks: Seq<u64>, id: int)
    requires
        state.wf(),
        state.is_full(),
        state.has_worker(id),
        tasks.len() == state.workers.len(),
        state.next_worker + tasks.len() <= usize::MAX,
    ensures
        state.pushed_all(tasks).global == state.global,
        state.pushed_all(tasks).injectors[id].len() == state.injectors[id].len() + 1,
{
    lemma_overflow(state, tasks, id);
    lemma_cycle(state.next_worker as int, 0, state.workers.len() as int);
}

/// The overflow queue of worker `id` has one task more once its turn has come.
proof fn lemma_overflow(state: PoolState, tasks: Seq<u64>, id: int)
    requires
        state.wf(),
        state.is_full(),
        state.has_worker(id),
        tasks.len() <= state.workers.len(),
        state.next_worker + tasks.len() <= usize::MAX,
    ensures
        ({
            let after = state.pushed_all(tasks);
            let n = state.workers.len() as int;
            let start = state.next_worker as int % n;
            let place = if start <= id {
                id - start
            } else {
                id - start + n
            };
            &&& after == (PoolState {
                injectors: after.injectors,
                next_worker: (state.next_worker + tasks.len()) as usize,
                ..state
            })
            &&& after.injectors.len() == state.injectors.len()
            &&& after.injectors[id].len() == state.injectors[id].len() + if place < tasks.len() {
                1int
            } else {
                0
            }
        }),
    decreases tasks.len(),
{
    let n = state.workers.len() as int;
    lemma_cycle(state.next_worker as int, 0, n);
    if tasks.len() > 0 {
        let k = tasks.len() - 1;
        lemma_overflow(state, tasks.drop_last(), id);
        lemma_cycle(state.next_worker as int, k, n);
    }
}

/// How often `step` occurs in a run.
pub open spec fn step_count(steps: Seq<PoolStep>, step: PoolStep) -> nat
    decreases steps.len(),
{
    if steps.len() == 0 {
        0
    } else {
        step_count(steps.drop_last(), step) + if steps.last() == step {
            1nat
        } else {
            0nat
        }
    }
}

/// How many blocking tasks reported a value, or an error, in a run.
pub open spec fn report_count(steps: Seq<PoolStep>, ok: bool) -> nat
    decreases steps.len(),
{
    if steps.len() == 0 {
        0
    } else {
        report_count(steps.drop_last(), ok) + match steps.last() {
            PoolStep::Reported { id: _, ok: how } => if how == ok {
                1nat
            } else {
                0nat
            },
            _ => 0nat,
        }
    }
}

/// Every worker whose task has reported has that task in hand.
proof fn lemma_delivered_are_held(workers: Seq<WorkerState>)
    ensures
        delivered(workers) <= total(workers.map_values(|w: WorkerState| held_by(w))).len(),
    decreases workers.len(),
{
    broadcast use vstd::multiset::group_multiset_axioms;

    let held = workers.map_values(|w: WorkerState| held_by(w));
    if workers.len() > 0 {
        lemma_delivered_are_held(workers.drop_last());
        assert(held.drop_last() =~= workers.drop_last().map_values(|w: WorkerState| held_by(w)));
    }
}

/// The number of workers whose task has reported follows the steps.
proof fn lemma_delivered_step(state: PoolState, post: PoolState, step: PoolStep)
    requires
        state.wf(),
        state.steps_to(post, step),
    ensures
        delivered(post.workers) == delivered(state.workers) + match step {
            PoolStep::Reported { id: _, ok: _ } => 1int,
            PoolStep::Ended { id: _ } => -1,
            _ => 0,
        },
{
    let moved = match step {
        PoolStep::Started { id, seed } => Some(id),
        PoolStep::Turned { id, action } => {
            lemma_turn_frame(state, post, id, action);
            Some(id)
        },
        PoolStep::Ended { id } => Some(id),
        PoolStep::Notified { id } => Some(id),
        PoolStep::Left { id } => Some(id),
        PoolStep::Reported { id, ok } => Some(id),
        _ => None,
    };
    if let Some(id) = moved {
        lemma_tally_update(state.workers, is_delivered(), id, post.workers[id]);
        assert(post.workers =~= state.workers.update(id, post.workers[id]));
    }
}

/// Every blocking task that was spawned has reported, or is still in the pool and has
/// not: none reports twice, and none ends without its report. The pool shows as queued
/// just the tasks in the bounded queue.
pub proof fn law_tasks_are_accounted_for(
    config: Config,
    trace: Seq<PoolState>,
    steps: Seq<PoolStep>,
)
    requires
        0 < queue_capacity(config),
        is_run(trace, steps),
        trace[0] == PoolState::initial(config),
    ensures
        ({
            let state = trace.last();
            let reports = report_count(steps, true) + report_count(steps, false);
            &&& state.wf()
            &&& state.config == config
            &&& state.metrics().queued_tasks == state.global.len()
            &&& step_count(steps, PoolStep::Spawned) == reports + state.in_flight().len()
                - delivered(state.workers)
            &&& delivered(state.workers) <= state.in_flight().len()
            &&& reports <= step_count(steps, PoolStep::Spawned)
        }),
    decreases steps.len(),
{
    broadcast use vstd::multiset::group_multiset_axioms;

    if steps.len() == 0 {
        lemma_initial(config);
        lemma_tally_none(trace[0].workers, is_delivered());
        assert(PoolState::initial(config).in_flight().len() == 0);
    } else {
        let n = steps.len() - 1;
        lemma_last_step(trace, steps);
        law_tasks_are_accounted_for(config, trace.drop_last(), steps.drop_last());
        law_step_keeps_the_order(trace[n], trace[n + 1], steps[n]);
        law_step_keeps_the_tasks(trace[n], trace[n + 1], steps[n]);
        lemma_delivered_step(trace[n], trace[n + 1], steps[n]);
        if let PoolStep::Turned { id, action } = steps[n] {
            lemma_turn_frame(trace[n], trace[n + 1], id, action);
        }
    }
    lemma_delivered_are_held(trace.last().workers);
}

/// While metrics are on, the counters of a pool are the numbers of blocking tasks that
/// were spawned, that reported a value and that reported an error, as long as the number
/// spawned fits its counter: so it never shows more ended tasks than spawned ones. While
/// metrics are off nothing is counted.
pub proof fn law_metrics_count_the_tasks(
    config: Config,
    trace: Seq<PoolState>,
    steps: Seq<PoolStep>,
)
    requires
        0 < queue_capacity(config),
        is_run(trace, steps),
        trace[0] == PoolState::initial(config),
        step_count(steps, PoolStep::Spawned) <= usize::MAX,
    ensures
        ({
            let shown = trace.last().metrics();
            &&& shown.total_spawned == if config.enable_metrics {
                step_count(steps, PoolStep::Spawned)
            } else {
                0
            }
            &&& shown.completed_tasks == if config.enable_metrics {
                report_count(steps, true)
            } else {
                0
            }
            &&& shown.failed_tasks == if config.enable_metrics {
                report_count(steps, false)
            } else {
                0
            }
            &&& shown.completed_tasks + shown.failed_tasks <= shown.total_spawned
        }),
    decreases steps.len(),
{
    law_tasks_are_accounted_for(config, trace, steps);
    if steps.len() > 0 {
        let n = steps.len() - 1;
        lemma_last_step(trace, steps);
        law_tasks_are_accounted_for(config, trace.drop_last(), steps.drop_last());
        law_metrics_count_the_tasks(config, trace.drop_last(), steps.drop_last());
        if let PoolStep::Turned { id, action } = steps[n] {
            lemma_turn_frame(trace[n], trace[n + 1], id, action);
        }
    }
}

/// When waiting for all tasks is over, and so when a pool has been shut down without a
/// timeout, every blocking task that was spawned has reported how it ended: with metrics
/// on, the ended tasks that the pool shows are all that were spawned. The numbers of
/// tasks are taken to fit their counters.
pub proof fn law_idle_pool_has_every_result(
    config: Config,
    trace: Seq<PoolState>,
    steps: Seq<PoolStep>,
)
    requires
        0 < queue_capacity(config),
        is_run(trace, steps),
        trace[0] == PoolState::initial(config),
        forall|j: int|
            0 <= j < trace.len() ==> (#[trigger] trace[j]).load() < usize::MAX,
        step_count(steps, PoolStep::Spawned) <= usize::MAX,
        trace.last().active == 0,
    ensures
        report_count(steps, true) + report_count(steps, false) == step_count(
            steps,
            PoolStep::Spawned,
        ),
        config.enable_metrics ==> {
            let shown = trace.last().metrics();
            &&& shown.total_spawned == step_count(steps, PoolStep::Spawned)
            &&& shown.completed_tasks + shown.failed_tasks == shown.total_spawned
        },
{
    law_active_counts_the_tasks(config, trace, steps, trace.len() - 1);
    law_tasks_are_accounted_for(config, trace, steps);
    law_metrics_count_the_tasks(config, trace, steps);
}

/// The workers of a cancelled pool without tasks leave: one that searches parks or
/// leaves, and one that is parked leaves once it sees the cancellation.
pub proof fn law_workers_of_an_empty_pool_leave(
    state: PoolState,
    post: PoolState,
    id: int,
    action: WorkerAction,
)
    requires
        state.wf(),
        state.balanced(),
        state.active == 0,
        state.cancelled,
        state.has_worker(id),
        state.turn(post, id, action),
    ensures
        match action {
            WorkerAction::Park => post.steps_to(post.left(id), PoolStep::Left { id })
                && post.left(id).workers[id].phase is Stopped,
            WorkerAction::Stop => post.workers[id].phase is Stopped,
            _ => false,
        },
{
    law_idle_pool_is_empty(state);
    lemma_turn_frame(state, post, id, action);
    if !(action is Stop) {
        law_search_is_decided(state, post, id, action);
        assert(state.injectors[id].len() == 0 && state.locals[id].len() == 0);
        assert forall|v: int| state.has_worker(v) && v != id implies !#[trigger] state.has_tasks(
            v,
        ) by {
            assert(state.injectors[v].len() == 0 && state.locals[v].len() == 0);
        }
    }
}

/// A worker leaves its loop only where the pool was cancelled, and one that left
/// takes no step any more.
pub proof fn law_workers_leave_only_a_cancelled_pool(
    state: PoolState,
    post: PoolState,
    step: PoolStep,
    id: int,
)
    requires
        state.has_worker(id),
        state.steps_to(post, step),
    ensures
        post.has_worker(id),
        post.workers[id].phase is Stopped && !(state.workers[id].phase is Stopped)
            ==> state.cancelled,
        state.workers[id].phase is Stopped ==> post.workers[id] == state.workers[id],
{
    if let PoolStep::Turned { id: other, action } = step {
        lemma_turn_frame(state, post, other, action);
    }
}

/// A cancelled pool stays cancelled, by whatever step.
pub proof fn law_cancellation_is_final(state: PoolState, post: PoolState, step: PoolStep)
    requires
        state.cancelled,
        state.steps_to(post, step),
    ensures
        post.cancelled,
{
    if let PoolStep::Turned { id, action } = step {
        lemma_turn_frame(state, post, id, action);
    }
}

/// An asynchronous task is active from its spawning to its end, and changes no other
/// counter of the pool: once it has ended, the pool shows what it showed before.
pub proof fn law_async_task_leaves_the_metrics(state: PoolState)
    ensures
        state.async_spawned().metrics() == (PoolMetrics {
            active_tasks: usize_specs::wrapping_add(state.active, 1),
            ..state.metrics()
        }),
        state.async_ended().metrics() == (PoolMetrics {
            active_tasks: usize_specs::wrapping_sub(state.active, 1),
            ..state.metrics()
        }),
        state.async_spawned().async_ended().metrics() == state.metrics(),
{
}

/// How many waiting asynchronous tasks were given up in a run.
pub open spec fn given_up_count(steps: Seq<PoolStep>) -> nat
    decreases steps.len(),
{
    if steps.len() == 0 {
        0
    } else {
        given_up_count(steps.drop_last()) + if steps.last() is GivenUp {
            1nat
        } else {
            0nat
        }
    }
}

/// Of the asynchronous tasks that were spawned and neither ended nor were given up, no
/// more are in progress than `max_pending` allows, where it is set; the others wait, and
/// none waits while another may start.
pub proof fn law_limit_holds(config: Config, trace: Seq<PoolState>, steps: Seq<PoolStep>)
    requires
        0 < queue_capacity(config),
        is_run(trace, steps),
        trace[0] == PoolState::initial(config),
        step_count(steps, PoolStep::AsyncSpawned) <= usize::MAX,
    ensures
        ({
            let state = trace.last();
            &&& state.wf()
            &&& state.config == config
            &&& config.max_pending matches Some(limit) ==> state.in_progress <= limit
            &&& state.waiting.len() > 0 ==> !state.may_start()
            &&& state.in_progress + state.waiting.len() == step_count(steps, PoolStep::AsyncSpawned)
                - step_count(steps, PoolStep::AsyncEnded) - given_up_count(steps)
        }),
    decreases steps.len(),
{
    if steps.len() == 0 {
        lemma_initial(config);
    } else {
        let n = steps.len() - 1;
        let before = trace.drop_last();
        lemma_last_step(trace, steps);
        law_limit_holds(config, before, steps.drop_last());
        law_step_keeps_the_order(trace[n], trace[n + 1], steps[n]);
        if let PoolStep::Turned { id, action } = steps[n] {
            lemma_turn_frame(trace[n], trace[n + 1], id, action);
        }
    }
}

/// Of `n` asynchronous tasks spawned one after the other the first ones start, as many
/// as may; nothing but the counts, the names and the waiting tasks changes.
pub proof fn lemma_async_spawned_n(state: PoolState, n: nat)
    requires
        state.wf(),
    ensures
        ({
            let after = state.async_spawned_n(n);
            &&& after.wf()
            &&& after == (PoolState {
                active: after.active,
                next_task: after.next_task,
                in_progress: after.in_progress,
                waiting: after.waiting,
                ..state
            })
            &&& state.config.max_pending matches Some(_) ==> after.in_progress == state.in_progress
                + state.starting(n)
            &&& after.may_start() <==> state.starting(n + 1) == n + 1
            &&& state.starting(n + 1) == state.starting(n) + if after.may_start() {
                1int
            } else {
                0
            }
            &&& state.starting(n) <= n
        }),
    decreases n,
{
    if n > 0 {
        lemma_async_spawned_n(state, (n - 1) as nat);
    }
}

/// Spawning changes no worker and needs a place for each task.
pub proof fn lemma_spawned_n(state: PoolState, n: nat)
    requires
        state.wf(),
        state.can_take(n as int),
    ensures
        state.spawned_n(n).wf(),
        state.spawned_n(n).config == state.config,
        state.spawned_n(n).workers == state.workers,
        state.spawned_n(n).idle == state.idle,
        state.workers.len() == 0 ==> state.spawned_n(n).room() == state.room() - n,
    decreases n,
{
    if n > 0 {
        let before = state.spawned_n((n - 1) as nat);
        lemma_spawned_n(state, (n - 1) as nat);
        assert(before.steps_to(before.spawned(), PoolStep::Spawned));
        law_step_keeps_the_order(before, before.spawned(), PoolStep::Spawned);
    }
}

} // verus!
