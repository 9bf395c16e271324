//! What a user of a pool and its scopes sees, on concrete values.
use async_rayon::errors::SpawnError;
use async_rayon::handle::{Channel, JoinHandle};
use async_rayon::join::JoinRun;
use async_rayon::model::{JoinOrdering, Ratio};
use async_rayon::pool::{Config, Scope, ThreadPoolInner, Timeout};
use async_rayon::result::SpawnResult;
use async_rayon::scope::AsyncTasks;
use async_rayon::task::TaskEvent;
use async_rayon::worker::{WorkerAction, WorkerPhase};

/// Lets the workers run until no task is active. Every parked worker is notified
/// in turn.
fn run_workers<F: FnMut(&mut ThreadPoolInner, usize, u64)>(pool: &mut ThreadPoolInner, mut body: F) {
    let workers = pool.ref_config().num_threads;
    while !pool.join_all() {
        for id in 0..workers {
            match pool.worker_phase(id) {
                Some(WorkerPhase::Starting) => pool.start_worker(id, 88172645463325252 + id as u64),
                Some(WorkerPhase::Parked) => pool.worker_notified(id),
                _ => {}
            }
            if pool.worker_phase(id) == Some(WorkerPhase::Searching) {
                if let WorkerAction::Run(task) = pool.worker_loop(id) {
                    body(pool, id, task);
                    pool.task_ended(id);
                }
            }
        }
    }
}

/// Lets the items of a batch run: as many start as the pool allows, and as many of them
/// are at work as the batch allows. Of the items at work the one that began last ends
/// first.
fn run_batch<R, F: FnMut(usize) -> TaskEvent<R>>(
    pool: &mut ThreadPoolInner,
    scope: &mut Scope,
    n: usize,
    max_concurrent: usize,
    ordering: JoinOrdering,
    mut event: F,
) -> Vec<SpawnResult<R>> {
    let items: Vec<usize> = (0..n).collect();
    let limit = pool.ref_config().max_pending.unwrap_or(usize::MAX);
    let (spawned, mut run) = scope.batch_process(pool, &items, max_concurrent, ordering);
    let first = spawned.tasks[0];
    let mut at_work: Vec<usize> = Vec::new();
    for i in 0..spawned.starting {
        if run.acquire(i) {
            at_work.push(i);
        }
    }
    while !run.is_done() {
        assert!(run.running() <= max_concurrent);
        assert!(pool.in_progress() <= limit);
        let i = at_work.pop().unwrap();
        if let Some(next) = run.release(i) {
            at_work.push(next);
        }
        let end = scope.finish(pool, event(i));
        assert!(run.arrive(i, Channel::Sent(end.result)));
        if let Some(task) = end.next {
            let next = (task - first) as usize;
            if run.acquire(next) {
                at_work.push(next);
            }
        }
    }
    run.finish()
}

#[test]
fn test_cancellation() {
    let mut pool = ThreadPoolInner::new(4, None);
    let mut scope = Scope::new(&pool);

    let mut handle = scope.spawn::<i32>(&mut pool).handle;
    assert!(!handle.is_cancelled(), "a new task is not marked");
    handle.cancel();
    assert!(handle.is_cancelled(), "the task is marked as cancelled");

    let mut handle2 = scope.spawn::<i32>(&mut pool).handle;
    let end = scope.finish(&mut pool, TaskEvent::Returned(10));
    assert!(!end.wake_scope);
    handle2.deliver(Channel::Sent(end.result));
    match handle2.poll() {
        Ok(result) => assert_eq!(result, Ok(10)),
        Err(_) => panic!("the result has come"),
    }

    assert!(!scope.wait());
    let end = scope.finish::<i32>(&mut pool, TaskEvent::Cancelled);
    assert!(end.wake_scope);
    handle.deliver(Channel::Sent(end.result));
    assert_eq!(handle.await_timeout(), Err(SpawnError::Cancelled));
    assert!(scope.wait());
}

#[test]
fn test_timeout() {
    let mut pool = ThreadPoolInner::new(4, None);
    let mut scope = Scope::new(&pool);

    let handle = scope.spawn::<i32>(&mut pool).handle;
    match handle.await_timeout() {
        Err(SpawnError::Timeout) => {}
        Ok(val) => panic!("expected a timeout, got {}", val),
        Err(e) => panic!("expected a timeout, got {:?}", e),
    }
}

#[test]
fn test_metrics_tracking() {
    let mut pool = ThreadPoolInner::with_config(Config::cpu_bound());
    let mut scope = Scope::new(&pool);

    let _results = run_batch(&mut pool, &mut scope, 1000, 50, JoinOrdering::Ordered, |x| {
        if x % 10 == 0 {
            TaskEvent::Panicked(String::from("Test panic"))
        } else {
            TaskEvent::Returned(x)
        }
    });

    let pool_metrics = pool.metrics();
    let scope_metrics = scope.metrics();
    assert!(scope_metrics.total() >= 1000);
    assert!(scope_metrics.completed > 0);
    assert!(scope_metrics.failed > 0);

    assert_eq!(scope_metrics.completed, 900);
    assert_eq!(scope_metrics.failed, 100);
    assert_eq!(scope_metrics.pending, 0);
    assert_eq!(scope_metrics.success_rate(), Ratio { numerator: 900, denominator: 1000 });
    assert_eq!(pool_metrics.total_spawned, 0);
    assert_eq!(pool_metrics.success_rate(), Ratio { numerator: 1, denominator: 1 });
}

#[test]
fn test_monitoring_cpu() {
    let mut pool = ThreadPoolInner::new(8, Some(100));
    let mut monitor = pool.start_monitoring(Timeout { secs: 0, nanos: 100_000_000 });
    assert_eq!(monitor.interval(), Timeout { secs: 0, nanos: 100_000_000 });
    assert!(!monitor.is_stopped());

    let mut scope = Scope::new(&pool);
    let items: Vec<i32> = (0..500).collect();
    let (jobs, mut run) = scope.batch_process_cpu::<i32, i32>(&mut pool, items, 20);
    assert_eq!(jobs.chunks.len(), 25);
    assert_eq!(jobs.tasks.tasks.len(), 25);
    assert_eq!(pool.monitor_tick(&monitor).unwrap().active_tasks, 25);

    let mut chunks: Vec<Option<Vec<i32>>> = jobs.chunks.into_iter().map(Some).collect();
    let names = jobs.tasks.tasks;
    run_workers(&mut pool, |pool, id, task| {
        let k = names.iter().position(|t| *t == task).unwrap();
        let chunk = chunks[k].take().unwrap();
        let (result, _) = scope.finish_blocking(pool, id, TaskEvent::Returned(chunk));
        assert!(run.arrive(k, Channel::Sent(result)));
    });
    assert!(run.is_done());
    let results = run.finish();
    let expected: Vec<SpawnResult<i32>> = (0..500).map(Ok).collect();
    assert_eq!(results, expected);

    let shown = pool.monitor_tick(&monitor).unwrap();
    assert_eq!(shown.active_tasks, 0);
    assert_eq!(shown.total_spawned, 25);
    assert_eq!(shown.completed_tasks, 25);
    ThreadPoolInner::stop_monitoring(&mut monitor);
    assert!(monitor.is_stopped());
    assert!(pool.monitor_tick(&monitor).is_none());
}

#[test]
fn test_monitoring_scope() {
    let mut pool = ThreadPoolInner::new(8, Some(100));
    let mut scope = Scope::new(&pool);
    let mut monitor = scope.start_monitoring(Timeout { secs: 0, nanos: 100_000_000 });

    let results = run_batch(&mut pool, &mut scope, 500, 20, JoinOrdering::Ordered, TaskEvent::Returned);
    let expected: Vec<SpawnResult<usize>> = (0..500).map(Ok).collect();
    assert_eq!(results, expected);

    let shown = scope.monitor_tick(&monitor).unwrap();
    assert_eq!(shown.completed, 500);
    assert_eq!(shown.pending, 0);
    assert_eq!(shown.failed, 0);
    Scope::stop_monitoring(&mut monitor);
    assert!(scope.monitor_tick(&monitor).is_none());
}

#[test]
fn shutdown_waits_for_the_active_tasks() {
    let mut pool = ThreadPoolInner::new(4, None);
    let mut scope = Scope::new(&pool);
    for _ in 0..100 {
        scope.spawn_blocking_with_handle::<i32>(&mut pool);
    }
    assert!(!pool.shutdown());
    assert!(!pool.is_cancelled());
    assert_eq!(pool.shutdown_timeout(false), None);
    assert!(!pool.is_cancelled());
    assert_eq!(pool.join_all_timeout(false), None);
    assert_eq!(pool.join_all_timeout(true), Some(false));

    let mut ended = 0;
    run_workers(&mut pool, |pool, id, _| {
        scope.finish_blocking(pool, id, TaskEvent::Returned(1));
        ended += 1;
    });
    assert_eq!(ended, 100);
    assert_eq!(pool.join_all_timeout(true), Some(true));
    assert_eq!(pool.shutdown_timeout(true), Some(true));
    assert!(pool.is_cancelled());
    assert!(scope.wait());
    assert_eq!(pool.metrics().active_tasks, 0);
    assert_eq!(pool.metrics().completed_tasks, 100);
}

#[test]
fn a_pool_shuts_down_after_its_scope() {
    let mut pool = ThreadPoolInner::new(4, None);
    let mut scope = Scope::new(&pool);
    let handles: Vec<_> = (0..100).map(|_| scope.spawn::<i32>(&mut pool).handle).collect();
    assert_eq!(pool.shutdown_timeout(false), None, "a hundred tasks are active");
    for (i, mut handle) in handles.into_iter().enumerate() {
        let end = scope.finish(&mut pool, TaskEvent::Returned(i as i32));
        handle.deliver(Channel::Sent(end.result));
        assert_eq!(handle.await_timeout(), Ok(i as i32));
    }
    assert!(scope.wait());
    assert_eq!(pool.shutdown_timeout(false), Some(true), "no task is active");
    assert_eq!(pool.metrics().active_tasks, 0);
}

#[test]
fn shutdown_with_a_timeout_cancels_a_busy_pool() {
    let mut pool = ThreadPoolInner::new(1, Some(4));
    let mut scope = Scope::new(&pool);
    scope.spawn_blocking_with_handle::<i32>(&mut pool);
    assert_eq!(pool.shutdown_timeout(true), Some(false));
    assert!(pool.is_cancelled());
    assert_eq!(pool.metrics().active_tasks, 1);
}

#[test]
fn a_scope_waits_for_the_last_task() {
    let mut pool = ThreadPoolInner::new(1, None);
    let mut scope = Scope::new(&pool);
    assert!(scope.wait());
    scope.spawn::<i32>(&mut pool);
    scope.spawn_with_handle::<i32>(&mut pool);
    assert!(!scope.wait());
    assert_eq!(scope.wait_timeout(false), None);
    assert_eq!(scope.wait_timeout(true), Some(false));
    let end = scope.finish(&mut pool, TaskEvent::Returned(1));
    assert_eq!((end.result, end.wake_scope), (Ok(1), false));
    let end = scope.finish::<i32>(&mut pool, TaskEvent::JoinFailed(String::from("gone")));
    assert_eq!(end.result, Err(SpawnError::JoinFailed(String::from("gone"))));
    assert!(end.wake_scope && end.wake_pool);
    assert_eq!(scope.wait_timeout(true), Some(true));
    assert_eq!(scope.metrics().total(), 2);
}

#[test]
fn a_scope_without_metrics_counts_only_pending_tasks() {
    let mut pool = ThreadPoolInner::with_config(Config::io_bound_fast());
    let mut scope = Scope::new(&pool);
    scope.spawn::<i32>(&mut pool);
    scope.spawn::<i32>(&mut pool);
    scope.finish(&mut pool, TaskEvent::Returned(1));
    assert_eq!(scope.metrics().pending, 1);
    assert_eq!(scope.metrics().completed, 0);
    assert_eq!(scope.metrics().failed, 0);
}

#[test]
fn an_unfinished_asynchronous_task_keeps_the_pool_active() {
    let mut pool = ThreadPoolInner::new(4, None);
    let mut scope = Scope::new(&pool);
    let before = pool.metrics();
    scope.spawn::<i32>(&mut pool);
    assert_eq!(pool.metrics().active_tasks, 1);
    assert!(!pool.join_all());
    assert!(!pool.shutdown());
    assert_eq!(pool.join_all_timeout(true), Some(false));
    assert_eq!(pool.shutdown_timeout(false), None);
    let end = scope.finish(&mut pool, TaskEvent::Returned(42));
    assert!(end.wake_pool);
    let after = pool.metrics();
    assert_eq!(after.active_tasks, before.active_tasks);
    assert_eq!(after.total_spawned, before.total_spawned);
    assert_eq!(after.completed_tasks, before.completed_tasks);
    assert_eq!(after.failed_tasks, before.failed_tasks);
    assert_eq!(after.queued_tasks, before.queued_tasks);
    assert_eq!(pool.shutdown_timeout(false), Some(true));

    let mut pool = ThreadPoolInner::new(4, None);
    scope.spawn::<i32>(&mut pool);
    assert_eq!(pool.shutdown_timeout(true), Some(false));
}

#[test]
fn tasks_beyond_the_limit_wait_and_start_in_order() {
    let mut pool = ThreadPoolInner::new(1, Some(2));
    let mut scope = Scope::new(&pool);
    let starts: Vec<bool> = (0..4).map(|_| scope.spawn::<i32>(&mut pool).starts).collect();
    assert_eq!(starts, vec![true, true, false, false]);
    assert_eq!(pool.in_progress(), 2);
    assert_eq!(scope.finish(&mut pool, TaskEvent::Returned(0)).next, Some(2));
    assert_eq!(pool.in_progress(), 2);
    assert!(!scope.spawn::<i32>(&mut pool).starts);
    assert_eq!(scope.finish(&mut pool, TaskEvent::Returned(0)).next, Some(3));
    assert_eq!(scope.finish(&mut pool, TaskEvent::Returned(0)).next, Some(4));
    assert_eq!(scope.finish(&mut pool, TaskEvent::Returned(0)).next, None);
    assert_eq!(pool.in_progress(), 1);
}

#[test]
fn a_task_that_waits_can_be_cancelled() {
    let mut pool = ThreadPoolInner::new(1, Some(1));
    let mut scope = Scope::new(&pool);
    for _ in 0..3 {
        scope.spawn::<i32>(&mut pool);
    }
    let end = scope.finish_waiting::<i32>(&mut pool, 1).unwrap();
    assert_eq!(end.result, Err(SpawnError::Cancelled));
    assert_eq!((end.next, end.wake_scope, end.wake_pool), (None, false, false));
    assert!(scope.finish_waiting::<i32>(&mut pool, 1).is_none());
    assert!(scope.finish_waiting::<i32>(&mut pool, 0).is_none());
    assert_eq!(scope.metrics().pending, 2);
    assert_eq!(scope.metrics().failed, 1);
    assert_eq!(pool.metrics().active_tasks, 2);
    assert_eq!(scope.finish(&mut pool, TaskEvent::Returned(0)).next, Some(2));
}

#[test]
fn a_pool_without_metrics_counts_only_active_tasks() {
    let mut pool = ThreadPoolInner::with_config(Config::io_bound_fast());
    let mut scope = Scope::new(&pool);
    scope.spawn_blocking_with_handle::<i32>(&mut pool);
    assert_eq!(pool.metrics().active_tasks, 1);
    assert_eq!(pool.metrics().total_spawned, 0);
    run_workers(&mut pool, |pool, id, _| {
        scope.finish_blocking(pool, id, TaskEvent::Returned(1));
    });
    assert_eq!(pool.metrics().active_tasks, 0);
    assert_eq!(pool.metrics().completed_tasks, 0);
}

#[test]
fn a_piece_of_work_ends_with_its_body_and_its_tasks() {
    let mut pool = ThreadPoolInner::new(1, None);
    let mut scope = Scope::new(&pool);
    scope.spawn::<i32>(&mut pool);
    assert_eq!(ThreadPoolInner::scope_async::<i32>(&scope, None), Err(None));
    assert_eq!(ThreadPoolInner::scope_async(&scope, Some(7)), Err(Some(7)));
    scope.finish(&mut pool, TaskEvent::Returned(1));
    assert_eq!(ThreadPoolInner::scope_async::<i32>(&scope, None), Err(None));
    assert_eq!(ThreadPoolInner::scope_async(&scope, Some(7)), Ok(7));
}

#[test]
fn every_way_to_end_is_told_through_the_handle() {
    let mut pool = ThreadPoolInner::new(1, None);
    let mut scope = Scope::new(&pool);
    let ends: Vec<(TaskEvent<i32>, SpawnResult<i32>)> = vec![
        (TaskEvent::Returned(5), Ok(5)),
        (TaskEvent::Cancelled, Err(SpawnError::Cancelled)),
        (
            TaskEvent::Panicked(String::from("boom")),
            Err(SpawnError::Panic(String::from("boom"))),
        ),
        (
            TaskEvent::JoinFailed(String::from("gone")),
            Err(SpawnError::JoinFailed(String::from("gone"))),
        ),
    ];
    for (event, expected) in ends {
        let mut handle = scope.spawn::<i32>(&mut pool).handle;
        let end = scope.finish(&mut pool, event);
        handle.deliver(Channel::Sent(end.result));
        handle.deliver(Channel::Closed);
        match handle.await_result() {
            Ok(result) => assert_eq!(result, expected),
            Err(_) => panic!("the result has come"),
        }
    }
}

#[test]
fn a_closed_channel_is_an_error() {
    let mut pool = ThreadPoolInner::new(1, None);
    let mut scope = Scope::new(&pool);
    let mut handle = scope.spawn::<i32>(&mut pool).handle;
    assert!(handle.is_waiting());
    handle.deliver(Channel::Closed);
    assert!(!handle.is_waiting());
    assert!(handle.await_result().is_err());

    let mut handle = scope.spawn::<i32>(&mut pool).handle;
    handle.deliver(Channel::Closed);
    assert_eq!(handle.await_timeout(), Err(SpawnError::ChannelClosed));

    let mut handle = scope.spawn::<i32>(&mut pool).handle;
    handle.deliver(Channel::Closed);
    match handle.poll() {
        Ok(result) => assert_eq!(result, Err(SpawnError::ChannelClosed)),
        Err(_) => panic!("the channel waits no longer"),
    }
}

#[test]
fn a_waiting_handle_is_handed_back() {
    let mut pool = ThreadPoolInner::new(1, None);
    let mut scope = Scope::new(&pool);
    let mut handle = scope.spawn::<i32>(&mut pool).handle;
    handle.cancel();
    match handle.poll() {
        Ok(_) => panic!("nothing has come"),
        Err(handle) => assert!(handle.is_cancelled() && handle.is_waiting()),
    }
}

fn three_handles(pool: &mut ThreadPoolInner, scope: &mut Scope) -> Vec<JoinHandle<i32>> {
    (0..3).map(|_| scope.spawn::<i32>(pool).handle).collect()
}

#[test]
fn cancel_all_marks_every_handle() {
    let mut pool = ThreadPoolInner::new(1, None);
    let mut scope = Scope::new(&pool);
    let mut handles = three_handles(&mut pool, &mut scope);
    let end = scope.finish(&mut pool, TaskEvent::Returned(3));
    handles[1].deliver(Channel::Sent(end.result));
    scope.cancel_all(&mut handles);
    assert!(handles.iter().all(|h| h.is_cancelled()));
    assert!(handles[0].is_waiting() && handles[2].is_waiting());
    assert_eq!(handles.remove(1).await_timeout(), Ok(3));
}

#[test]
fn joined_results_keep_their_order_or_come_as_they_end() {
    let mut pool = ThreadPoolInner::new(1, None);
    for (ordering, expected) in [
        (JoinOrdering::Ordered, vec![10, 11, 12]),
        (JoinOrdering::UnOrdered, vec![12, 10, 11]),
    ] {
        let mut scope = Scope::new(&pool);
        let (spawned, mut run): (AsyncTasks, JoinRun<i32>) =
            scope.spawn_bulk_compute(&mut pool, &[0, 1, 2], ordering);
        assert_eq!((spawned.tasks.len(), spawned.starting), (3, 3));
        assert_eq!(scope.metrics().pending, 3);
        for i in [2usize, 0, 1] {
            assert!(!run.is_done());
            let end = scope.finish(&mut pool, TaskEvent::Returned(10 + i as i32));
            assert!(run.arrive(i, Channel::Sent(end.result)));
            assert!(!run.arrive(i, Channel::Closed));
        }
        assert!(!run.arrive(3, Channel::Closed));
        assert!(run.is_done());
        let expected: Vec<SpawnResult<i32>> = expected.into_iter().map(Ok).collect();
        assert_eq!(run.finish(), expected);
    }
}

#[test]
fn handles_that_have_their_results_are_joined_first() {
    let mut pool = ThreadPoolInner::new(1, None);
    let mut scope = Scope::new(&pool);
    let mut handles = three_handles(&mut pool, &mut scope);
    let end = scope.finish(&mut pool, TaskEvent::Returned(2));
    handles[2].deliver(Channel::Sent(end.result));
    let mut run = scope.join_handles(handles, JoinOrdering::UnOrdered);
    assert_eq!(run.len(), 3);
    assert!(!run.arrive(2, Channel::Closed));
    assert!(!run.arrive(0, Channel::Waiting));
    assert!(run.arrive(1, Channel::Closed));
    assert!(run.arrive(0, Channel::Sent(Ok(0))));
    assert_eq!(run.finish(), vec![Ok(2), Err(SpawnError::ChannelClosed), Ok(0)]);
}

#[test]
fn the_tasks_of_a_map_are_joined_like_others() {
    let mut pool = ThreadPoolInner::new(1, None);
    let mut scope = Scope::new(&pool);
    let handles = three_handles(&mut pool, &mut scope);
    assert_eq!(scope.metrics().pending, 3);
    let mut run = scope.par_map_async(handles, JoinOrdering::Ordered);
    for i in [1usize, 2, 0] {
        let end = scope.finish(&mut pool, TaskEvent::Returned(i as i32 * 5));
        assert!(run.arrive(i, Channel::Sent(end.result)));
    }
    assert_eq!(run.finish(), vec![Ok(0), Ok(5), Ok(10)]);
}

#[test]
fn nothing_to_do_is_done_at_once() {
    let mut pool = ThreadPoolInner::new(1, None);
    let mut scope = Scope::new(&pool);
    let none: Vec<i32> = Vec::new();
    let (_, run) = scope.spawn_bulk_compute::<i32, i32>(&mut pool, &none, JoinOrdering::Ordered);
    assert!(run.is_done() && run.finish().is_empty());
    let run = scope.par_map_async::<i32>(Vec::new(), JoinOrdering::UnOrdered);
    assert!(run.is_done() && run.finish().is_empty());
    let (_, run) =
        scope.batch_process::<i32, i32>(&mut pool, &none, usize::MAX, JoinOrdering::Ordered);
    assert!(run.is_done() && run.finish().is_empty());
    let (run, started, _) = scope.stream_process::<i32, i32>(&mut pool, Vec::new(), 5);
    assert!(started.is_empty() && run.is_done() && run.finish().is_empty());
    let (jobs, run) = scope.par_map_cpu::<i32, i32>(&mut pool, Vec::new(), 0);
    assert!(jobs.chunks.is_empty() && run.is_done() && run.finish().is_empty());
    let (jobs, run) = scope.batch_process_cpu::<i32, i32>(&mut pool, Vec::new(), 0);
    assert!(jobs.tasks.tasks.is_empty() && run.is_done() && run.finish().is_empty());
    let (tasks, run) =
        scope.spawn_bulk_compute_cpu::<i32, i32>(&mut pool, &none, JoinOrdering::Ordered);
    assert!(tasks.tasks.is_empty() && tasks.wakes == 0 && run.is_done());
    assert_eq!(scope.metrics().pending, 0);
    assert_eq!(pool.metrics().active_tasks, 0);
}

#[test]
fn a_stream_keeps_the_works_full() {
    let mut pool = ThreadPoolInner::new(1, None);
    let mut scope = Scope::new(&pool);
    let (mut run, started, spawned) =
        scope.stream_process::<i32, i32>(&mut pool, vec![1, 2, 3, 4], 2);
    assert_eq!(started, vec![1, 2]);
    assert_eq!((spawned.tasks, spawned.starting), (vec![0, 1], 2));
    assert_eq!(run.in_flight(), 2);
    assert_eq!(scope.metrics().pending, 2);

    let mut expected_next = vec![Some((3, 2)), Some((4, 3)), None, None].into_iter();
    for value in [20, 10, 40, 30] {
        let end = scope.finish(&mut pool, TaskEvent::Returned(value));
        let next = run.on_result(&mut scope, &mut pool, end.result);
        assert!(next.as_ref().map_or(true, |next| next.starts));
        assert_eq!(next.map(|next| (next.item, next.task)), expected_next.next().unwrap());
    }
    assert!(run.is_done());
    assert_eq!(run.finish(), vec![Ok(20), Ok(10), Ok(40), Ok(30)]);
    assert_eq!(scope.metrics().completed, 4);
    assert!(scope.wait());
}

#[test]
fn a_stream_with_no_room_ends_at_once() {
    let mut pool = ThreadPoolInner::new(1, None);
    let mut scope = Scope::new(&pool);
    let (run, started, _) = scope.stream_process::<i32, i32>(&mut pool, vec![1, 2, 3], 0);
    assert!(started.is_empty());
    assert!(run.is_done());
    assert!(run.finish().is_empty());
}

#[test]
fn a_batch_admits_no_more_than_it_may() {
    let mut pool = ThreadPoolInner::new(1, None);
    let mut scope = Scope::new(&pool);
    let (spawned, mut run) =
        scope.batch_process::<i32, i32>(&mut pool, &[1, 2, 3, 4], 2, JoinOrdering::Ordered);
    assert_eq!((spawned.tasks, spawned.starting), (vec![0, 1, 2, 3], 4));
    assert!(run.acquire(1));
    assert!(run.acquire(0));
    assert!(!run.acquire(3));
    assert!(!run.acquire(2));
    assert!(!run.acquire(0) && !run.acquire(4));
    assert_eq!(run.running(), 2);
    assert!(!run.arrive(0, Channel::Sent(Ok(9))));
    assert_eq!(run.release(0), Some(3));
    assert_eq!(run.release(0), None);
    assert_eq!(run.running(), 2);
    assert!(run.arrive(0, Channel::Sent(Ok(9))));
    assert!(!run.arrive(2, Channel::Sent(Ok(9))));
    assert!(run.arrive(2, Channel::Closed));
    assert_eq!(run.release(1), Some(2));
    assert_eq!(run.release(3), None);
    assert_eq!(run.running(), 1);

    let (_, mut run) =
        scope.batch_process::<i32, i32>(&mut pool, &[1], 0, JoinOrdering::Ordered);
    assert!(!run.acquire(0));
    assert_eq!(run.release(0), None);
    assert!(!run.arrive(0, Channel::Sent(Ok(1))));
    assert!(!run.is_done());
}

/// Runs chunks of the numbers below `n`, of which chunk `bad` panics.
fn run_chunks(n: i32, size: usize, bad: usize, trims: bool) -> Vec<SpawnResult<i32>> {
    let mut pool = ThreadPoolInner::new(2, Some(1));
    let mut scope = Scope::new(&pool);
    let items: Vec<i32> = (0..n).collect();
    let (jobs, mut run) = if trims {
        scope.par_map_cpu::<i32, i32>(&mut pool, items, size)
    } else {
        scope.batch_process_cpu::<i32, i32>(&mut pool, items, size)
    };
    let mut chunks: Vec<Option<Vec<i32>>> = jobs.chunks.into_iter().map(Some).collect();
    let names = jobs.tasks.tasks;
    run_workers(&mut pool, |pool, id, task| {
        let k = names.iter().position(|t| *t == task).unwrap();
        let event = if k == bad {
            TaskEvent::Panicked(String::from("bad"))
        } else {
            TaskEvent::Returned(async_rayon::chunks::process_chunk(
                chunks[k].take().unwrap(),
                &|x: i32| x * x,
            ))
        };
        let (result, _) = scope.finish_blocking(pool, id, event);
        assert!(run.arrive(k, Channel::Sent(result)));
    });
    assert!(scope.wait());
    run.finish()
}

#[test]
fn a_failed_chunk_fails_each_of_its_items() {
    let bad = || Err(SpawnError::Panic(String::from("bad")));
    assert_eq!(
        run_chunks(7, 3, 1, true),
        vec![Ok(0), Ok(1), Ok(4), bad(), bad(), bad(), Ok(36)]
    );
    assert_eq!(
        run_chunks(7, 3, 2, true),
        vec![Ok(0), Ok(1), Ok(4), Ok(9), Ok(16), Ok(25), bad()]
    );
    assert_eq!(
        run_chunks(7, 3, 1, false),
        vec![Ok(0), Ok(1), Ok(4), bad(), bad(), bad(), Ok(36)]
    );
}

#[test]
fn a_short_failed_chunk_of_a_batch_stands_for_a_full_one() {
    let bad = || Err(SpawnError::Panic(String::from("bad")));
    assert_eq!(
        run_chunks(4, 3, 1, false),
        vec![Ok(0), Ok(1), Ok(4), bad(), bad(), bad()]
    );
}

#[test]
fn chunks_take_only_results_of_their_own_length() {
    let mut pool = ThreadPoolInner::new(1, None);
    let mut scope = Scope::new(&pool);
    let (jobs, mut run) = scope.par_map_cpu::<i32, i32>(&mut pool, vec![1, 2, 3], 2);
    assert_eq!(jobs.chunks, vec![vec![1, 2], vec![3]]);
    assert!(!run.arrive(0, Channel::Sent(Ok(vec![1]))));
    assert!(!run.arrive(1, Channel::Sent(Ok(vec![1, 2]))));
    assert!(!run.arrive(2, Channel::Closed));
    assert!(run.arrive(1, Channel::Sent(Ok(vec![9]))));
    assert!(run.arrive(0, Channel::Closed));
    assert!(run.is_done());
    assert_eq!(
        run.finish(),
        vec![Err(SpawnError::ChannelClosed), Err(SpawnError::ChannelClosed), Ok(9)]
    );
}

#[test]
fn bulk_blocking_tasks_are_named_in_order() {
    let mut pool = ThreadPoolInner::new(2, Some(1));
    let mut scope = Scope::new(&pool);
    let (tasks, mut run) = scope.spawn_bulk_compute_cpu::<i32, i32>(
        &mut pool,
        &[4, 5, 6],
        JoinOrdering::Ordered,
    );
    assert_eq!(tasks.tasks, vec![0, 1, 2]);
    assert_eq!(tasks.wakes, 0);
    run_workers(&mut pool, |pool, id, task| {
        let (result, _) = scope.finish_blocking(pool, id, TaskEvent::Returned(task as i32 + 40));
        assert!(run.arrive(task as usize, Channel::Sent(result)));
    });
    assert_eq!(run.finish(), vec![Ok(40), Ok(41), Ok(42)]);
    assert_eq!(pool.metrics().total_spawned, 3);
}
