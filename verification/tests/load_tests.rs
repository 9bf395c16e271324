//! Many tasks at a time.
use async_rayon::errors::SpawnError;
use async_rayon::handle::{Channel, JoinHandle};
use async_rayon::model::JoinOrdering;
use async_rayon::pool::{Config, Scope, ThreadPoolInner};
use async_rayon::result::SpawnResult;
use async_rayon::task::TaskEvent;
use async_rayon::worker::{WorkerAction, WorkerPhase};
use std::collections::HashMap;

/// Lets the items of a batch run: as many start as the pool allows, and as many of them
/// are at work as the batch allows. Of the items at work the one that began last ends
/// first.
fn run_batch<R, F: FnMut(usize) -> TaskEvent<R>>(
    pool: &mut ThreadPoolInner,
    scope: &mut Scope,
    n: usize,
    max_concurrent: usize,
    ordering: JoinOrdering,
    mut event: F,
) -> Vec<SpawnResult<R>> {
    let items: Vec<usize> = (0..n).collect();
    let limit = pool.ref_config().max_pending.unwrap_or(usize::MAX);
    let (spawned, mut run) = scope.batch_process(pool, &items, max_concurrent, ordering);
    let first = spawned.tasks[0];
    let mut at_work: Vec<usize> = Vec::new();
    for i in 0..spawned.starting {
        if run.acquire(i) {
            at_work.push(i);
        }
    }
    while !run.is_done() {
        assert!(run.running() <= max_concurrent);
        assert!(pool.in_progress() <= limit);
        let i = at_work.pop().unwrap();
        if let Some(next) = run.release(i) {
            at_work.push(next);
        }
        let end = scope.finish(pool, event(i));
        assert!(run.arrive(i, Channel::Sent(end.result)));
        if let Some(task) = end.next {
            let next = (task - first) as usize;
            if run.acquire(next) {
                at_work.push(next);
            }
        }
    }
    run.finish()
}

/// Lets the items of a stream run, as many at a time as the pool and the stream allow. Of
/// the items that started the one that began last ends first.
fn run_stream<R, F: FnMut(usize) -> TaskEvent<R>>(
    pool: &mut ThreadPoolInner,
    scope: &mut Scope,
    n: usize,
    max_concurrent: usize,
    mut event: F,
) -> Vec<SpawnResult<R>> {
    let items: Vec<usize> = (0..n).collect();
    let (mut run, started, spawned) = scope.stream_process(pool, items, max_concurrent);
    let mut at_work: Vec<usize> = Vec::new();
    let mut waiting: HashMap<u64, usize> = HashMap::new();
    for (k, item) in started.into_iter().enumerate() {
        if k < spawned.starting {
            at_work.push(item);
        } else {
            waiting.insert(spawned.tasks[k], item);
        }
    }
    while !run.is_done() {
        assert!(run.in_flight() <= max_concurrent);
        let i = at_work.pop().unwrap();
        let end = scope.finish(pool, event(i));
        if let Some(task) = end.next {
            at_work.push(waiting.remove(&task).unwrap());
        }
        if let Some(next) = run.on_result(scope, pool, end.result) {
            if next.starts {
                at_work.push(next.item);
            } else {
                waiting.insert(next.task, next.item);
            }
        }
    }
    run.finish()
}

/// Spawns blocking tasks and lets the workers run them. The result of the `i`-th is
/// delivered to the `i`-th handle.
fn run_blocking<R, F: FnMut(usize) -> R>(
    pool: &mut ThreadPoolInner,
    scope: &mut Scope,
    n: usize,
    mut value: F,
) -> Vec<JoinHandle<R>> {
    let mut handles: Vec<JoinHandle<R>> = Vec::new();
    let mut first: Option<u64> = None;
    for _ in 0..n {
        let spawned = scope.spawn_blocking_with_handle(pool);
        first = first.or(Some(spawned.task));
        handles.push(spawned.handle);
    }
    let workers = pool.ref_config().num_threads;
    while !pool.join_all() {
        for id in 0..workers {
            match pool.worker_phase(id) {
                Some(WorkerPhase::Starting) => pool.start_worker(id, 88172645463325252 + id as u64),
                Some(WorkerPhase::Parked) => pool.worker_notified(id),
                _ => {}
            }
            if pool.worker_phase(id) == Some(WorkerPhase::Searching) {
                if let WorkerAction::Run(task) = pool.worker_loop(id) {
                    let i = (task - first.unwrap()) as usize;
                    let (result, _) =
                        scope.finish_blocking(pool, id, TaskEvent::Returned(value(i)));
                    handles[i].deliver(Channel::Sent(result));
                    pool.task_ended(id);
                }
            }
        }
    }
    handles
}

fn successes<R>(results: &[SpawnResult<R>]) -> usize {
    results.iter().filter(|r| r.is_ok()).count()
}

#[test]
fn load_test_1_small_fast_tasks() {
    let mut pool = ThreadPoolInner::with_config(Config::io_bound());
    let mut scope = Scope::new(&pool);
    let results = run_batch(&mut pool, &mut scope, 10_000, 100, JoinOrdering::UnOrdered, |x| {
        TaskEvent::Returned(x * 2)
    });
    assert_eq!(results.len(), 10_000);
    assert_eq!(successes(&results), 10_000);
    let mut values: Vec<usize> = results.into_iter().map(|r| r.unwrap()).collect();
    values.sort();
    assert_eq!(values, (0..10_000).map(|x| x * 2).collect::<Vec<usize>>());
    assert_eq!(scope.metrics().completed, 10_000);
}

#[test]
fn load_test_2_medium_tasks() {
    let mut pool = ThreadPoolInner::with_config(Config::io_bound());
    let mut scope = Scope::new(&pool);
    let results = run_batch(&mut pool, &mut scope, 5_000, 50, JoinOrdering::UnOrdered, |x| {
        TaskEvent::Returned(format!("result_{}", x))
    });
    assert_eq!(results.len(), 5_000);
    assert_eq!(successes(&results), 5_000);
    assert_eq!(results[0], Ok(String::from("result_49")));
    assert_eq!(pool.metrics().total_spawned, 0);
}

#[test]
fn load_test_3_heavy_blocking() {
    let mut pool = ThreadPoolInner::with_config(Config::cpu_bound());
    let mut scope = Scope::new(&pool);
    let handles = run_blocking(&mut pool, &mut scope, 1_000, |i| i * i);
    let run = scope.join_handles(handles, JoinOrdering::UnOrdered);
    assert!(run.is_done());
    let results = run.finish();
    assert_eq!(successes(&results), 1_000);
    assert_eq!(results[31], Ok(961));
    assert_eq!(pool.metrics().completed_tasks, 1_000);
    assert_eq!(pool.metrics().active_tasks, 0);
}

#[test]
fn load_test_4_mixed_workload() {
    let mut pool = ThreadPoolInner::with_config(Config::default());
    let mut scope = Scope::new(&pool);
    let async_results = run_batch(&mut pool, &mut scope, 2_000, 100, JoinOrdering::UnOrdered, |x| {
        TaskEvent::Returned(x + 1)
    });
    let handles = run_blocking(&mut pool, &mut scope, 500, |i| i * 2);
    let blocking_results = scope.join_handles(handles, JoinOrdering::UnOrdered).finish();
    let stream_results =
        run_stream(&mut pool, &mut scope, 1_000, 100, |x| TaskEvent::Returned(x * 3));
    assert_eq!(successes(&async_results), 2_000);
    assert_eq!(successes(&blocking_results), 500);
    assert_eq!(successes(&stream_results), 1_000);
    assert_eq!(scope.metrics().total(), 3_500);
}

#[test]
fn load_test_5_extreme_concurrency() {
    let mut pool = ThreadPoolInner::with_config(Config::io_bound());
    let mut scope = Scope::new(&pool);
    let results = run_batch(&mut pool, &mut scope, 50_000, 500, JoinOrdering::UnOrdered, |x| {
        TaskEvent::Returned(x % 1000)
    });
    assert_eq!(successes(&results), 50_000);
    assert_eq!(pool.metrics().total_spawned, 0);
    assert_eq!(pool.metrics().utilization().numerator, 0);
}

#[test]
fn load_test_6_stress_with_panics() {
    let mut pool = ThreadPoolInner::new(8, Some(500));
    let mut scope = Scope::new(&pool);
    let results = run_batch(&mut pool, &mut scope, 1_000, 50, JoinOrdering::UnOrdered, |x| {
        if x % 10 == 0 {
            TaskEvent::Panicked(format!("Intentional panic at {}", x))
        } else {
            TaskEvent::Returned(x)
        }
    });
    let successful = successes(&results);
    let panicked = results.iter().filter(|r| matches!(r, Err(SpawnError::Panic(_)))).count();
    assert!(successful >= 900);
    assert_eq!(successful, 900);
    assert_eq!(panicked, 100);
}

#[test]
fn load_test_7_parallel_scopes() {
    let mut pool = ThreadPoolInner::with_config(Config::io_bound());
    let mut scopes = vec![Scope::new(&pool), Scope::new(&pool), Scope::new(&pool)];
    for (k, scope) in scopes.iter_mut().enumerate() {
        let out = run_batch(&mut pool, scope, 2_000, 100, JoinOrdering::UnOrdered, |x| {
            TaskEvent::Returned(x * (k + 1))
        });
        match ThreadPoolInner::scope_async(scope, Some(out)) {
            Ok(results) => assert_eq!(successes(&results), 2_000),
            Err(_) => panic!("no task of the scope is pending"),
        }
    }
}

#[test]
fn load_test_8_memory_efficiency() {
    let mut pool = ThreadPoolInner::with_config(Config::io_bound());
    let mut scope = Scope::new(&pool);
    let stream_results = run_stream(&mut pool, &mut scope, 20_000, 200, TaskEvent::Returned);
    let batch_results =
        run_batch(&mut pool, &mut scope, 20_000, 200, JoinOrdering::UnOrdered, TaskEvent::Returned);
    assert_eq!(successes(&stream_results), 20_000);
    assert_eq!(successes(&batch_results), 20_000);
}

#[test]
fn a_hundred_thousand_tasks_keep_within_the_limit() {
    let config = Config { max_pending: Some(10_000), ..Config::default() };
    let mut pool = ThreadPoolInner::with_config(config);
    let mut scope = Scope::new(&pool);
    let mut started: Vec<u64> = Vec::new();
    for i in 0..100_000u64 {
        let spawned = scope.spawn_with_handle::<u64>(&mut pool);
        assert_eq!(spawned.task, i);
        assert_eq!(spawned.starts, i < 10_000);
        if spawned.starts {
            started.push(spawned.task);
        }
        assert!(pool.in_progress() <= 10_000);
    }
    assert_eq!(pool.metrics().active_tasks, 100_000);
    for i in 0..100_000u64 {
        assert_eq!(started[i as usize], i);
        let end = scope.finish(&mut pool, TaskEvent::Returned(i));
        assert!(pool.in_progress() <= 10_000);
        assert_eq!(end.next, if i < 90_000 { Some(i + 10_000) } else { None });
        assert_eq!((end.wake_scope, end.wake_pool), (i == 99_999, i == 99_999));
        started.extend(end.next);
    }
    assert!(scope.wait() && pool.join_all());
    assert_eq!(pool.metrics().active_tasks, 0);
}
