//! How the pool hands tasks to its workers.
use async_rayon::config::DEFAULT_CAPACITY;
use async_rayon::model::{PoolMetrics, Ratio, ScopeMetrics};
use async_rayon::pool::{unlikely, Config, ThreadPoolInner, Timeout};
use async_rayon::worker::{
    advance_random, max_attempts, target_of, Overflow, WorkerAction, WorkerPhase, BATCH_SIZE,
};

/// A pool of `workers` workers with room for `room` tasks, all its workers started.
fn started(workers: usize, room: usize) -> ThreadPoolInner {
    let mut pool = ThreadPoolInner::new(workers, Some(room));
    for id in 0..workers {
        pool.start_worker(id, 1 + id as u64);
    }
    pool
}

/// The task that the worker takes next; a search that gave nothing from a queue
/// that holds tasks is done again.
fn take(pool: &mut ThreadPoolInner, id: usize) -> u64 {
    loop {
        match pool.worker_loop(id) {
            WorkerAction::Run(task) => return task,
            WorkerAction::Retry => {}
            other => panic!("no task: {:?}", other),
        }
    }
}

/// The task of the worker reports a value and ends.
fn end(pool: &mut ThreadPoolInner, id: usize) -> bool {
    pool.report(id, true);
    pool.task_ended(id)
}

#[test]
fn the_bounded_queue_is_first_in_first_out() {
    let mut pool = started(1, 3);
    for name in 0..3 {
        assert_eq!(pool.spawn_task(), (name, false));
    }
    assert_eq!(pool.metrics().queued_tasks, 3);
    for name in 0..3 {
        assert_eq!(take(&mut pool, 0), name);
        assert_eq!(pool.metrics().queued_tasks, 2 - name as usize);
        assert_eq!(pool.worker_phase(0), Some(WorkerPhase::Running(name)));
        assert_eq!(end(&mut pool, 0), name == 2);
    }
    assert_eq!(pool.worker_loop(0), WorkerAction::Park);
    assert_eq!(pool.worker_phase(0), Some(WorkerPhase::Parked));
    assert_eq!(pool.metrics().idle_workers, 1);
}

#[test]
fn what_overflows_goes_round_the_workers() {
    let mut pool = started(2, 1);
    for name in 0..5 {
        assert_eq!(pool.spawn_task().0, name);
    }
    assert_eq!(pool.metrics().queued_tasks, 1);
    assert_eq!(pool.metrics().active_tasks, 5);
    let mut taken: Vec<Vec<u64>> = vec![Vec::new(), Vec::new()];
    while !pool.join_all() {
        for id in 0..2 {
            if let WorkerAction::Run(task) = pool.worker_loop(id) {
                taken[id].push(task);
                end(&mut pool, id);
            } else if pool.worker_phase(id) == Some(WorkerPhase::Parked) {
                pool.worker_notified(id);
            }
        }
    }
    let mut all: Vec<u64> = taken.concat();
    all.sort();
    assert_eq!(all, vec![0, 1, 2, 3, 4]);
}

#[test]
fn without_stealing_what_overflows_stays_with_its_worker() {
    let mut config = Config::cpu_bound_for(2);
    config.max_pending = Some(1);
    config.enable_work_stealing = false;
    let mut pool = ThreadPoolInner::with_config(config);
    pool.start_worker(0, 1);
    pool.start_worker(1, 2);
    for _ in 0..5 {
        pool.spawn_task();
    }
    assert_eq!(take(&mut pool, 0), 1);
    end(&mut pool, 0);
    assert_eq!(take(&mut pool, 0), 3);
    end(&mut pool, 0);
    assert_eq!(take(&mut pool, 1), 2);
    end(&mut pool, 1);
    assert_eq!(take(&mut pool, 0), 0);
    end(&mut pool, 0);
    assert_eq!(pool.worker_loop(0), WorkerAction::Park);
    assert_eq!(take(&mut pool, 1), 4);
    assert!(end(&mut pool, 1));
}

#[test]
fn an_idle_worker_steals_from_a_busy_one() {
    let mut pool = started(2, 1);
    pool.spawn_task();
    assert_eq!(take(&mut pool, 0), 0);
    pool.spawn_task();
    pool.spawn_task();
    assert_eq!(take(&mut pool, 1), 1);
    end(&mut pool, 1);
    assert_eq!(pool.worker_phase(0), Some(WorkerPhase::Running(0)));
    assert_eq!(take(&mut pool, 1), 2);
    end(&mut pool, 1);
    assert_eq!(pool.worker_loop(1), WorkerAction::Park);
    assert!(end(&mut pool, 0));
}

#[test]
fn a_worker_goes_round_until_it_finds_something_to_steal() {
    let mut pool = started(7, 1);
    for _ in 0..8 {
        pool.spawn_task();
    }
    let mut stolen: Vec<u64> = Vec::new();
    for _ in 0..8 {
        stolen.push(take(&mut pool, 3));
        end(&mut pool, 3);
    }
    assert_eq!(stolen[..2], [4, 0]);
    stolen.sort();
    assert_eq!(stolen, (0..8).collect::<Vec<u64>>());
    assert_eq!(pool.worker_loop(3), WorkerAction::Park);
}

#[test]
fn a_task_reports_before_it_ends() {
    let mut pool = started(1, 4);
    pool.spawn_task();
    pool.spawn_task();
    assert_eq!(take(&mut pool, 0), 0);
    pool.report(0, false);
    assert_eq!(pool.worker_phase(0), Some(WorkerPhase::Delivered(0)));
    assert_eq!(pool.metrics().failed_tasks, 1);
    assert_eq!(pool.metrics().active_tasks, 2);
    assert!(!pool.task_ended(0));
    assert_eq!(take(&mut pool, 0), 1);
    assert!(end(&mut pool, 0));
    let shown = pool.metrics();
    assert_eq!(shown.active_tasks, 0);
    assert_eq!(shown.completed_tasks + shown.failed_tasks, shown.total_spawned);
}

#[test]
fn a_busy_overflow_queue_does_not_keep_a_worker_from_stealing() {
    let mut pool = started(2, 1);
    for _ in 0..3 {
        pool.spawn_task();
    }
    assert_eq!(pool.settle_search(0, Overflow::Busy), WorkerAction::Run(0));
    pool.report(0, true);
    pool.task_ended(0);
    loop {
        match pool.settle_search(0, Overflow::Busy) {
            WorkerAction::Run(task) => {
                assert_eq!(task, 2);
                break;
            }
            action => assert_eq!(action, WorkerAction::Retry),
        }
    }
}

#[test]
fn a_search_follows_what_the_overflow_queue_brought() {
    let mut pool = started(2, 4);
    pool.spawn_task();
    assert_eq!(pool.settle_search(0, Overflow::Task(77)), WorkerAction::Run(77));
    assert_eq!(pool.worker_phase(0), Some(WorkerPhase::Running(77)));
    assert_eq!(pool.settle_search(1, Overflow::Busy), WorkerAction::Run(0));

    let mut pool = started(2, 4);
    assert_eq!(pool.settle_search(0, Overflow::Busy), WorkerAction::Retry);
    assert_eq!(pool.worker_phase(0), Some(WorkerPhase::Searching));
    assert_eq!(pool.settle_search(0, Overflow::Empty), WorkerAction::Park);
    assert_eq!(pool.metrics().idle_workers, 1);

    let mut pool = started(2, 4);
    assert_eq!(pool.settle_steal(0, Overflow::Busy), WorkerAction::Retry);
    assert_eq!(pool.settle_steal(0, Overflow::Empty), WorkerAction::Retry);
    assert_eq!(pool.settle_steal(0, Overflow::Task(5)), WorkerAction::Run(5));
}

#[test]
fn a_parked_worker_is_notified_of_a_task() {
    let mut pool = started(2, 4);
    assert_eq!(pool.worker_loop(0), WorkerAction::Park);
    assert_eq!(pool.spawn_task(), (0, true));
    pool.worker_notified(0);
    assert_eq!(pool.metrics().idle_workers, 0);
    assert_eq!(pool.worker_phase(0), Some(WorkerPhase::Searching));
    assert_eq!(take(&mut pool, 0), 0);
    assert_eq!(pool.spawn_task(), (1, false));
}

#[test]
fn a_worker_with_nothing_to_steal_parks() {
    for stealing in [true, false] {
        let mut config = Config::cpu_bound_for(3);
        config.enable_work_stealing = stealing;
        let mut pool = ThreadPoolInner::with_config(config);
        for id in 0..3 {
            pool.start_worker(id, 0x9E37_79B9_7F4A_7C15);
        }
        for id in 0..3 {
            assert_eq!(pool.worker_loop(id), WorkerAction::Park);
        }
        assert_eq!(pool.metrics().idle_workers, 3);
    }
}

#[test]
fn a_cancelled_worker_stops_after_its_batch() {
    let mut pool = started(1, 100);
    for _ in 0..40 {
        pool.spawn_task();
    }
    assert_eq!(pool.shutdown_timeout(true), Some(false));
    let mut ended = 0;
    while let WorkerAction::Run(_) = pool.worker_loop(0) {
        end(&mut pool, 0);
        ended += 1;
    }
    assert_eq!(ended, BATCH_SIZE);
    assert_eq!(pool.worker_phase(0), Some(WorkerPhase::Stopped));
    assert_eq!(pool.metrics().active_tasks, 24);
}

#[test]
fn a_parked_worker_leaves_a_cancelled_pool() {
    let mut pool = started(1, 1);
    assert_eq!(pool.worker_loop(0), WorkerAction::Park);
    assert!(pool.shutdown());
    pool.worker_cancelled(0);
    assert_eq!(pool.worker_phase(0), Some(WorkerPhase::Stopped));
    assert_eq!(pool.metrics().idle_workers, 0);
}

#[test]
fn a_pool_without_workers_has_only_its_bounded_queue() {
    let mut pool = ThreadPoolInner::new(0, Some(2));
    assert!(pool.can_take(2));
    assert!(!pool.can_take(3));
    pool.spawn_task();
    assert!(pool.can_take(1));
    assert!(!pool.can_take(2));
    pool.spawn_task();
    assert!(pool.can_take(0));
    assert!(!pool.can_take(1));
    assert_eq!(pool.worker_phase(0), None);

    let mut pool = ThreadPoolInner::new(1, Some(2));
    assert!(pool.can_take(1_000));
}

#[test]
fn a_pool_keeps_its_configuration() {
    let pool = ThreadPoolInner::new(16, Some(10_000));
    assert_eq!(pool.ref_config().num_threads, 16);
    assert_eq!(pool.ref_config().max_pending, Some(10_000));
    assert!(pool.ref_config().enable_work_stealing);
    assert_eq!(pool.ref_config().task_timeout, Some(Timeout::from_secs(30)));
    assert!(pool.ref_config().enable_metrics);
    assert_eq!(DEFAULT_CAPACITY, 10_000);
    let copy = pool.ref_config().clone();
    assert_eq!(copy.num_threads, 16);
}

#[test]
fn configurations_follow_the_number_of_processors() {
    let config = Config::default_for(4);
    assert_eq!((config.num_threads, config.max_pending), (8, Some(80)));
    assert_eq!(config.task_timeout, Some(Timeout { secs: 30, nanos: 0 }));
    let config = Config::cpu_bound_for(4);
    assert_eq!((config.num_threads, config.max_pending), (4, Some(40)));
    assert_eq!(config.task_timeout, Some(Timeout { secs: 60, nanos: 0 }));
    let config = Config::io_bound_for(4);
    assert_eq!((config.num_threads, config.max_pending), (8, None));
    assert!(config.enable_metrics);
    let config = Config::io_bound_fast_for(4);
    assert_eq!((config.num_threads, config.max_pending), (8, None));
    assert!(!config.enable_metrics);

    let cpus = num_cpus::get();
    assert!(cpus >= 1);
    assert_eq!(Config::cpu_bound().num_threads, cpus);
    assert_eq!(Config::io_bound().num_threads, cpus * 2);
    assert_eq!(Config::io_bound_fast().num_threads, cpus * 2);
    assert_eq!(Config::default().max_pending, Some(cpus * 20));
}

#[test]
fn rates_are_exact() {
    let shown = PoolMetrics {
        active_tasks: 3,
        idle_workers: 1,
        queued_tasks: 12,
        total_spawned: 20,
        completed_tasks: 9,
        failed_tasks: 1,
    };
    assert_eq!(shown.utilization(), Ratio { numerator: 3, denominator: 4 });
    assert_eq!(shown.queue_pressure(), Ratio { numerator: 12, denominator: 1 });
    assert_eq!(shown.success_rate(), Ratio { numerator: 9, denominator: 10 });
    let fresh = ThreadPoolInner::new(1, None).metrics();
    assert_eq!(fresh.utilization(), Ratio { numerator: 0, denominator: 1 });
    assert_eq!(fresh.success_rate(), Ratio { numerator: 1, denominator: 1 });
    let scope = ScopeMetrics { pending: 5, completed: 2, failed: 1 };
    assert_eq!(scope.total(), 8);
    assert_eq!(scope.success_rate(), Ratio { numerator: 2, denominator: 3 });
    let scope = ScopeMetrics { pending: 5, completed: 0, failed: 0 };
    assert_eq!(scope.success_rate(), Ratio { numerator: 1, denominator: 1 });
}

#[test]
fn searches_get_shorter_as_they_fail() {
    assert_eq!(max_attempts(0), 2);
    assert_eq!(max_attempts(4), 2);
    assert_eq!(max_attempts(5), 1);
    assert_eq!(max_attempts(19), 1);
    assert_eq!(max_attempts(20), 0);
}

#[test]
fn random_numbers_follow_by_three_shifts() {
    assert_eq!(advance_random(0), 0);
    assert_eq!(advance_random(1), 1_082_269_761);
    assert_eq!(target_of(10, 4), 2);
    assert!(unlikely(true));
    assert!(!unlikely(false));
}
