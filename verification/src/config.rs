//! How a pool is set up.
use vstd::prelude::*;
use vstd::wrapping::usize_specs;

verus! {

/// The number of tasks that the bounded queue has room for where the
/// configuration names no limit.
pub const DEFAULT_CAPACITY: usize = 10_000;

/// A length of time: whole seconds, and nanoseconds on top.
#[derive(Debug, Clone, Copy, PartialEq, Eq, Structural)]
pub struct Timeout {
    pub secs: u64,
    pub nanos: u32,
}

impl Timeout {
    /// A whole number of seconds.
    pub fn from_secs(secs: u64) -> (t: Timeout)
        ensures
            t == (Timeout { secs, nanos: 0 }),
    {
        Timeout { secs, nanos: 0 }
    }
}

/// The configuration of a pool.
#[derive(Debug)]
pub struct Config {
    /// The number of workers.
    pub num_threads: usize,
    /// How many asynchronous tasks may be in progress, and the room in the bounded queue;
    /// blocking tasks beyond it go to the workers' overflow queues.
    pub max_pending: Option<usize>,
    /// Whether a worker that finds nothing takes tasks from other workers.
    pub enable_work_stealing: bool,
    /// A length of time that is only kept with the configuration: no task is ended for
    /// it.
    pub task_timeout: Option<Timeout>,
    /// Whether ended tasks are counted.
    pub enable_metrics: bool,
}

impl Clone for Config {
    fn clone(&self) -> (copy: Self)
        ensures
            copy == *self,
    {
        Config {
            num_threads: self.num_threads,
            max_pending: self.max_pending,
            enable_work_stealing: self.enable_work_stealing,
            task_timeout: self.task_timeout,
            enable_metrics: self.enable_metrics,
        }
    }
}

/// The default configuration on a machine with `cpus` processors: two workers and
/// twenty places in the queue for each.
pub open spec fn default_config(cpus: usize) -> Config {
    Config {
        num_threads: usize_specs::wrapping_mul(cpus, 2),
        max_pending: Some(usize_specs::wrapping_mul(cpus, 20)),
        enable_work_stealing: true,
        task_timeout: Some(Timeout { secs: 30, nanos: 0 }),
        enable_metrics: true,
    }
}

/// The configuration for computing tasks on a machine with `cpus` processors: one
/// worker and ten places in the queue for each.
pub open spec fn cpu_bound_config(cpus: usize) -> Config {
    Config {
        num_threads: cpus,
        max_pending: Some(usize_specs::wrapping_mul(cpus, 10)),
        enable_work_stealing: true,
        task_timeout: Some(Timeout { secs: 60, nanos: 0 }),
        enable_metrics: true,
    }
}

/// The configuration for waiting tasks on a machine with `cpus` processors: two
/// workers for each, and no limit of its own on the queue.
pub open spec fn io_bound_config(cpus: usize) -> Config {
    Config {
        num_threads: usize_specs::wrapping_mul(cpus, 2),
        max_pending: None,
        enable_work_stealing: true,
        task_timeout: Some(Timeout { secs: 30, nanos: 0 }),
        enable_metrics: true,
    }
}

/// The number of tasks that the bounded queue of a pool has room for.
pub open spec fn queue_capacity(config: Config) -> usize {
    match config.max_pending {
        Some(limit) => limit,
        None => DEFAULT_CAPACITY,
    }
}

/// `num_cpus::get`: the number of processors that are available to the process.
/// It promises at least one, and differs from machine to machine.
#[verifier::external_body]
fn available_cpus() -> (cpus: usize)
    ensures
        1 <= cpus,
{
    num_cpus::get()
}

impl Default for Config {
    /// The default configuration on this machine.
    fn default() -> (config: Self)
        ensures
            exists|cpus: usize| 1 <= cpus && config == #[trigger] default_config(cpus),
    {
        Config::default_for(available_cpus())
    }
}

impl Config {
    /// The default configuration on a machine with `cpus` processors.
    pub fn default_for(cpus: usize) -> (config: Config)
        ensures
            config == default_config(cpus),
    {
        Config {
            num_threads: cpus.wrapping_mul(2),
            max_pending: Some(cpus.wrapping_mul(20)),
            enable_work_stealing: true,
            task_timeout: Some(Timeout::from_secs(30)),
            enable_metrics: true,
        }
    }

    /// The configuration for computing tasks on a machine with `cpus` processors.
    pub fn cpu_bound_for(cpus: usize) -> (config: Config)
        ensures
            config == cpu_bound_config(cpus),
    {
        Config {
            num_threads: cpus,
            max_pending: Some(cpus.wrapping_mul(10)),
            enable_work_stealing: true,
            task_timeout: Some(Timeout::from_secs(60)),
            enable_metrics: true,
        }
    }

    /// The configuration for waiting tasks on a machine with `cpus` processors.
    pub fn io_bound_for(cpus: usize) -> (config: Config)
        ensures
            config == io_bound_config(cpus),
    {
        Config {
            num_threads: cpus.wrapping_mul(2),
            max_pending: None,
            enable_work_stealing: true,
            task_timeout: Some(Timeout::from_secs(30)),
            enable_metrics: true,
        }
    }

    /// The configuration for waiting tasks on a machine with `cpus` processors,
    /// with metrics off.
    pub fn io_bound_fast_for(cpus: usize) -> (config: Config)
        ensures
            config == (Config { enable_metrics: false, ..io_bound_config(cpus) }),
    {
        Config {
            num_threads: cpus.wrapping_mul(2),
            max_pending: None,
            enable_work_stealing: true,
            task_timeout: Some(Timeout::from_secs(30)),
            enable_metrics: false,
        }
    }

    /// The configuration for computing tasks on this machine.
    pub fn cpu_bound() -> (config: Config)
        ensures
            exists|cpus: usize| 1 <= cpus && config == #[trigger] cpu_bound_config(cpus),
    {
        Config::cpu_bound_for(available_cpus())
    }

    /// The configuration for waiting tasks on this machine.
    pub fn io_bound() -> (config: Config)
        ensures
            exists|cpus: usize| 1 <= cpus && config == #[trigger] io_bound_config(cpus),
    {
        Config::io_bound_for(available_cpus())
    }

    /// The configuration for waiting tasks on this machine, with metrics off.
    pub fn io_bound_fast() -> (config: Config)
        ensures
            exists|cpus: usize|
                1 <= cpus && config == (Config {
                    enable_metrics: false,
                    ..#[trigger] io_bound_config(cpus)
                }),
    {
        Config::io_bound_fast_for(available_cpus())
    }
}

/// A pool for computing tasks has a worker for each processor, and the others have two.
/// The queue of the first has ten places for each processor, the default queue has
/// twenty, and those for waiting tasks have no limit. All of them steal. A task of the
/// first is meant to take a minute at most, one of the others half a minute. Processor
/// counts whose multiples pass the largest number are left out.
pub proof fn law_workers_per_cpu(cpus: usize)
    requires
        20 * cpus <= usize::MAX,
    ensures
        cpu_bound_config(cpus).num_threads == cpus,
        cpu_bound_config(cpus).max_pending == Some((10 * cpus) as usize),
        io_bound_config(cpus).num_threads == 2 * cpus,
        io_bound_config(cpus).max_pending is None,
        default_config(cpus).num_threads == 2 * cpus,
        default_config(cpus).max_pending == Some((20 * cpus) as usize),
        forall|config: Config|
            config == cpu_bound_config(cpus) || config == io_bound_config(cpus) || config
                == default_config(cpus) ==> (#[trigger] config.enable_work_stealing)
                && config.enable_metrics && config.task_timeout is Some
                && config.task_timeout->Some_0.nanos == 0,
        cpu_bound_config(cpus).task_timeout->Some_0.secs == 60,
        io_bound_config(cpus).task_timeout->Some_0.secs == 30,
        default_config(cpus).task_timeout->Some_0.secs == 30,
{
    assert((cpus as nat * 2) % (usize::MAX + 1) as nat == cpus * 2) by {
        vstd::arithmetic::div_mod::lemma_small_mod(cpus as nat * 2, (usize::MAX + 1) as nat);
    }
    vstd::arithmetic::div_mod::lemma_small_mod(cpus as nat * 10, (usize::MAX + 1) as nat);
    vstd::arithmetic::div_mod::lemma_small_mod(cpus as nat * 20, (usize::MAX + 1) as nat);
}

/// The bounded queue has room for as many tasks as `max_pending` says, and for ten
/// thousand where that says nothing.
pub proof fn law_capacity_is_max_pending(config: Config)
    ensures
        config.max_pending is None ==> queue_capacity(config) == 10_000,
        config.max_pending matches Some(limit) ==> queue_capacity(config) == limit,
{
}

} // verus!
