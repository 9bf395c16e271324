# async_rayon

A pool of workers for asynchronous and blocking tasks. Tasks are spawned in a
scope, which counts them, joins their results, cancels them and waits for them.

`src/` is the deciding half, verified with Verus. Its types are plain values:
which task a worker runs next, who is to be notified, which item may start, what a
join hands out. Each method has a contract over the mathematical state of its type,
and each law that spans several methods is a public proof function whose name
begins with `law`. The bounded queue, the overflow queues and the deques are those
of `crossbeam`; what is taken on trust of them stands in `src/queues.rs`, and of
`num_cpus` in `src/config.rs`.

`app/` is the other half: it waits, sends, runs and notifies on `tokio`, and asks
the library what to do. A rate is a fraction in the library and becomes a
floating-point number there.

| module | what it holds |
| --- | --- |
| `config` | how a pool is set up |
| `pool`, `state`, `pool_laws` | the pool, its steps, what holds of them |
| `worker`, `queues` | its workers, its queues |
| `scope`, `scope_state` | scopes and what their counters tell |
| `handle`, `task` | how a task ends and how that is told |
| `join` | results in the order of the handles, or as they come |
| `batch`, `stream` | a bounded number of items in the works |
| `chunks`, `chunk_run` | items given to blocking tasks in chunks |
| `model`, `monitor` | counters, rates and watching them |

No more than `max_pending` asynchronous tasks are in progress at a time; the others
wait, and start in the order in which they were spawned. A task that waits for tasks
that it spawned keeps its place meanwhile, so `max_pending` has to be larger than the
number of such tasks. Blocking tasks beyond the room of the bounded queue, which is
`max_pending` too, go to the workers' overflow queues in turn. A worker with nothing
of its own to run takes tasks from the others, unless `enable_work_stealing` is off.
