//! A pool of workers for asynchronous and blocking tasks, with scopes that count,
//! join and cancel what is spawned in them.
//!
//! The library is the deciding half of the pool. Its types are plain values whose
//! methods say what happens next: which task a worker runs, who is to be notified,
//! which item starts, what a join hands out. Waiting, running and sending are left
//! to whoever drives it. Every method has a contract over a mathematical state of
//! its type, and the laws that span several methods are the public proof functions
//! whose names begin with `law`.
//!
//! - [`pool`], with its states in [`state`] and [`worker`] and its laws in
//!   [`step_laws`] and [`pool_laws`], hands blocking tasks to workers, over the queues of [`queues`], and
//!   lets asynchronous tasks start.
//! - [`scope`], with its states in [`scope_state`], counts tasks and begins bulk
//!   work: [`join`] collects results, [`batch`] and [`stream`] bound how many items
//!   are in the works, [`chunks`] and [`chunk_run`] give items to blocking tasks in
//!   chunks.
//! - [`handle`] and [`task`] say how a task ends and how that is told.
pub mod bags;
pub mod batch;
pub mod chunk_run;
pub mod chunks;
pub mod config;
pub mod errors;
pub mod handle;
pub mod join;
pub mod model;
pub mod monitor;
pub mod pool;
pub mod pool_laws;
pub mod queues;
pub mod result;
pub mod scope;
pub mod scope_state;
pub mod state;
pub mod step_laws;
pub mod stream;
pub mod task;
pub mod worker;

pub use pool::{Config, Scope, ThreadPoolInner};
