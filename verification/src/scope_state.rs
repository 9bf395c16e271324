//! A scope as a mathematical object: its counters, the steps that change them, and
//! what the counters tell.
use crate::model::ScopeMetrics;
use vstd::prelude::*;
use vstd::wrapping::usize_specs;

verus! {

/// The state of a scope.
pub struct ScopeState {
    /// Tasks that were spawned and did not end.
    pub pending: usize,
    /// Tasks that ended with a value, while metrics are on.
    pub completed: usize,
    /// Tasks that ended with an error, while metrics are on.
    pub failed: usize,
    /// Whether ended tasks are counted.
    pub enable_metrics: bool,
}

impl ScopeState {
    /// A scope without tasks.
    pub open spec fn initial(enable_metrics: bool) -> ScopeState {
        ScopeState { pending: 0, completed: 0, failed: 0, enable_metrics }
    }

    /// After a task was spawned.
    pub open spec fn spawned(self) -> ScopeState {
        ScopeState { pending: usize_specs::wrapping_add(self.pending, 1), ..self }
    }

    /// After `n` tasks were spawned, one after the other.
    pub open spec fn spawned_n(self, n: nat) -> ScopeState
        decreases n,
    {
        if n == 0 {
            self
        } else {
            self.spawned_n((n - 1) as nat).spawned()
        }
    }

    /// After a task ended, with a value or with an error.
    pub open spec fn finished(self, ok: bool) -> ScopeState {
        ScopeState {
            pending: usize_specs::wrapping_sub(self.pending, 1),
            completed: if self.enable_metrics && ok {
                usize_specs::wrapping_add(self.completed, 1)
            } else {
                self.completed
            },
            failed: if self.enable_metrics && !ok {
                usize_specs::wrapping_add(self.failed, 1)
            } else {
                self.failed
            },
            ..self
        }
    }

    /// The counters that the scope shows.
    pub open spec fn metrics(self) -> ScopeMetrics {
        ScopeMetrics { pending: self.pending, completed: self.completed, failed: self.failed }
    }

    /// After the given steps, one after the other.
    pub open spec fn after(self, steps: Seq<ScopeStep>) -> ScopeState
        decreases steps.len(),
    {
        if steps.len() == 0 {
            self
        } else {
            let before = self.after(steps.drop_last());
            match steps.last() {
                ScopeStep::Spawned => before.spawned(),
                ScopeStep::Finished { ok } => before.finished(ok),
            }
        }
    }
}

/// One step of a scope.
pub enum ScopeStep {
    /// A task was spawned.
    Spawned,
    /// A task ended, with a value or with an error.
    Finished { ok: bool },
}

/// How often `step` occurs among `steps`.
pub open spec fn occurrences(steps: Seq<ScopeStep>, step: ScopeStep) -> nat
    decreases steps.len(),
{
    if steps.len() == 0 {
        0
    } else {
        occurrences(steps.drop_last(), step) + if steps.last() == step {
            1nat
        } else {
            0nat
        }
    }
}

/// How many tasks were spawned.
pub open spec fn spawns(steps: Seq<ScopeStep>) -> nat {
    occurrences(steps, ScopeStep::Spawned)
}

/// How many tasks ended with a value, or with an error.
pub open spec fn ends(steps: Seq<ScopeStep>, ok: bool) -> nat {
    occurrences(steps, ScopeStep::Finished { ok })
}

/// At no time more tasks have ended than were spawned.
pub open spec fn in_sequence(steps: Seq<ScopeStep>) -> bool
    decreases steps.len(),
{
    if steps.len() == 0 {
        true
    } else {
        in_sequence(steps.drop_last()) && ends(steps, true) + ends(steps, false) <= spawns(steps)
    }
}

/// No more steps of one kind occur than there are steps.
proof fn lemma_occurrences(steps: Seq<ScopeStep>)
    ensures
        spawns(steps) + ends(steps, true) + ends(steps, false) == steps.len(),
    decreases steps.len(),
{
    if steps.len() > 0 {
        lemma_occurrences(steps.drop_last());
    }
}

/// The counters of a scope tell what happened in it: the tasks that are pending are
/// those that were spawned and did not end, and while metrics are on the others are
/// counted by how they ended. So with metrics on the counters add up to the number
/// of tasks spawned, and waiting for the scope is over exactly when every task that
/// was spawned has ended.
pub proof fn law_counters_tell_what_happened(enable_metrics: bool, steps: Seq<ScopeStep>)
    requires
        in_sequence(steps),
        spawns(steps) <= usize::MAX,
    ensures
        ({
            let state = ScopeState::initial(enable_metrics).after(steps);
            &&& state.enable_metrics == enable_metrics
            &&& state.pending == spawns(steps) - ends(steps, true) - ends(steps, false)
            &&& state.completed == if enable_metrics {
                ends(steps, true)
            } else {
                0
            }
            &&& state.failed == if enable_metrics {
                ends(steps, false)
            } else {
                0
            }
            &&& enable_metrics ==> state.pending + state.completed + state.failed == spawns(steps)
            &&& state.pending == 0 <==> ends(steps, true) + ends(steps, false) == spawns(steps)
        }),
    decreases steps.len(),
{
    lemma_occurrences(steps);
    if steps.len() > 0 {
        law_counters_tell_what_happened(enable_metrics, steps.drop_last());
    }
}

/// Of the tasks of a scope the one that ends last brings the pending count to zero,
/// and no other does: whoever waits is notified once, when the wait is over.
pub proof fn law_last_end_ends_the_wait(state: ScopeState, ok: bool)
    requires
        state.pending > 0,
    ensures
        state.finished(ok).pending == state.pending - 1,
        state.finished(ok).pending == 0 <==> state.pending == 1,
{
}

/// Spawning `n` tasks makes `n` more pending and changes no other counter, as long
/// as the number stays within what the counter holds.
pub proof fn law_spawning_adds_pending_tasks(state: ScopeState, n: nat)
    requires
        state.pending + n <= usize::MAX,
    ensures
        state.spawned_n(n) == (ScopeState { pending: (state.pending + n) as usize, ..state }),
    decreases n,
{
    if n > 0 {
        law_spawning_adds_pending_tasks(state, (n - 1) as nat);
    }
}


/// A new scope has no task and has counted none, and shows its own counts, each under its
/// own name.
pub proof fn law_scope_shows_its_counts(enable_metrics: bool, state: ScopeState)
    ensures
        ScopeState::initial(enable_metrics).pending == 0,
        ScopeState::initial(enable_metrics).completed == 0,
        ScopeState::initial(enable_metrics).failed == 0,
        ScopeState::initial(enable_metrics).enable_metrics == enable_metrics,
        state.metrics().pending == state.pending,
        state.metrics().completed == state.completed,
        state.metrics().failed == state.failed,
{
}

/// Spawning a task makes one more pending. Its end makes one less pending and counts it,
/// while metrics are on, by how it ended and in no other way. Nothing else changes.
pub proof fn law_task_is_counted_once(state: ScopeState, ok: bool)
    requires
        state.pending < usize::MAX,
        state.completed < usize::MAX,
        state.failed < usize::MAX,
    ensures
        state.spawned() == (ScopeState { pending: (state.pending + 1) as usize, ..state }),
        ({
            let post = state.finished(ok);
            let counted: int = if state.enable_metrics {
                1
            } else {
                0
            };
            &&& state.pending > 0 ==> post.pending == state.pending - 1
            &&& post.completed + post.failed == state.completed + state.failed + counted
            &&& ok ==> post.failed == state.failed
            &&& !ok ==> post.completed == state.completed
            &&& post.enable_metrics == state.enable_metrics
            &&& state.spawned().finished(ok).pending == state.pending
        }),
{
}

} // verus!
