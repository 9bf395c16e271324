//! Processing items that are all spawned at once, a bounded number of them at work
//! at a time.
use crate::bags::{lemma_tally_none, lemma_tally_update, tally};
use crate::handle::Channel;
use crate::join::{JoinRun, JoinState};
use crate::result::SpawnResult;
use std::collections::VecDeque;
use vstd::prelude::*;

verus! {

/// The largest number of permits that a semaphore can hand out.
pub const MAX_PERMITS: usize = usize::MAX / 8;

/// Where an item of a batch stands.
#[derive(Debug, Clone, Copy, PartialEq, Eq, Structural)]
pub enum ItemPhase {
    /// It was spawned and did not ask to begin its work.
    Spawned,
    /// It asked to begin its work, and waits.
    Asking,
    /// It is at work.
    AtWork,
    /// It was at work, and is no longer.
    Over,
}

/// Spawned items that are being processed and joined.
pub struct BatchRun<R> {
    join: JoinRun<R>,
    phases: Vec<ItemPhase>,
    asking: VecDeque<usize>,
    running: usize,
    max_concurrent: usize,
}

/// The state of a batch.
#[verifier::ext_equal]
pub struct BatchState<R> {
    /// The handles of the items.
    pub join: JoinState<R>,
    /// Where each item stands.
    pub phases: Seq<ItemPhase>,
    /// The items that wait to begin their work, in the order in which they asked.
    pub asking: Seq<usize>,
    /// How many items are at work.
    pub running: usize,
    /// How many items may be at work.
    pub max_concurrent: usize,
}

/// Tells items at work from others.
pub open spec fn is_at_work() -> spec_fn(ItemPhase) -> bool {
    |phase: ItemPhase| phase is AtWork
}

/// How many items are at work.
pub open spec fn at_work(phases: Seq<ItemPhase>) -> nat {
    tally(phases, is_at_work())
}

impl<R> BatchState<R> {
    /// What holds of a batch at every moment: the running count is the number of items
    /// at work, which are no more than may be; as many as may be are at work while any
    /// waits; those that wait asked once each; and only an item that was at work has a
    /// result.
    pub open spec fn wf(self) -> bool {
        &&& self.join.wf()
        &&& self.phases.len() == self.join.channels.len()
        &&& self.running == at_work(self.phases)
        &&& self.running <= self.max_concurrent
        &&& self.asking.len() > 0 ==> self.running == self.max_concurrent
        &&& self.asking.no_duplicates()
        &&& forall|k: int|
            0 <= k < self.asking.len() ==> (#[trigger] self.asking[k]) < self.phases.len()
                && self.phases[self.asking[k] as int] is Asking
        &&& forall|i: int|
            0 <= i < self.phases.len() && #[trigger] self.phases[i] is Asking
                ==> self.asking.contains(i as usize)
        &&& forall|i: int|
            0 <= i < self.phases.len() ==> (#[trigger] self.join.channels[i] is Sent
                ==> self.phases[i] is Over)
    }

    /// A batch of `join`'s items, none of which has asked to begin.
    pub open spec fn begun(join: JoinState<R>, max_concurrent: usize) -> BatchState<R> {
        BatchState {
            join,
            phases: Seq::new(join.channels.len(), |i: int| ItemPhase::Spawned),
            asking: Seq::empty(),
            running: 0,
            max_concurrent,
        }
    }

    /// Item `i` may ask to begin its work.
    pub open spec fn may_ask(self, i: usize) -> bool {
        i < self.phases.len() && self.phases[i as int] is Spawned
    }

    /// Item `i` is at work.
    pub open spec fn works(self, i: usize) -> bool {
        i < self.phases.len() && self.phases[i as int] is AtWork
    }

    /// After item `i` asked to begin its work: it does where fewer are at work than may
    /// be, else it waits behind those that asked before.
    pub open spec fn acquired(self, i: usize) -> BatchState<R> {
        if !self.may_ask(i) {
            self
        } else if self.running < self.max_concurrent {
            BatchState {
                phases: self.phases.update(i as int, ItemPhase::AtWork),
                running: (self.running + 1) as usize,
                ..self
            }
        } else {
            BatchState {
                phases: self.phases.update(i as int, ItemPhase::Asking),
                asking: self.asking.push(i),
                ..self
            }
        }
    }

    /// After item `i` stopped working: the item that waited longest, if any, begins.
    pub open spec fn released(self, i: usize) -> BatchState<R> {
        let over = self.phases.update(i as int, ItemPhase::Over);
        if !self.works(i) {
            self
        } else if self.asking.len() > 0 {
            BatchState {
                phases: over.update(self.asking[0] as int, ItemPhase::AtWork),
                asking: self.asking.drop_first(),
                ..self
            }
        } else {
            BatchState { phases: over, running: (self.running - 1) as usize, ..self }
        }
    }

    /// What the channel of item `i` brought counts: nothing came from it before, and a
    /// result comes from an item that was at work.
    pub open spec fn counts(self, i: usize, message: Channel<R>) -> bool {
        &&& i < self.join.channels.len()
        &&& self.join.channels[i as int] is Waiting
        &&& !(message is Waiting)
        &&& message is Sent ==> self.phases[i as int] is Over
    }

    /// After the channel of item `i` brought `message`.
    pub open spec fn arrived(self, i: usize, message: Channel<R>) -> BatchState<R> {
        if self.counts(i, message) {
            BatchState { join: self.join.arrived(i, message), ..self }
        } else {
            self
        }
    }

    /// After the given steps, one after the other.
    pub open spec fn after(self, steps: Seq<BatchStep<R>>) -> BatchState<R>
        decreases steps.len(),
    {
        if steps.len() == 0 {
            self
        } else {
            let before = self.after(steps.drop_last());
            match steps.last() {
                BatchStep::Acquire(i) => before.acquired(i),
                BatchStep::Release(i) => before.released(i),
                BatchStep::Arrive(i, message) => before.arrived(i, message),
            }
        }
    }

    /// How many items began their work in the given steps.
    pub open spec fn admitted(self, steps: Seq<BatchStep<R>>) -> nat
        decreases steps.len(),
    {
        if steps.len() == 0 {
            0
        } else {
            let before = self.after(steps.drop_last());
            self.admitted(steps.drop_last()) + match steps.last() {
                BatchStep::Acquire(i) => if before.may_ask(i) && before.running
                    < before.max_concurrent {
                    1nat
                } else {
                    0nat
                },
                BatchStep::Release(i) => if before.works(i) && before.asking.len() > 0 {
                    1nat
                } else {
                    0nat
                },
                BatchStep::Arrive(..) => 0nat,
            }
        }
    }

    /// How many items stopped working in the given steps.
    pub open spec fn stopped(self, steps: Seq<BatchStep<R>>) -> nat
        decreases steps.len(),
    {
        if steps.len() == 0 {
            0
        } else {
            self.stopped(steps.drop_last()) + match steps.last() {
                BatchStep::Release(i) => if self.after(steps.drop_last()).works(i) {
                    1nat
                } else {
                    0nat
                },
                _ => 0nat,
            }
        }
    }
}

/// One step of a batch.
pub enum BatchStep<R> {
    /// An item asked to begin its work.
    Acquire(usize),
    /// An item stopped working.
    Release(usize),
    /// The channel of an item brought something.
    Arrive(usize, Channel<R>),
}

impl<R> View for BatchRun<R> {
    type V = BatchState<R>;

    closed spec fn view(&self) -> BatchState<R> {
        BatchState {
            join: self.join@,
            phases: self.phases@,
            asking: self.asking@,
            running: self.running,
            max_concurrent: self.max_concurrent,
        }
    }
}

/// An item that asks keeps a batch in order.
proof fn lemma_acquired<R>(state: BatchState<R>, i: usize)
    requires
        state.wf(),
    ensures
        state.acquired(i).wf(),
{
    if state.may_ask(i) {
        let after = state.acquired(i);
        lemma_tally_update(state.phases, is_at_work(), i as int, after.phases[i as int]);
        assert forall|j: int|
            0 <= j < after.phases.len() && #[trigger] after.phases[j] is Asking implies
            after.asking.contains(j as usize) by {
            if j == i {
                assert(after.asking[after.asking.len() - 1] == i);
            } else {
                assert(state.phases[j] is Asking);
                let k = state.asking.index_of(j as usize);
                assert(after.asking[k] == j as usize);
            }
        }
    }
}

/// An item that stops working keeps a batch in order.
proof fn lemma_released<R>(state: BatchState<R>, i: usize)
    requires
        state.wf(),
    ensures
        state.released(i).wf(),
        state.works(i) ==> state.running > 0,
{
    if state.works(i) {
        assert forall|j: int|
            0 <= j < state.phases.len() && #[trigger] state.released(i).phases[j] is Asking implies
            state.phases[j] is Asking by {}
        let over = state.phases.update(i as int, ItemPhase::Over);
        lemma_tally_update(state.phases, is_at_work(), i as int, ItemPhase::Over);
        if state.asking.len() > 0 {
            let next = state.asking[0] as int;
            lemma_tally_update(over, is_at_work(), next, ItemPhase::AtWork);
            let after = state.released(i);
            assert forall|k: int| 0 <= k < after.asking.len() implies (#[trigger] after.asking[k])
                < after.phases.len() && after.phases[after.asking[k] as int] is Asking by {
                assert(after.asking[k] == state.asking[k + 1]);
                assert(state.asking[k + 1] != state.asking[0]);
            }
            assert forall|j: int|
                0 <= j < after.phases.len() && #[trigger] after.phases[j] is Asking implies
                after.asking.contains(j as usize) by {
                assert(state.phases[j] is Asking);
                let k = state.asking.index_of(j as usize);
                assert(k != 0);
                assert(after.asking[k - 1] == j as usize);
            }
            assert(after.asking.no_duplicates()) by {
                assert forall|a: int, b: int|
                    0 <= a < after.asking.len() && 0 <= b < after.asking.len() && a
                        != b implies after.asking[a] != after.asking[b] by {
                    assert(after.asking[a] == state.asking[a + 1]);
                    assert(after.asking[b] == state.asking[b + 1]);
                }
            }
        }
    }
}

/// A message that counts keeps joined handles in order.
proof fn lemma_arrived<R>(state: BatchState<R>, i: usize, message: Channel<R>)
    requires
        state.wf(),
    ensures
        state.arrived(i, message).wf(),
{
    if state.counts(i, message) {
        crate::join::lemma_arrived(state.join, i, message);
    }
}

impl<R> BatchRun<R> {
    /// What holds of a batch at every moment.
    pub open spec fn wf(&self) -> bool {
        self@.wf()
    }

    /// A batch of spawned items, none of them at work.
    pub(crate) fn begin(join: JoinRun<R>, max_concurrent: usize) -> (run: BatchRun<R>)
        requires
            join.wf(),
            forall|i: int|
                0 <= i < join@.channels.len() ==> #[trigger] join@.channels[i] is Waiting,
        ensures
            run.wf(),
            run@ == BatchState::begun(join@, max_concurrent),
    {
        let n: usize = join.len();
        let mut phases: Vec<ItemPhase> = Vec::new();
        let mut i: usize = 0;
        while i < n
            invariant
                i <= n,
                phases.len() == i,
                forall|j: int| 0 <= j < i ==> #[trigger] phases@[j] is Spawned,
            decreases n - i,
        {
            phases.push(ItemPhase::Spawned);
            i = i + 1;
        }
        let run = BatchRun { join, phases, asking: VecDeque::new(), running: 0, max_concurrent };
        proof {
            lemma_tally_none(run@.phases, is_at_work());
            assert(run@ =~= BatchState::begun(join@, max_concurrent));
        }
        run
    }

    /// Item `i` asks to begin its work. It may at once unless as many are at work as may
    /// be; then it waits until it is named by the end of another.
    pub fn acquire(&mut self, i: usize) -> (admitted: bool)
        requires
            old(self).wf(),
        ensures
            final(self).wf(),
            admitted == (old(self)@.may_ask(i) && old(self)@.running < old(self)@.max_concurrent),
            final(self)@ == old(self)@.acquired(i),
    {
        proof {
            lemma_acquired(self@, i);
        }
        if i >= self.phases.len() || self.phases[i] != ItemPhase::Spawned {
            return false;
        }
        if self.running < self.max_concurrent {
            self.phases.set(i, ItemPhase::AtWork);
            self.running = self.running + 1;
            true
        } else {
            self.phases.set(i, ItemPhase::Asking);
            self.asking.push_back(i);
            false
        }
    }

    /// Item `i` stopped working. The answer is the item that begins in its place, if any
    /// waits.
    pub fn release(&mut self, i: usize) -> (next: Option<usize>)
        requires
            old(self).wf(),
        ensures
            final(self).wf(),
            final(self)@ == old(self)@.released(i),
            next == if old(self)@.works(i) && old(self)@.asking.len() > 0 {
                Some(old(self)@.asking[0])
            } else {
                None
            },
    {
        proof {
            lemma_released(self@, i);
        }
        if i >= self.phases.len() || self.phases[i] != ItemPhase::AtWork {
            return None;
        }
        self.phases.set(i, ItemPhase::Over);
        let next = self.asking.pop_front();
        match next {
            Some(j) => {
                self.phases.set(j, ItemPhase::AtWork);
            },
            None => {
                self.running = self.running - 1;
            },
        }
        proof {
            assert(self@ =~= old(self)@.released(i));
        }
        next
    }

    /// How many items are at work.
    pub fn running(&self) -> (n: usize)
        ensures
            n == self@.running,
    {
        self.running
    }

    /// The channel of item `i` brought something. The answer tells whether that counts:
    /// the first message does, and a result does where the item was at work and is no
    /// longer.
    pub fn arrive(&mut self, i: usize, message: Channel<R>) -> (counts: bool)
        requires
            old(self).wf(),
        ensures
            final(self).wf(),
            counts == old(self)@.counts(i, message),
            final(self)@ == old(self)@.arrived(i, message),
    {
        proof {
            lemma_arrived(self@, i, message);
        }
        if i >= self.phases.len() {
            return false;
        }
        let fits = match &message {
            Channel::Sent(_) => self.phases[i] == ItemPhase::Over,
            _ => true,
        };
        fits && self.join.arrive(i, message)
    }

    /// Whether every item has a result.
    pub fn is_done(&self) -> (r: bool)
        ensures
            r == self@.join.is_done(),
    {
        self.join.is_done()
    }

    /// Hands out the results, once every item has one.
    pub fn finish(self) -> (results: Vec<SpawnResult<R>>)
        requires
            self.wf(),
            self@.join.is_done(),
        ensures
            results@ == self@.join.results(),
    {
        self.join.finish()
    }
}

/// By whatever steps, the items of a batch that are at work are those that began and did
/// not stop, and at no time more than may be. A result counts only for an item that was
/// at work and stopped; so where none may be at work, none ever begins and none has a
/// result.
pub proof fn law_batch_stays_within_its_bound<R>(
    join: JoinState<R>,
    max_concurrent: usize,
    steps: Seq<BatchStep<R>>,
)
    requires
        join.wf(),
        forall|i: int| 0 <= i < join.channels.len() ==> #[trigger] join.channels[i] is Waiting,
    ensures
        ({
            let start = BatchState::begun(join, max_concurrent);
            let state = start.after(steps);
            &&& state.wf()
            &&& state.max_concurrent == max_concurrent
            &&& at_work(state.phases) == start.admitted(steps) - start.stopped(steps)
            &&& at_work(state.phases) <= max_concurrent
            &&& state.join.channels.len() == join.channels.len()
            &&& forall|i: int|
                0 <= i < join.channels.len() ==> (#[trigger] state.join.channels[i] is Sent
                    ==> state.phases[i] is Over)
            &&& max_concurrent == 0 ==> start.admitted(steps) == 0 && forall|i: int|
                0 <= i < join.channels.len() ==> !(#[trigger] state.phases[i] is AtWork)
                    && !(state.phases[i] is Over) && !(state.join.channels[i] is Sent)
        }),
    decreases steps.len(),
{
    let start = BatchState::begun(join, max_concurrent);
    if steps.len() == 0 {
        lemma_tally_none(start.phases, is_at_work());
    } else {
        law_batch_stays_within_its_bound(join, max_concurrent, steps.drop_last());
        let before = start.after(steps.drop_last());
        match steps.last() {
            BatchStep::Acquire(i) => {
                lemma_acquired(before, i);
                if before.may_ask(i) {
                    let phase = before.acquired(i).phases[i as int];
                    lemma_tally_update(before.phases, is_at_work(), i as int, phase);
                }
            },
            BatchStep::Release(i) => {
                lemma_released(before, i);
            },
            BatchStep::Arrive(i, message) => {
                lemma_arrived(before, i, message);
            },
        }
        if max_concurrent == 0 {
            let state = start.after(steps);
            assert forall|i: int| 0 <= i < join.channels.len() implies !(
            #[trigger] state.phases[i] is AtWork) && !(state.phases[i] is Over) && !(
            state.join.channels[i] is Sent) by {
                assert(!(before.phases[i] is AtWork));
            }
        }
    }
}

/// A batch begins with none of its items at work and none that asked, and nothing has
/// come of any.
pub proof fn law_batch_begins_with_every_item<R>(join: JoinState<R>, max_concurrent: usize)
    ensures
        ({
            let state = BatchState::begun(join, max_concurrent);
            &&& state.join == join
            &&& state.max_concurrent == max_concurrent
            &&& state.running == 0
            &&& state.asking.len() == 0
            &&& state.phases.len() == join.channels.len()
            &&& forall|i: int| 0 <= i < join.channels.len() ==> #[trigger] state.phases[i] is Spawned
        }),
{
}

/// An item that asks for the first time is at work from then on where fewer are than may
/// be, and else is the last of those that wait. Any other that asks changes nothing. No
/// other item is touched.
pub proof fn law_item_that_asks_works_or_waits<R>(state: BatchState<R>, i: usize)
    requires
        state.wf(),
    ensures
        ({
            let post = state.acquired(i);
            let first = i < state.phases.len() && state.phases[i as int] is Spawned;
            let room = state.running < state.max_concurrent;
            &&& state.may_ask(i) == first
            &&& !first ==> post == state
            &&& post == (BatchState {
                phases: post.phases,
                asking: post.asking,
                running: post.running,
                ..state
            })
            &&& post.phases.len() == state.phases.len()
            &&& forall|j: int|
                0 <= j < state.phases.len() && j != i ==> #[trigger] post.phases[j]
                    == state.phases[j]
            &&& first && room ==> post.phases[i as int] is AtWork && post.running == state.running
                + 1 && post.asking == state.asking
            &&& first && !room ==> post.phases[i as int] is Asking && post.running == state.running
                && post.asking.len() == state.asking.len() + 1 && post.asking.last() == i
                && post.asking.drop_last() == state.asking
        }),
{
    assert(state.asking.push(i).drop_last() =~= state.asking);
}

/// An item that stops working is over. The one that waited longest, if any, works in its
/// place, and the others go on waiting in their order; else one less is at work. An item
/// that is not at work stops nothing. No other item is touched.
pub proof fn law_item_that_stops_lets_the_next_work<R>(state: BatchState<R>, i: usize)
    requires
        state.wf(),
    ensures
        ({
            let post = state.released(i);
            let works = i < state.phases.len() && state.phases[i as int] is AtWork;
            let next = state.asking[0] as int;
            &&& state.works(i) == works
            &&& !works ==> post == state
            &&& post == (BatchState {
                phases: post.phases,
                asking: post.asking,
                running: post.running,
                ..state
            })
            &&& post.phases.len() == state.phases.len()
            &&& works ==> post.phases[i as int] is Over
            &&& works && state.asking.len() > 0 ==> {
                &&& next != i
                &&& post.phases[next] is AtWork
                &&& state.asking == seq![state.asking[0]] + post.asking
                &&& post.running == state.running
                &&& forall|j: int|
                    0 <= j < state.phases.len() && j != i && j != next
                        ==> #[trigger] post.phases[j] == state.phases[j]
            }
            &&& works && state.asking.len() == 0 ==> {
                &&& post.asking.len() == 0
                &&& post.running == state.running - 1
                &&& forall|j: int|
                    0 <= j < state.phases.len() && j != i ==> #[trigger] post.phases[j]
                        == state.phases[j]
            }
        }),
{
    lemma_released(state, i);
    if state.works(i) && state.asking.len() > 0 {
        assert(state.phases[state.asking[0] as int] is Asking);
        assert(state.asking =~= seq![state.asking[0]] + state.released(i).asking);
    }
}

/// A result counts once for each item, and only for one that was at work and stopped; a
/// channel that closes without one counts at any time. What counts is kept at the item's
/// place; what does not changes nothing.
pub proof fn law_first_message_of_an_item_counts<R>(
    state: BatchState<R>,
    i: usize,
    message: Channel<R>,
)
    requires
        state.wf(),
    ensures
        state.counts(i, message) ==> {
            let post = state.arrived(i, message);
            &&& i < state.phases.len()
            &&& state.join.channels[i as int] is Waiting
            &&& !(message is Waiting)
            &&& message is Sent ==> state.phases[i as int] is Over
            &&& post.join.channels == state.join.channels.update(i as int, message)
            &&& post.join.arrivals == state.join.arrivals.push(i)
            &&& post == (BatchState { join: post.join, ..state })
        },
        i < state.phases.len() && state.join.channels[i as int] is Waiting && message is Closed
            ==> state.counts(i, message),
        i < state.phases.len() && state.join.channels[i as int] is Waiting && message is Sent
            && state.phases[i as int] is Over ==> state.counts(i, message),
        !state.counts(i, message) ==> state.arrived(i, message) == state,
{
}

/// A batch in which something may be at work reaches every item: once each has asked and
/// none is at work any longer, each has been at work. While an item waits, others work.
pub proof fn law_batch_reaches_every_item<R>(
    join: JoinState<R>,
    max_concurrent: usize,
    steps: Seq<BatchStep<R>>,
)
    requires
        join.wf(),
        forall|i: int| 0 <= i < join.channels.len() ==> #[trigger] join.channels[i] is Waiting,
        max_concurrent > 0,
    ensures
        ({
            let state = BatchState::begun(join, max_concurrent).after(steps);
            &&& state.phases.len() == join.channels.len()
            &&& state.running == 0 && (forall|i: int|
                0 <= i < state.phases.len() ==> !(#[trigger] state.phases[i] is Spawned))
                ==> forall|i: int|
                0 <= i < state.phases.len() ==> #[trigger] state.phases[i] is Over
            &&& forall|i: int|
                0 <= i < state.phases.len() && #[trigger] state.phases[i] is Asking
                    ==> state.running == max_concurrent
        }),
{
    law_batch_stays_within_its_bound(join, max_concurrent, steps);
    let state = BatchState::begun(join, max_concurrent).after(steps);
    assert forall|i: int| 0 <= i < state.phases.len() && #[trigger] state.phases[i] is Asking implies
        state.running == max_concurrent by {
        assert(state.asking.contains(i as usize));
    }
    if state.running == 0 {
        assert forall|i: int| 0 <= i < state.phases.len() && !(state.phases[i] is Spawned) implies
            #[trigger] state.phases[i] is Over by {
            lemma_tally_update(state.phases, is_at_work(), i, state.phases[i]);
        }
    }
}

/// The permits that can be handed out are an eighth of all numbers.
pub proof fn law_permits_are_an_eighth()
    ensures
        8 * MAX_PERMITS <= usize::MAX < 8 * (MAX_PERMITS + 1),
{
}

} // verus!
