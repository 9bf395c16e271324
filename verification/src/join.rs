//! Joining many handles: their results in the order of the handles, or in the
//! order in which the tasks ended.
use crate::bags::{lemma_all_numbers, lemma_pigeonhole, lemma_reordered};
use crate::handle::{received, Channel, JoinHandle};
use crate::model::JoinOrdering;
use crate::result::SpawnResult;
use vstd::prelude::*;

verus! {

/// Handles that are being joined.
pub struct JoinRun<T> {
    ordering: JoinOrdering,
    handles: Vec<JoinHandle<T>>,
    arrivals: Vec<usize>,
}

/// The state of a join.
#[verifier::ext_equal]
pub struct JoinState<T> {
    /// How the results are ordered.
    pub ordering: JoinOrdering,
    /// What the channel of each handle holds.
    pub channels: Seq<Channel<T>>,
    /// The handles whose results have come, in the order in which they came.
    pub arrivals: Seq<usize>,
}

impl<T> JoinState<T> {
    /// What holds of a join at every moment: the handles that have arrived are those
    /// whose channels wait no longer, each once.
    pub open spec fn wf(self) -> bool {
        &&& self.arrivals.no_duplicates()
        &&& forall|k: int|
            0 <= k < self.arrivals.len() ==> (#[trigger] self.arrivals[k]) < self.channels.len()
        &&& forall|i: int|
            0 <= i < self.channels.len() ==> (!(#[trigger] self.channels[i] is Waiting)
                <==> self.arrivals.contains(i as usize))
        &&& self.channels.len() <= usize::MAX
    }

    /// Every handle has arrived.
    pub open spec fn is_done(self) -> bool {
        self.arrivals.len() == self.channels.len()
    }

    /// The handle whose result is the `k`-th to be handed out.
    pub open spec fn source(self, k: int) -> int {
        match self.ordering {
            JoinOrdering::Ordered => k,
            JoinOrdering::UnOrdered => self.arrivals[k] as int,
        }
    }

    /// The results, in the order in which they are handed out.
    pub open spec fn results(self) -> Seq<SpawnResult<T>> {
        Seq::new(self.channels.len(), |k: int| received(self.channels[self.source(k)]))
    }

    /// After the channel of handle `i` brought `message`.
    pub open spec fn arrived(self, i: usize, message: Channel<T>) -> JoinState<T> {
        JoinState {
            channels: self.channels.update(i as int, message),
            arrivals: self.arrivals.push(i),
            ..self
        }
    }
}

/// The handles that arrived before the join began, in their order.
pub open spec fn settled_before<T>(channels: Seq<Channel<T>>, n: int) -> Seq<usize>
    decreases n,
{
    if n <= 0 {
        Seq::empty()
    } else {
        let before = settled_before(channels, n - 1);
        if channels[n - 1] is Waiting {
            before
        } else {
            before.push((n - 1) as usize)
        }
    }
}

impl<T> View for JoinRun<T> {
    type V = JoinState<T>;

    closed spec fn view(&self) -> JoinState<T> {
        JoinState {
            ordering: self.ordering,
            channels: self.handles@.map_values(|h: JoinHandle<T>| h@.channel),
            arrivals: self.arrivals@,
        }
    }
}

/// The handles that arrived before the join are just those whose channels did not
/// wait.
proof fn lemma_settled_before<T>(channels: Seq<Channel<T>>, n: int)
    requires
        0 <= n <= channels.len() <= usize::MAX,
    ensures
        settled_before(channels, n).no_duplicates(),
        forall|k: int|
            0 <= k < settled_before(channels, n).len() ==> (#[trigger] settled_before(
                channels,
                n,
            )[k]) < n,
        forall|i: int|
            0 <= i < n ==> (!(#[trigger] channels[i] is Waiting) <==> settled_before(
                channels,
                n,
            ).contains(i as usize)),
    decreases n,
{
    if n > 0 {
        lemma_settled_before(channels, n - 1);
        let before = settled_before(channels, n - 1);
        let after = settled_before(channels, n);
        assert forall|i: int| 0 <= i < n implies (!(#[trigger] channels[i] is Waiting)
            <==> after.contains(i as usize)) by {
            if !(channels[n - 1] is Waiting) {
                assert(after[before.len() as int] == (n - 1) as usize);
                if before.contains(i as usize) {
                    let k = before.index_of(i as usize);
                    assert(after[k] == i as usize);
                }
            }
        }
    }
}

/// A message that counts keeps joined handles in order.
pub proof fn lemma_arrived<T>(state: JoinState<T>, i: usize, message: Channel<T>)
    requires
        state.wf(),
        i < state.channels.len(),
        state.channels[i as int] is Waiting,
        !(message is Waiting),
    ensures
        state.arrived(i, message).wf(),
{
    let post = state.arrived(i, message);
    assert(!state.arrivals.contains(i));
    assert forall|j: int| 0 <= j < post.channels.len() implies (!(
    #[trigger] post.channels[j] is Waiting) <==> post.arrivals.contains(j as usize)) by {
        assert(state.channels[j] is Waiting <==> !state.arrivals.contains(j as usize));
        assert(post.arrivals[state.arrivals.len() as int] == i);
        if state.arrivals.contains(j as usize) {
            let k = state.arrivals.index_of(j as usize);
            assert(post.arrivals[k] == j as usize);
        }
    }
}

impl<T> JoinRun<T> {
    /// What holds of a join at every moment.
    pub open spec fn wf(&self) -> bool {
        self@.wf()
    }

    /// Begins to join the given handles. Those whose channels hold something already
    /// have arrived.
    pub fn new(handles: Vec<JoinHandle<T>>, ordering: JoinOrdering) -> (run: JoinRun<T>)
        ensures
            run.wf(),
            run@ == ({
                let channels = handles@.map_values(|h: JoinHandle<T>| h@.channel);
                JoinState {
                    ordering,
                    channels,
                    arrivals: settled_before(channels, channels.len() as int),
                }
            }),
    {
        let ghost channels = handles@.map_values(|h: JoinHandle<T>| h@.channel);
        let mut arrivals: Vec<usize> = Vec::new();
        let mut i: usize = 0;
        while i < handles.len()
            invariant
                i <= handles.len(),
                channels == handles@.map_values(|h: JoinHandle<T>| h@.channel),
                arrivals@ == settled_before(channels, i as int),
            decreases handles.len() - i,
        {
            if !handles[i].is_waiting() {
                arrivals.push(i);
            }
            i = i + 1;
        }
        proof {
            lemma_settled_before(channels, channels.len() as int);
        }
        JoinRun { ordering, handles, arrivals }
    }

    /// The number of handles.
    pub fn len(&self) -> (n: usize)
        ensures
            n == self@.channels.len(),
    {
        self.handles.len()
    }

    /// The channel of handle `i` brought something. The answer tells whether that
    /// counts: the handle exists, its channel waited, and it waits no longer.
    pub fn arrive(&mut self, i: usize, message: Channel<T>) -> (counts: bool)
        requires
            old(self).wf(),
        ensures
            final(self).wf(),
            counts == (i < old(self)@.channels.len() && old(self)@.channels[i as int] is Waiting
                && !(message is Waiting)),
            final(self)@ == if counts {
                old(self)@.arrived(i, message)
            } else {
                old(self)@
            },
    {
        let speaks = match message {
            Channel::Waiting => false,
            _ => true,
        };
        if i >= self.handles.len() || !speaks || !self.handles[i].is_waiting() {
            return false;
        }
        self.handles[i].deliver(message);
        self.arrivals.push(i);
        proof {
            lemma_arrived(old(self)@, i, message);
            assert(self@ =~= old(self)@.arrived(i, message));
        }
        true
    }

    /// Whether every handle has arrived.
    pub fn is_done(&self) -> (r: bool)
        ensures
            r == self@.is_done(),
    {
        self.arrivals.len() == self.handles.len()
    }

    /// Hands out the results, once every handle has arrived.
    pub fn finish(self) -> (results: Vec<SpawnResult<T>>)
        requires
            self.wf(),
            self@.is_done(),
        ensures
            results@ == self@.results(),
    {
        let ghost state = self@;
        let JoinRun { ordering, handles, arrivals } = self;
        let n: usize = handles.len();
        let mut slots: Vec<Option<SpawnResult<T>>> = Vec::new();
        proof {
            lemma_all_numbers(state.arrivals, n as nat);
        }
        for handle in it: handles
            invariant
                n == state.channels.len(),
                it.seq().len() == n,
                forall|i: int|
                    0 <= i < n ==> (#[trigger] it.seq()[i])@.channel == state.channels[i],
                forall|i: int| 0 <= i < n ==> !(#[trigger] state.channels[i] is Waiting),
                slots.len() == it.index(),
                forall|i: int|
                    0 <= i < slots.len() ==> #[trigger] slots@[i] == Some(
                        received(state.channels[i]),
                    ),
        {
            match handle.poll() {
                Ok(result) => {
                    slots.push(Some(result));
                },
                Err(_) => {},
            }
        }
        let mut results: Vec<SpawnResult<T>> = Vec::new();
        let mut k: usize = 0;
        while k < n
            invariant
                k <= n,
                n == state.channels.len(),
                slots.len() == n,
                state.wf(),
                state.is_done(),
                ordering == state.ordering,
                arrivals@ == state.arrivals,
                results.len() == k,
                forall|j: int| 0 <= j < k ==> #[trigger] results@[j] == state.results()[j],
                forall|j: int|
                    k <= j < n ==> #[trigger] slots@[state.source(j)] == Some(
                        received(state.channels[state.source(j)]),
                    ),
            decreases n - k,
        {
            let source: usize = match ordering {
                JoinOrdering::Ordered => k,
                JoinOrdering::UnOrdered => arrivals[k],
            };
            proof {
                assert(source == state.source(k as int));
            }
            let slot = slots[source].take();
            results.push(slot.unwrap());
            k = k + 1;
        }
        proof {
            assert(results@ =~= state.results());
        }
        results
    }
}

/// Joined in order, the handles give their results in their own order, whichever
/// task ends first.
pub proof fn law_ordered_results_follow_the_handles<T>(state: JoinState<T>)
    requires
        state.ordering is Ordered,
    ensures
        state.results() == state.channels.map_values(|channel: Channel<T>| received(channel)),
{
    assert(state.results() =~= state.channels.map_values(
        |channel: Channel<T>| received(channel),
    ));
}

/// Joined in whichever order, the handles give one result each, and no other.
pub proof fn law_joined_results_are_those_of_the_handles<T>(state: JoinState<T>)
    requires
        state.wf(),
        state.is_done(),
    ensures
        state.results().to_multiset() == state.channels.map_values(
            |channel: Channel<T>| received(channel),
        ).to_multiset(),
        state.results().len() == state.channels.len(),
{
    let all = state.channels.map_values(|channel: Channel<T>| received(channel));
    match state.ordering {
        JoinOrdering::Ordered => {
            law_ordered_results_follow_the_handles(state);
        },
        JoinOrdering::UnOrdered => {
            lemma_reordered(all, state.arrivals);
            assert(state.results() =~= Seq::new(all.len(), |j: int| all[state.arrivals[j] as int]));
        },
    }
}

/// What the channel of a handle brought is kept at that handle's place and comes last
/// among what has come; the other handles stay as they are.
pub proof fn law_arrival_changes_one_handle<T>(state: JoinState<T>, i: usize, message: Channel<T>)
    requires
        i < state.channels.len(),
    ensures
        ({
            let post = state.arrived(i, message);
            &&& post.ordering == state.ordering
            &&& post.channels.len() == state.channels.len()
            &&& post.channels[i as int] == message
            &&& forall|j: int|
                0 <= j < state.channels.len() && j != i ==> #[trigger] post.channels[j]
                    == state.channels[j]
            &&& post.arrivals.len() == state.arrivals.len() + 1
            &&& post.arrivals.last() == i
            &&& post.arrivals.drop_last() == state.arrivals
        }),
{
    assert(state.arrivals.push(i).drop_last() =~= state.arrivals);
}

/// A join is over exactly when no channel waits any longer.
pub proof fn law_join_is_done_when_no_channel_waits<T>(state: JoinState<T>)
    requires
        state.wf(),
    ensures
        state.is_done() <==> forall|i: int|
            0 <= i < state.channels.len() ==> !(#[trigger] state.channels[i] is Waiting),
{
    let n = state.channels.len();
    if state.is_done() {
        lemma_all_numbers(state.arrivals, n);
        assert forall|i: int| 0 <= i < n implies !(#[trigger] state.channels[i] is Waiting) by {
            assert(state.arrivals.contains(i as usize));
        }
    } else {
        lemma_pigeonhole(state.arrivals, n);
        if forall|i: int| 0 <= i < n ==> !(#[trigger] state.channels[i] is Waiting) {
            let places = Seq::new(n, |i: int| state.arrivals.index_of(i as usize) as usize);
            assert forall|i: int| 0 <= i < n implies 0 <= (#[trigger] state.arrivals.index_of(
                i as usize,
            )) < state.arrivals.len() && state.arrivals[state.arrivals.index_of(i as usize)]
                == i by {
                assert(!(state.channels[i] is Waiting));
                assert(state.arrivals.contains(i as usize));
            }
            assert forall|k: int| 0 <= k < places.len() implies (#[trigger] places[k])
                < state.arrivals.len() by {
                assert(state.arrivals.index_of(k as usize) < state.arrivals.len());
            }
            assert forall|a: int, b: int|
                0 <= a < places.len() && 0 <= b < places.len() && a != b implies places[a]
                != places[b] by {
                assert(state.arrivals[state.arrivals.index_of(a as usize)] == a);
                assert(state.arrivals[state.arrivals.index_of(b as usize)] == b);
            }
            lemma_pigeonhole(places, state.arrivals.len());
        }
    }
}

/// Joined as they come, the handles give their results in the order in which these came.
pub proof fn law_unordered_results_follow_the_arrivals<T>(state: JoinState<T>, k: int)
    requires
        state.ordering is UnOrdered,
        state.wf(),
        0 <= k < state.arrivals.len(),
    ensures
        state.results()[k] == received(state.channels[state.arrivals[k] as int]),
        state.results().len() == state.channels.len(),
{
    assert(state.arrivals[k] < state.channels.len());
    lemma_pigeonhole(state.arrivals, state.channels.len());
}

/// The handles that have something before the join are taken in their order, each once,
/// and no other is.
pub proof fn law_settled_handles_come_in_order<T>(channels: Seq<Channel<T>>, n: int)
    requires
        0 <= n <= channels.len() <= usize::MAX,
    ensures
        forall|a: int, b: int|
            0 <= a < b < settled_before(channels, n).len() ==> (#[trigger] settled_before(
                channels,
                n,
            )[a]) < (#[trigger] settled_before(channels, n)[b]),
        forall|i: int|
            0 <= i < n ==> (!(#[trigger] channels[i] is Waiting) <==> settled_before(
                channels,
                n,
            ).contains(i as usize)),
    decreases n,
{
    lemma_settled_before(channels, n);
    if n > 0 {
        law_settled_handles_come_in_order(channels, n - 1);
        lemma_settled_before(channels, n - 1);
    }
}

impl<T> JoinState<T> {
    /// After the channels of the given handles brought the given messages, one after the
    /// other.
    pub open spec fn arrived_all(self, order: Seq<usize>, messages: Seq<Channel<T>>) -> JoinState<T>
        decreases order.len(),
    {
        if order.len() == 0 {
            self
        } else {
            self.arrived_all(order.drop_last(), messages.drop_last()).arrived(
                order.last(),
                messages.last(),
            )
        }
    }
}

/// What the handles were sent is what the join hands out: in the order of the handles, or
/// in the order in which it was sent.
pub proof fn law_join_hands_out_what_was_sent<T>(
    start: JoinState<T>,
    order: Seq<usize>,
    sent: Seq<SpawnResult<T>>,
    k: int,
)
    requires
        start.arrivals.len() == 0,
        order.len() == start.channels.len(),
        sent.len() == order.len(),
        order.no_duplicates(),
        forall|j: int| 0 <= j < order.len() ==> (#[trigger] order[j]) < start.channels.len(),
        0 <= k < order.len(),
    ensures
        ({
            let messages = sent.map_values(|result: SpawnResult<T>| Channel::Sent(result));
            let results = start.arrived_all(order, messages).results();
            &&& results.len() == order.len()
            &&& start.ordering is Ordered ==> results[order[k] as int] == sent[k]
            &&& start.ordering is UnOrdered ==> results[k] == sent[k]
        }),
{
    let messages = sent.map_values(|result: SpawnResult<T>| Channel::Sent(result));
    lemma_arrived_all(start, order, messages);
    let after = start.arrived_all(order, messages);
    assert(after.channels[order[k] as int] == messages[k]);
}

/// Messages stand at the places of their handles, in the order in which they came.
proof fn lemma_arrived_all<T>(start: JoinState<T>, order: Seq<usize>, messages: Seq<Channel<T>>)
    requires
        start.arrivals.len() == 0,
        messages.len() == order.len(),
        order.no_duplicates(),
        forall|j: int| 0 <= j < order.len() ==> (#[trigger] order[j]) < start.channels.len(),
    ensures
        ({
            let after = start.arrived_all(order, messages);
            &&& after.arrivals == order
            &&& after.ordering == start.ordering
            &&& after.channels.len() == start.channels.len()
            &&& forall|j: int|
                0 <= j < order.len() ==> after.channels[(#[trigger] order[j]) as int] == messages[j]
        }),
    decreases order.len(),
{
    if order.len() == 0 {
        assert(start.arrivals =~= order);
    } else {
        let fewer = order.drop_last();
        lemma_arrived_all(start, fewer, messages.drop_last());
        let after = start.arrived_all(order, messages);
        assert(after.arrivals =~= order);
        assert forall|j: int| 0 <= j < order.len() implies after.channels[(#[trigger] order[j]) as int]
            == messages[j] by {
            if j < order.len() - 1 {
                assert(fewer[j] == order[j]);
                assert(order[j] != order.last());
            }
        }
    }
}

} // verus!
