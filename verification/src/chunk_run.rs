//! Chunks that are being processed by blocking tasks, one for each chunk.
use crate::bags::lemma_pigeonhole;
use crate::chunks::{
    chunk_count, chunk_len, collect_chunk_results, collected, fitting, item_result,
    law_chunk_fills_its_place, law_chunks_are_as_few_as_can_be,
    law_collected_has_one_result_per_item, law_spread_failure_is_a_full_chunk,
    law_spread_has_one_result_per_item, lemma_chunk_bounds, spread, spread_chunk_results,
};
use crate::errors::SpawnError;
use crate::handle::{received, Channel};
use crate::join::{law_join_is_done_when_no_channel_waits, JoinRun, JoinState};
use crate::result::SpawnResult;
use vstd::prelude::*;

verus! {

/// Chunks that are being processed and joined, in their order.
pub struct ChunkRun<U> {
    join: JoinRun<Vec<U>>,
    size: usize,
    total: usize,
    trims: bool,
}

/// The state of chunks.
#[verifier::ext_equal]
pub struct ChunkState<U> {
    /// The handles of the chunks.
    pub join: JoinState<Vec<U>>,
    /// The number of items in a full chunk.
    pub size: usize,
    /// The number of items in all.
    pub total: usize,
    /// Whether a chunk that fails stands for no more errors than there are items.
    pub trims: bool,
}

/// The message is a result of `n` values, or no values.
pub open spec fn message_fits<U>(message: Channel<Vec<U>>, n: nat) -> bool {
    message matches Channel::Sent(Ok(values)) ==> values@.len() == n
}

impl<U> ChunkState<U> {
    /// What holds of chunks at every moment: there is a handle for each, they are
    /// joined in order, and a chunk with values has one for each of its items.
    pub open spec fn wf(self) -> bool {
        &&& self.join.wf()
        &&& self.join.ordering is Ordered
        &&& self.total > 0 ==> self.size > 0
        &&& self.join.channels.len() == if self.total == 0 {
            0
        } else {
            chunk_count(self.total as nat, self.size as nat)
        }
        &&& forall|k: int|
            0 <= k < self.join.channels.len() ==> message_fits(
                #[trigger] self.join.channels[k],
                chunk_len(self.total as nat, self.size as nat, k),
            )
    }

    /// The results of the items, in the order of the items.
    pub open spec fn results(self) -> Seq<SpawnResult<U>> {
        if self.trims {
            collected(self.join.results(), self.size as nat, self.total as nat)
        } else {
            spread(self.join.results(), self.size as nat)
        }
    }
}

impl<U> View for ChunkRun<U> {
    type V = ChunkState<U>;

    closed spec fn view(&self) -> ChunkState<U> {
        ChunkState { join: self.join@, size: self.size, total: self.total, trims: self.trims }
    }
}

/// Joined chunks fit the items.
proof fn lemma_joined_chunks_fit<U>(state: ChunkState<U>)
    requires
        state.wf(),
        state.join.is_done(),
    ensures
        fitting(state.join.results(), state.total as nat, state.size as nat),
{
    let outcomes = state.join.results();
    assert forall|k: int| 0 <= k < outcomes.len() implies (#[trigger] outcomes[k] matches Ok(
        values,
    ) ==> values@.len() == chunk_len(state.total as nat, state.size as nat, k)) by {
        assert(message_fits(
            state.join.channels[k],
            chunk_len(state.total as nat, state.size as nat, k),
        ));
    }
}

impl<U> ChunkRun<U> {
    /// What holds of chunks at every moment.
    pub open spec fn wf(&self) -> bool {
        self@.wf()
    }

    /// Chunks that were just spawned.
    pub(crate) fn begin(join: JoinRun<Vec<U>>, size: usize, total: usize, trims: bool) -> (run:
        ChunkRun<U>)
        requires
            (ChunkState { join: join@, size, total, trims }).wf(),
        ensures
            run.wf(),
            run@ == (ChunkState { join: join@, size, total, trims }),
    {
        ChunkRun { join, size, total, trims }
    }

    /// The channel of chunk `i` brought something. The answer tells whether that
    /// counts, as it does for joined handles; values that are not as many as the
    /// chunk has items are not those of the chunk.
    pub fn arrive(&mut self, i: usize, message: Channel<Vec<U>>) -> (counts: bool)
        requires
            old(self).wf(),
        ensures
            final(self).wf(),
            counts == (i < old(self)@.join.channels.len()
                && old(self)@.join.channels[i as int] is Waiting && !(message is Waiting)
                && message_fits(
                message,
                chunk_len(old(self)@.total as nat, old(self)@.size as nat, i as int),
            )),
            final(self)@ == if counts {
                ChunkState { join: old(self)@.join.arrived(i, message), ..old(self)@ }
            } else {
                old(self)@
            },
    {
        if i >= self.join.len() {
            return false;
        }
        proof {
            lemma_chunk_bounds(self@.total as nat, self@.size as nat, i as int);
        }
        let left: usize = self.total - i * self.size;
        let expected: usize = if left < self.size {
            left
        } else {
            self.size
        };
        let fits = match &message {
            Channel::Sent(Ok(values)) => values.len() == expected,
            _ => true,
        };
        fits && self.join.arrive(i, message)
    }

    /// Whether every chunk has a result.
    pub fn is_done(&self) -> (r: bool)
        ensures
            r == self@.join.is_done(),
    {
        self.join.is_done()
    }

    /// Hands out the results of the items, once every chunk has one.
    pub fn finish(self) -> (results: Vec<SpawnResult<U>>)
        requires
            self.wf(),
            self@.join.is_done(),
        ensures
            results@ == self@.results(),
    {
        let ghost state = self@;
        proof {
            lemma_joined_chunks_fit(state);
            law_collected_has_one_result_per_item(
                state.join.results(),
                state.total as nat,
                state.size as nat,
            );
        }
        let ChunkRun { join, size, total, trims } = self;
        let outcomes = join.finish();
        if trims {
            collect_chunk_results(outcomes, size, total)
        } else {
            spread_chunk_results(outcomes, size)
        }
    }
}

/// Chunks come to one result for each item, at the item's place: its value, or the
/// error of its chunk. Where failed chunks are not trimmed, a short last chunk that
/// fails is left out: it stands for more errors than it has items.
pub proof fn law_chunks_end_with_every_result<U>(state: ChunkState<U>, i: int)
    requires
        state.wf(),
        state.join.is_done(),
        0 <= i < state.total,
        state.trims || received(state.join.channels.last()) is Ok || chunk_len(
            state.total as nat,
            state.size as nat,
            state.join.channels.len() - 1,
        ) == state.size,
    ensures
        state.results().len() == state.total,
        state.results()[i] == item_result(state.join.results(), state.size as nat, i),
{
    lemma_joined_chunks_fit(state);
    law_collected_has_one_result_per_item(
        state.join.results(),
        state.total as nat,
        state.size as nat,
    );
    if !state.trims {
        law_spread_has_one_result_per_item(
            state.join.results(),
            state.total as nat,
            state.size as nat,
        );
    }
}

/// The values of a chunk are taken where there is one for each of its items; a failure is
/// taken in any case.
pub proof fn law_only_whole_chunks_are_taken<U>(values: Vec<U>, e: SpawnError, n: nat)
    ensures
        message_fits(Channel::Sent(Ok(values)), n) <==> values@.len() == n,
        message_fits(Channel::<Vec<U>>::Sent(Err(e)), n),
        message_fits(Channel::<Vec<U>>::Closed, n),
{
}

/// What a chunk was sent stands at the places of its items: each value at its own, or the
/// error at all of them. A closed channel is an error like another. Where failed chunks
/// are not trimmed this holds of all but a short last chunk that fails.
pub proof fn law_items_get_what_their_chunk_was_sent<U>(state: ChunkState<U>, k: int, j: int)
    requires
        state.wf(),
        state.join.is_done(),
        0 <= k < state.join.channels.len(),
        0 <= j < state.size,
        k * state.size + j < state.total,
        state.trims || !(received(state.join.channels.last()) is Err) || chunk_len(
            state.total as nat,
            state.size as nat,
            state.join.channels.len() - 1,
        ) == state.size,
    ensures
        state.results().len() == state.total,
        state.join.channels[k] matches Channel::Sent(Ok(values)) ==> values@.len() > j
            && state.results()[k * state.size + j] == Ok::<U, SpawnError>(values@[j]),
        state.join.channels[k] matches Channel::Sent(Err(e)) ==> state.results()[k * state.size + j]
            == Err::<U, SpawnError>(e),
        state.join.channels[k] is Closed ==> state.results()[k * state.size + j] == Err::<
            U,
            SpawnError,
        >(SpawnError::ChannelClosed),
{
    lemma_joined_chunks_fit(state);
    let i = k * state.size + j;
    assert(0 <= i) by (nonlinear_arith)
        requires
            0 <= k,
            0 <= j,
            i == k * state.size + j,
    ;
    law_chunk_fills_its_place(
        state.join.results(),
        state.total as nat,
        state.size as nat,
        k,
        j,
    );
    law_chunks_end_with_every_result(state, i);
    law_collected_has_one_result_per_item(
        state.join.results(),
        state.total as nat,
        state.size as nat,
    );
    law_join_is_done_when_no_channel_waits(state.join);
    assert(!(state.join.channels[k] is Waiting));
    assert(collected(state.join.results(), state.size as nat, state.total as nat)[i] == item_result(
        state.join.results(),
        state.size as nat,
        i,
    ));
}

/// A last chunk that fails, where failed chunks are not trimmed, stands for a full chunk of
/// errors, however few items it has.
pub proof fn law_untrimmed_failure_is_a_full_chunk<U>(state: ChunkState<U>)
    requires
        state.wf(),
        state.join.is_done(),
        state.total > 0,
        !state.trims,
        received(state.join.channels.last()) is Err,
    ensures
        state.results().len() == state.join.channels.len() * state.size,
        state.results().last() == Err::<U, SpawnError>(
            received(state.join.channels.last())->Err_0,
        ),
{
    lemma_joined_chunks_fit(state);
    let outcomes = state.join.results();
    let m = outcomes.len();
    law_chunks_are_as_few_as_can_be(state.total as nat, state.size as nat);
    law_spread_failure_is_a_full_chunk(outcomes, state.total as nat, state.size as nat);
    assert(m * state.size == (m - 1) * state.size + state.size) by (nonlinear_arith);
    assert(0 <= (m - 1) * state.size) by (nonlinear_arith)
        requires
            0 < m,
    ;
    assert(state.results()[m * state.size - 1] == Err::<U, SpawnError>(outcomes.last()->Err_0));
}

/// Without items there are no chunks and no results.
pub proof fn law_no_items_no_results<U>(state: ChunkState<U>)
    requires
        state.wf(),
        state.total == 0,
    ensures
        state.join.channels.len() == 0,
        state.join.is_done(),
        state.results().len() == 0,
{
    assert(state.join.results() =~= Seq::<SpawnResult<Vec<U>>>::empty());
    lemma_pigeonhole(state.join.arrivals, 0);
}

} // verus!
