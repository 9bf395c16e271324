//! Processing items with a bounded number of them in the works at a time.
use crate::pool::ThreadPoolInner;
use crate::result::SpawnResult;
use crate::scope::Scope;
use std::collections::VecDeque;
use vstd::prelude::*;

verus! {

/// Items that are being processed, a bounded number at a time.
pub struct StreamRun<T, R> {
    rest: VecDeque<T>,
    in_flight: usize,
    max_concurrent: usize,
    results: Vec<SpawnResult<R>>,
}

/// An item that was spawned in the place of another.
pub struct NextItem<T> {
    /// The item.
    pub item: T,
    /// The name under which the pool lets its task start.
    pub task: u64,
    /// Whether the task starts now.
    pub starts: bool,
}

/// The state of a stream.
#[verifier::ext_equal]
pub struct StreamState<T, R> {
    /// The items that did not start yet.
    pub rest: Seq<T>,
    /// How many items started and did not end.
    pub in_flight: usize,
    /// How many items may be in the works.
    pub max_concurrent: usize,
    /// The results, in the order in which they came.
    pub results: Seq<SpawnResult<R>>,
}

/// The number of items that start at once.
pub open spec fn first_wave(n: nat, max_concurrent: usize) -> nat {
    if n < max_concurrent {
        n
    } else {
        max_concurrent as nat
    }
}

impl<T, R> StreamState<T, R> {
    /// What holds of a stream at every moment: no more items are in the works than
    /// may be, and exactly as many as may be while any item waits.
    pub open spec fn wf(self) -> bool {
        &&& self.in_flight <= self.max_concurrent
        &&& self.rest.len() > 0 ==> self.in_flight == self.max_concurrent
    }

    /// A stream whose first items have started.
    pub open spec fn begun(items: Seq<T>, max_concurrent: usize) -> StreamState<T, R> {
        let k = first_wave(items.len(), max_concurrent);
        StreamState {
            rest: items.skip(k as int),
            in_flight: k as usize,
            max_concurrent,
            results: Seq::empty(),
        }
    }

    /// After an item came to `result`: the next item, if any waits, took its place.
    pub open spec fn advanced(self, result: SpawnResult<R>) -> StreamState<T, R> {
        if self.rest.len() > 0 {
            StreamState {
                rest: self.rest.drop_first(),
                results: self.results.push(result),
                ..self
            }
        } else {
            StreamState {
                in_flight: (self.in_flight - 1) as usize,
                results: self.results.push(result),
                ..self
            }
        }
    }

    /// After the given results came, one after the other.
    pub open spec fn advanced_all(self, results: Seq<SpawnResult<R>>) -> StreamState<T, R>
        decreases results.len(),
    {
        if results.len() == 0 {
            self
        } else {
            self.advanced_all(results.drop_last()).advanced(results.last())
        }
    }
}

impl<T, R> View for StreamRun<T, R> {
    type V = StreamState<T, R>;

    closed spec fn view(&self) -> StreamState<T, R> {
        StreamState {
            rest: self.rest@,
            in_flight: self.in_flight,
            max_concurrent: self.max_concurrent,
            results: self.results@,
        }
    }
}

impl<T, R> StreamRun<T, R> {
    /// What holds of a stream at every moment.
    pub open spec fn wf(&self) -> bool {
        self@.wf()
    }

    /// Takes the items that start at once off the rest.
    pub(crate) fn begin(items: Vec<T>, max_concurrent: usize) -> (r: (StreamRun<T, R>, Vec<T>))
        ensures
            r.0.wf(),
            r.0@ == StreamState::<T, R>::begun(items@, max_concurrent),
            r.1@ == items@.take(first_wave(items@.len(), max_concurrent) as int),
    {
        let ghost all = items@;
        let wave: usize = if items.len() < max_concurrent {
            items.len()
        } else {
            max_concurrent
        };
        let mut started = items;
        let later = started.split_off(wave);
        let mut rest: VecDeque<T> = VecDeque::new();
        let ghost waiting = later@;
        for item in it: later
            invariant
                it.seq() == waiting,
                rest@ == waiting.take(it.index() as int),
        {
            rest.push_back(item);
            proof {
                assert(waiting.take(it.index() as int + 1) =~= waiting.take(
                    it.index() as int,
                ).push(item));
            }
        }
        proof {
            assert(waiting.take(waiting.len() as int) =~= waiting);
            assert(waiting =~= all.skip(wave as int));
        }
        (StreamRun { rest, in_flight: wave, max_concurrent, results: Vec::new() }, started)
    }

    /// How many items are in the works.
    pub fn in_flight(&self) -> (n: usize)
        ensures
            n == self@.in_flight,
    {
        self.in_flight
    }

    /// Whether no item is in the works.
    pub fn is_done(&self) -> (r: bool)
        ensures
            r == (self@.in_flight == 0),
    {
        self.in_flight == 0
    }

    /// An item came to `result`. The answer is the item that takes its place, if any
    /// waits; it is spawned in the scope.
    pub fn on_result(
        &mut self,
        scope: &mut Scope,
        pool: &mut ThreadPoolInner,
        result: SpawnResult<R>,
    ) -> (next: Option<NextItem<T>>)
        requires
            old(self).wf(),
            old(self)@.in_flight > 0,
            old(pool).wf(),
        ensures
            final(self).wf(),
            final(self)@ == old(self)@.advanced(result),
            final(pool).wf(),
            if old(self)@.rest.len() > 0 {
                &&& next == Some(
                    NextItem {
                        item: old(self)@.rest[0],
                        task: old(pool)@.next_task,
                        starts: old(pool)@.may_start(),
                    },
                )
                &&& final(scope)@ == old(scope)@.spawned()
                &&& final(pool)@ == old(pool)@.async_spawned()
            } else {
                &&& next is None
                &&& final(scope)@ == old(scope)@
                &&& final(pool)@ == old(pool)@
            },
    {
        self.results.push(result);
        match self.rest.pop_front() {
            Some(item) => {
                let spawned = scope.spawn::<R>(pool);
                Some(NextItem { item, task: spawned.task, starts: spawned.starts })
            },
            None => {
                self.in_flight = self.in_flight - 1;
                None
            },
        }
    }

    /// Hands out the results, once no item is in the works.
    pub fn finish(self) -> (results: Vec<SpawnResult<R>>)
        requires
            self@.in_flight == 0,
        ensures
            results@ == self@.results,
    {
        self.results
    }
}

/// How far a stream of `items` is when `results` have come, no more of them than
/// there are items: these are its results, in the order in which they came; the
/// items started in their order, as many as came back and may be in the works
/// besides; and no others are in the works.
pub proof fn law_stream_progress<T, R>(
    items: Seq<T>,
    max_concurrent: usize,
    results: Seq<SpawnResult<R>>,
)
    requires
        0 < max_concurrent,
        results.len() <= items.len(),
    ensures
        ({
            let state = StreamState::<T, R>::begun(items, max_concurrent).advanced_all(results);
            let started = if items.len() < max_concurrent + results.len() {
                items.len() as int
            } else {
                max_concurrent + results.len()
            };
            &&& state.wf()
            &&& state.results == results
            &&& state.rest == items.skip(started)
            &&& state.in_flight == started - results.len()
            &&& state.max_concurrent == max_concurrent
        }),
    decreases results.len(),
{
    if results.len() > 0 {
        law_stream_progress(items, max_concurrent, results.drop_last());
        assert(results =~= results.drop_last().push(results.last()));
    }
}

/// A stream that may have something in the works ends with one result for each
/// item, and not before.
pub proof fn law_stream_ends_with_every_result<T, R>(
    items: Seq<T>,
    max_concurrent: usize,
    results: Seq<SpawnResult<R>>,
)
    requires
        0 < max_concurrent,
        results.len() <= items.len(),
    ensures
        ({
            let state = StreamState::<T, R>::begun(items, max_concurrent).advanced_all(results);
            state.in_flight == 0 <==> results.len() == items.len()
        }),
{
    law_stream_progress(items, max_concurrent, results);
}

/// At no time more items are in the works than may be, none where none may be. There
/// are no results without an item in the works.
pub proof fn law_stream_stays_within_its_bound<T, R>(
    items: Seq<T>,
    max_concurrent: usize,
    results: Seq<SpawnResult<R>>,
)
    requires
        results.len() <= if max_concurrent == 0 {
            0
        } else {
            items.len()
        },
    ensures
        StreamState::<T, R>::begun(items, max_concurrent).advanced_all(results).in_flight
            <= max_concurrent,
{
    if max_concurrent > 0 {
        law_stream_progress(items, max_concurrent, results);
    }
}

/// A stream begins with as many items in the works as it may have, or with all where
/// there are fewer; the others wait, in their order, and nothing has come yet.
pub proof fn law_stream_begins_with_the_first_items<T, R>(items: Seq<T>, max_concurrent: usize)
    requires
        items.len() <= usize::MAX,
    ensures
        ({
            let k = first_wave(items.len(), max_concurrent);
            let state = StreamState::<T, R>::begun(items, max_concurrent);
            &&& k <= items.len()
            &&& k <= max_concurrent
            &&& k == items.len() || k == max_concurrent
            &&& state.in_flight == k
            &&& state.max_concurrent == max_concurrent
            &&& state.results.len() == 0
            &&& items == items.take(k as int) + state.rest
        }),
{
    let k = first_wave(items.len(), max_concurrent);
    assert(items =~= items.take(k as int) + items.skip(k as int));
}

} // verus!
