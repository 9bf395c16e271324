//! Splitting items into chunks, and putting the results of the chunks together.
use crate::errors::SpawnError;
use crate::result::SpawnResult;
use vstd::prelude::*;

verus! {

/// The number of chunks of `size` that `n` items make.
pub open spec fn chunk_count(n: nat, size: nat) -> nat {
    ((n + size - 1) / size as int) as nat
}

/// The number of items in chunk `k` of `n` items.
pub open spec fn chunk_len(n: nat, size: nat, k: int) -> nat {
    if n - k * size < size {
        (n - k * size) as nat
    } else {
        size
    }
}

/// The items of chunk `k`.
pub open spec fn chunk<T>(items: Seq<T>, size: nat, k: int) -> Seq<T> {
    items.subrange(k * size, k * size + chunk_len(items.len(), size, k))
}

/// Every chunk but the last is full, and the last holds what is left, which is
/// something: so the chunks before chunk `k` hold `k` times the size.
pub proof fn lemma_chunk_bounds(n: nat, size: nat, k: int)
    requires
        0 < size,
        0 <= k < chunk_count(n, size),
    ensures
        0 <= k * size < n,
        k * size + chunk_len(n, size, k) <= n,
        0 < chunk_len(n, size, k) <= size,
        k + 1 < chunk_count(n, size) ==> chunk_len(n, size, k) == size,
        k + 1 == chunk_count(n, size) ==> k * size + chunk_len(n, size, k) == n,
{
    let m = chunk_count(n, size) as int;
    vstd::arithmetic::div_mod::lemma_fundamental_div_mod(n + size - 1, size as int);
    vstd::arithmetic::div_mod::lemma_mod_bound(n + size - 1, size as int);
    assert(m * size <= n + size - 1 < m * size + size) by (nonlinear_arith)
        requires
            n + size - 1 == size * m + (n + size - 1) % (size as int),
            0 <= (n + size - 1) % (size as int) < size,
    ;
    assert(k * size <= (m - 1) * size) by (nonlinear_arith)
        requires
            k <= m - 1,
            0 < size,
    ;
    assert((m - 1) * size == m * size - size) by (nonlinear_arith);
    assert(0 <= k * size) by (nonlinear_arith)
        requires
            0 <= k,
            0 < size,
    ;
    if k + 1 < m {
        assert((k + 1) * size <= (m - 1) * size) by (nonlinear_arith)
            requires
                k + 1 <= m - 1,
                0 < size,
        ;
        assert((k + 1) * size == k * size + size) by (nonlinear_arith);
    } else {
        assert(k * size == (m - 1) * size) by (nonlinear_arith)
            requires
                k == m - 1,
        ;
    }
}

/// Items make at least one chunk.
proof fn lemma_some_chunk(n: nat, size: nat)
    requires
        0 < n,
        0 < size,
    ensures
        0 < chunk_count(n, size),
{
    vstd::arithmetic::div_mod::lemma_div_is_ordered(size as int, n + size - 1, size as int);
    vstd::arithmetic::div_mod::lemma_div_by_self(size as int);
}

/// Splits the items into chunks of `size`, in their order. Where there are items
/// the size must not be zero.
pub fn split_chunks<T>(items: Vec<T>, size: usize) -> (chunks: Vec<Vec<T>>)
    requires
        items.len() > 0 ==> size > 0,
    ensures
        items.len() == 0 ==> chunks.len() == 0,
        items.len() > 0 ==> chunks.len() == chunk_count(items.len() as nat, size as nat),
        forall|k: int|
            0 <= k < chunks.len() ==> (#[trigger] chunks@[k])@ == chunk(items@, size as nat, k),
{
    let ghost all = items@;
    let ghost n = items@.len();
    let ghost m = if n == 0 {
        0
    } else {
        chunk_count(n, size as nat)
    };
    let mut rest = items;
    let mut chunks: Vec<Vec<T>> = Vec::new();
    proof {
        assert(all.skip(0) =~= all);
        assert(chunks.len() * size == 0) by (nonlinear_arith)
            requires
                chunks.len() == 0,
        ;
        if n > 0 {
            lemma_some_chunk(n, size as nat);
        }
    }
    while rest.len() > 0
        invariant
            all.len() == n,
            n > 0 ==> size > 0,
            m == if n == 0 {
                0
            } else {
                chunk_count(n, size as nat)
            },
            chunks.len() <= m,
            chunks.len() < m ==> rest@ == all.skip(chunks.len() * size),
            chunks.len() == m <==> rest.len() == 0,
            forall|k: int|
                0 <= k < chunks.len() ==> (#[trigger] chunks@[k])@ == chunk(all, size as nat, k),
        decreases rest.len(),
    {
        let ghost k = chunks.len() as int;
        let ghost start = k * size;
        proof {
            lemma_chunk_bounds(n, size as nat, k);
            assert((k + 1) * size == k * size + size) by (nonlinear_arith);
            if k + 1 < m {
                lemma_chunk_bounds(n, size as nat, k + 1);
            }
        }
        let take: usize = if size < rest.len() {
            size
        } else {
            rest.len()
        };
        let tail = rest.split_off(take);
        proof {
            assert(rest@ =~= chunk(all, size as nat, k));
            assert(tail@ =~= all.skip(start + take));
        }
        chunks.push(rest);
        rest = tail;
    }
    chunks
}

/// Runs `f` on every item of a chunk, in order.
pub fn process_chunk<T, R, F: Fn(T) -> R>(chunk: Vec<T>, f: &F) -> (results: Vec<R>)
    requires
        forall|i: int| 0 <= i < chunk.len() ==> call_requires(*f, (#[trigger] chunk@[i],)),
    ensures
        results.len() == chunk.len(),
        forall|i: int|
            0 <= i < chunk.len() ==> call_ensures(*f, (chunk@[i],), #[trigger] results@[i]),
{
    let ghost all = chunk@;
    let mut results: Vec<R> = Vec::new();
    for item in it: chunk
        invariant
            it.seq() == all,
            forall|i: int| 0 <= i < all.len() ==> call_requires(*f, (#[trigger] all[i],)),
            results.len() == it.index(),
            forall|i: int|
                0 <= i < results.len() ==> call_ensures(*f, (all[i],), #[trigger] results@[i]),
    {
        results.push(f(item));
    }
    results
}

/// The values of a chunk, each as a result.
pub open spec fn values<U>(chunk: Seq<U>) -> Seq<SpawnResult<U>> {
    Seq::new(chunk.len(), |i: int| Ok::<U, SpawnError>(chunk[i]))
}

/// The same error, as the result of `n` items.
pub open spec fn errors<U>(e: SpawnError, n: nat) -> Seq<SpawnResult<U>> {
    Seq::new(n, |i: int| Err::<U, SpawnError>(e))
}

/// The results of chunks put together, a chunk without values standing for `size`
/// errors.
pub open spec fn spread<U>(outcomes: Seq<SpawnResult<Vec<U>>>, size: nat) -> Seq<SpawnResult<U>>
    decreases outcomes.len(),
{
    if outcomes.len() == 0 {
        Seq::empty()
    } else {
        spread(outcomes.drop_last(), size) + match outcomes.last() {
            Ok(chunk) => values(chunk@),
            Err(e) => errors(e, size),
        }
    }
}

/// The smaller of two numbers.
pub open spec fn smaller(a: int, b: int) -> nat {
    if a < b {
        a as nat
    } else {
        b as nat
    }
}

/// The results of chunks put together, a chunk without values standing for `size`
/// errors or for as many as are missing from `total`.
pub open spec fn collected<U>(
    outcomes: Seq<SpawnResult<Vec<U>>>,
    size: nat,
    total: nat,
) -> Seq<SpawnResult<U>>
    decreases outcomes.len(),
{
    if outcomes.len() == 0 {
        Seq::empty()
    } else {
        let before = collected(outcomes.drop_last(), size, total);
        before + match outcomes.last() {
            Ok(chunk) => values(chunk@),
            Err(e) => errors(e, smaller(size as int, total - before.len())),
        }
    }
}

/// The results before each chunk without values are no more than `total`.
pub open spec fn within<U>(
    outcomes: Seq<SpawnResult<Vec<U>>>,
    size: nat,
    total: nat,
) -> bool {
    forall|k: int|
        0 <= k < outcomes.len() && #[trigger] outcomes[k] is Err ==> collected(
            outcomes.take(k),
            size,
            total,
        ).len() <= total
}

/// Appends the values of a chunk, each as a result.
fn push_values<U>(results: &mut Vec<SpawnResult<U>>, chunk: Vec<U>)
    ensures
        final(results)@ == old(results)@ + values(chunk@),
{
    let ghost all = chunk@;
    let ghost before = results@;
    for value in it: chunk
        invariant
            it.seq() == all,
            results@ == before + values(all).take(it.index() as int),
    {
        results.push(Ok(value));
        proof {
            assert(values(all).take(it.index() as int + 1) =~= values(all).take(
                it.index() as int,
            ).push(Ok(value)));
        }
    }
    proof {
        assert(values(all).take(all.len() as int) =~= values(all));
    }
}

/// Appends the same error `n` times.
fn push_errors<U>(results: &mut Vec<SpawnResult<U>>, e: SpawnError, n: usize)
    ensures
        final(results)@ == old(results)@ + errors::<U>(e, n as nat),
{
    let ghost before = results@;
    let mut i: usize = 0;
    while i < n
        invariant
            i <= n,
            results@ == before + errors::<U>(e, i as nat),
        decreases n - i,
    {
        results.push(Err(e.clone()));
        i = i + 1;
        proof {
            assert(errors::<U>(e, i as nat) =~= errors::<U>(e, (i - 1) as nat).push(Err(e)));
        }
    }
}

/// Puts the results of chunks together, a chunk without values standing for `size`
/// errors, whatever its own length.
pub fn spread_chunk_results<U>(outcomes: Vec<SpawnResult<Vec<U>>>, size: usize) -> (results: Vec<
    SpawnResult<U>,
>)
    ensures
        results@ == spread(outcomes@, size as nat),
{
    let ghost all = outcomes@;
    let mut results: Vec<SpawnResult<U>> = Vec::new();
    for outcome in it: outcomes
        invariant
            it.seq() == all,
            results@ == spread(all.take(it.index() as int), size as nat),
    {
        proof {
            let k = it.index() as int;
            assert(all.take(k + 1).drop_last() =~= all.take(k));
            assert(all.take(k + 1).last() == all[k]);
        }
        match outcome {
            Ok(chunk) => {
                push_values(&mut results, chunk);
            },
            Err(e) => {
                push_errors(&mut results, e, size);
            },
        }
    }
    proof {
        assert(all.take(all.len() as int) =~= all);
    }
    results
}

/// Puts the results of chunks together, a chunk without values standing for `size`
/// errors or for as many as are missing from `total`.
pub fn collect_chunk_results<U>(
    outcomes: Vec<SpawnResult<Vec<U>>>,
    size: usize,
    total: usize,
) -> (results: Vec<SpawnResult<U>>)
    requires
        within(outcomes@, size as nat, total as nat),
    ensures
        results@ == collected(outcomes@, size as nat, total as nat),
{
    let ghost all = outcomes@;
    let mut results: Vec<SpawnResult<U>> = Vec::new();
    for outcome in it: outcomes
        invariant
            it.seq() == all,
            within(all, size as nat, total as nat),
            results@ == collected(all.take(it.index() as int), size as nat, total as nat),
    {
        proof {
            let k = it.index() as int;
            assert(all.take(k + 1).drop_last() =~= all.take(k));
            assert(all.take(k + 1).last() == all[k]);
        }
        match outcome {
            Ok(chunk) => {
                push_values(&mut results, chunk);
            },
            Err(e) => {
                let missing: usize = total - results.len();
                let n: usize = if size < missing {
                    size
                } else {
                    missing
                };
                push_errors(&mut results, e, n);
            },
        }
    }
    proof {
        assert(all.take(all.len() as int) =~= all);
    }
    results
}

/// The result that item `i` has: its value, or the error of its chunk.
pub open spec fn item_result<U>(
    outcomes: Seq<SpawnResult<Vec<U>>>,
    size: nat,
    i: int,
) -> SpawnResult<U> {
    match outcomes[i / size as int] {
        Ok(chunk) => Ok(chunk@[i % size as int]),
        Err(e) => Err(e),
    }
}

/// There is an outcome for each chunk of `n` items, and a chunk with values has one
/// for each of its items.
pub open spec fn fitting<U>(outcomes: Seq<SpawnResult<Vec<U>>>, n: nat, size: nat) -> bool {
    &&& outcomes.len() == if n == 0 {
        0
    } else {
        chunk_count(n, size)
    }
    &&& forall|k: int|
        0 <= k < outcomes.len() ==> (#[trigger] outcomes[k] matches Ok(chunk) ==> chunk@.len()
            == chunk_len(n, size, k))
}

/// The number of items in the first `k` chunks.
spec fn covered(n: nat, size: nat, k: int) -> int {
    if n == 0 || k >= chunk_count(n, size) {
        n as int
    } else {
        k * size
    }
}

/// The first `k` chunks have a result for each of their items.
proof fn lemma_collected<U>(outcomes: Seq<SpawnResult<Vec<U>>>, n: nat, size: nat, k: int)
    requires
        0 < n,
        0 < size,
        fitting(outcomes, n, size),
        0 <= k <= outcomes.len(),
    ensures
        collected(outcomes.take(k), size, n).len() == covered(n, size, k),
        forall|i: int|
            0 <= i < covered(n, size, k) ==> #[trigger] collected(outcomes.take(k), size, n)[i]
                == item_result(outcomes, size, i),
    decreases k,
{
    if k == 0 {
        lemma_some_chunk(n, size);
        assert(0 * size == 0) by (nonlinear_arith);
    } else {
        let m = chunk_count(n, size);
        let at = k - 1;
        lemma_collected(outcomes, n, size, at);
        lemma_chunk_bounds(n, size, at);
        assert(k * size == at * size + size) by (nonlinear_arith)
            requires
                k == at + 1,
        ;
        let prefix = outcomes.take(k);
        assert(prefix.drop_last() =~= outcomes.take(at));
        assert(prefix.last() == outcomes[at]);
        let before = collected(outcomes.take(at), size, n);
        let after = collected(prefix, size, n);
        assert(before.len() == at * size);
        assert(after.len() == before.len() + chunk_len(n, size, at));
        assert forall|i: int| 0 <= i < covered(n, size, k) implies #[trigger] after[i]
            == item_result(outcomes, size, i) by {
            if i < before.len() {
                assert(after[i] == before[i]);
            } else {
                vstd::arithmetic::div_mod::lemma_fundamental_div_mod_converse(
                    i,
                    size as int,
                    at,
                    i - at * size,
                );
            }
        }
    }
}

/// Where a result for every chunk is in, there is one result for every item, at
/// the item's own place: its value, or the error of its chunk.
pub proof fn law_collected_has_one_result_per_item<U>(
    outcomes: Seq<SpawnResult<Vec<U>>>,
    n: nat,
    size: nat,
)
    requires
        n > 0 ==> size > 0,
        fitting(outcomes, n, size),
    ensures
        within(outcomes, size, n),
        collected(outcomes, size, n).len() == n,
        forall|i: int|
            0 <= i < n ==> #[trigger] collected(outcomes, size, n)[i] == item_result(
                outcomes,
                size,
                i,
            ),
{
    if n > 0 {
        lemma_collected(outcomes, n, size, outcomes.len() as int);
        assert(outcomes.take(outcomes.len() as int) =~= outcomes);
        assert forall|k: int|
            0 <= k < outcomes.len() && #[trigger] outcomes[k] is Err implies collected(
            outcomes.take(k),
            size,
            n,
        ).len() <= n by {
            lemma_collected(outcomes, n, size, k);
            lemma_chunk_bounds(n, size, k);
        }
    }
}

/// Spread out, chunks have the same results, unless the last chunk is short and
/// without values: that one stands for more errors than it has items.
pub proof fn law_spread_has_one_result_per_item<U>(
    outcomes: Seq<SpawnResult<Vec<U>>>,
    n: nat,
    size: nat,
)
    requires
        n > 0,
        size > 0,
        fitting(outcomes, n, size),
        outcomes.last() is Ok || chunk_len(n, size, outcomes.len() - 1) == size,
    ensures
        spread(outcomes, size).len() == n,
        forall|i: int|
            0 <= i < n ==> #[trigger] spread(outcomes, size)[i] == item_result(outcomes, size, i),
{
    lemma_spread(outcomes, n, size, outcomes.len() as int);
    assert(outcomes.take(outcomes.len() as int) =~= outcomes);
    law_collected_has_one_result_per_item(outcomes, n, size);
}

/// Spreading the first `k` chunks is collecting them, unless the last is short and
/// without values.
proof fn lemma_spread<U>(outcomes: Seq<SpawnResult<Vec<U>>>, n: nat, size: nat, k: int)
    requires
        0 < n,
        0 < size,
        fitting(outcomes, n, size),
        0 <= k <= outcomes.len(),
        k < outcomes.len() || outcomes.last() is Ok || chunk_len(n, size, outcomes.len() - 1)
            == size,
    ensures
        spread(outcomes.take(k), size) == collected(outcomes.take(k), size, n),
    decreases k,
{
    if k > 0 {
        let at = k - 1;
        lemma_spread(outcomes, n, size, at);
        lemma_collected(outcomes, n, size, at);
        lemma_chunk_bounds(n, size, at);
        assert(outcomes.take(k).drop_last() =~= outcomes.take(at));
        assert(outcomes.take(k).last() == outcomes[at]);
    }
}

/// Mapping in chunks is mapping: where `f` ran on the items of each chunk that has
/// values, every value in the results is what `f` gave for the item at its place.
pub proof fn law_chunks_map_every_item<T, U, F: Fn(T) -> U>(
    items: Seq<T>,
    size: nat,
    outcomes: Seq<SpawnResult<Vec<U>>>,
    f: F,
    i: int,
)
    requires
        size > 0,
        fitting(outcomes, items.len(), size),
        forall|k: int, j: int|
            0 <= k < outcomes.len() && outcomes[k] is Ok && 0 <= j < chunk_len(
                items.len(),
                size,
                k,
            ) ==> call_ensures(
                f,
                (chunk(items, size, k)[j],),
                #[trigger] outcomes[k]->Ok_0@[j],
            ),
        0 <= i < items.len(),
    ensures
        collected(outcomes, size, items.len())[i] matches Ok(value) ==> call_ensures(
            f,
            (items[i],),
            value,
        ),
        collected(outcomes, size, items.len())[i] is Err <==> outcomes[i / size as int] is Err,
{
    let n = items.len();
    law_collected_has_one_result_per_item(outcomes, n, size);
    let k = i / size as int;
    let j = i % size as int;
    vstd::arithmetic::div_mod::lemma_fundamental_div_mod(i, size as int);
    vstd::arithmetic::div_mod::lemma_mod_bound(i, size as int);
    lemma_place(n, size, i);
    if outcomes[k] is Ok {
        assert(k * size + j == i) by (nonlinear_arith)
            requires
                i == size * k + j,
        ;
        assert(chunk(items, size, k)[j] == items[i]);
        assert(call_ensures(f, (chunk(items, size, k)[j],), outcomes[k]->Ok_0@[j]));
    }
}

/// An item lies in one of the chunks, and within it.
proof fn lemma_place(n: nat, size: nat, i: int)
    requires
        size > 0,
        0 <= i < n,
    ensures
        0 <= i / size as int,
        i / (size as int) < chunk_count(n, size),
        0 <= i % size as int,
        i % (size as int) < chunk_len(n, size, i / size as int),
{
    let k = i / size as int;
    let m = chunk_count(n, size) as int;
    vstd::arithmetic::div_mod::lemma_fundamental_div_mod(i, size as int);
    vstd::arithmetic::div_mod::lemma_mod_bound(i, size as int);
    vstd::arithmetic::div_mod::lemma_div_pos_is_pos(i, size as int);
    assert(k < m) by {
        vstd::arithmetic::div_mod::lemma_div_is_ordered(i + size, n + size - 1, size as int);
        vstd::arithmetic::div_mod::lemma_div_plus_one(i, size as int);
    }
    assert(k * size == size * k) by (nonlinear_arith);
}

/// The chunks hold every item once, in order: item `i` is at place `i % size` of
/// chunk `i / size`, and the chunks hold nothing else.
pub proof fn law_chunks_hold_every_item<T>(items: Seq<T>, size: nat, i: int)
    requires
        size > 0,
        0 <= i < items.len(),
    ensures
        0 <= i / size as int,
        i / (size as int) < chunk_count(items.len(), size),
        chunk(items, size, i / size as int)[i % size as int] == items[i],
        chunk(items, size, i / size as int).len() <= size,
        i / size as int + 1 < chunk_count(items.len(), size) ==> chunk(
            items,
            size,
            i / size as int,
        ).len() == size,
        i / size as int + 1 == chunk_count(items.len(), size) ==> (i / size as int) * size + chunk(
            items,
            size,
            i / size as int,
        ).len() == items.len(),
{
    let k = i / size as int;
    let j = i % size as int;
    lemma_place(items.len(), size, i);
    lemma_chunk_bounds(items.len(), size, k);
    vstd::arithmetic::div_mod::lemma_fundamental_div_mod(i, size as int);
    assert(k * size + j == i) by (nonlinear_arith)
        requires
            i == size * k + j,
    ;
}

/// Chunks are as few as hold all items: one less would be too few.
pub proof fn law_chunks_are_as_few_as_can_be(n: nat, size: nat)
    requires
        0 < n,
        0 < size,
    ensures
        0 < chunk_count(n, size),
        (chunk_count(n, size) - 1) * size < n <= chunk_count(n, size) * size,
{
    lemma_some_chunk(n, size);
    let last = chunk_count(n, size) - 1;
    lemma_chunk_bounds(n, size, last);
    assert((last + 1) * size == last * size + size) by (nonlinear_arith);
}

/// A chunk holds as many items as its size, or as are left: those that follow the items
/// of the chunks before it, in their order.
pub proof fn law_chunk_holds_the_next_items<T>(items: Seq<T>, size: nat, k: int)
    requires
        0 < size,
        0 <= k < chunk_count(items.len(), size),
    ensures
        ({
            let held = chunk(items, size, k);
            let left = items.len() - k * size;
            &&& held.len() == chunk_len(items.len(), size, k)
            &&& held.len() == if left < size {
                left
            } else {
                size as int
            }
            &&& held.len() > 0
            &&& forall|j: int| 0 <= j < held.len() ==> #[trigger] held[j] == items[k * size + j]
        }),
{
    lemma_chunk_bounds(items.len(), size, k);
}

/// Each chunk fills its own place in the results: with its values in their order, or with
/// its error once for each of its items.
pub proof fn law_chunk_fills_its_place<U>(
    outcomes: Seq<SpawnResult<Vec<U>>>,
    n: nat,
    size: nat,
    k: int,
    j: int,
)
    requires
        0 < n,
        0 < size,
        fitting(outcomes, n, size),
        0 <= k < outcomes.len(),
        0 <= j < size,
        k * size + j < n,
    ensures
        collected(outcomes, size, n).len() == n,
        outcomes[k] matches Ok(values) ==> values@.len() > j && collected(
            outcomes,
            size,
            n,
        )[k * size + j] == Ok::<U, SpawnError>(values@[j]),
        outcomes[k] matches Err(e) ==> collected(outcomes, size, n)[k * size + j] == Err::<
            U,
            SpawnError,
        >(e),
{
    law_collected_has_one_result_per_item(outcomes, n, size);
    lemma_chunk_bounds(n, size, k);
    let i = k * size + j;
    assert(0 <= k * size) by (nonlinear_arith)
        requires
            0 <= k,
            0 < size,
    ;
    vstd::arithmetic::div_mod::lemma_fundamental_div_mod_converse(i, size as int, k, j);
    assert(collected(outcomes, size, n)[i] == item_result(outcomes, size, i));
}

/// One more chunk adds its results behind those of the others: its values in their order,
/// or its error: `size` times where chunks are spread, and where they are collected no
/// more often than results are missing.
pub proof fn law_chunk_adds_its_results<U>(
    outcomes: Seq<SpawnResult<Vec<U>>>,
    outcome: SpawnResult<Vec<U>>,
    size: nat,
    total: nat,
)
    ensures
        spread(Seq::<SpawnResult<Vec<U>>>::empty(), size).len() == 0,
        collected(Seq::<SpawnResult<Vec<U>>>::empty(), size, total).len() == 0,
        ({
            let before = spread(outcomes, size);
            let after = spread(outcomes.push(outcome), size);
            &&& after.take(before.len() as int) == before
            &&& outcome matches Ok(values) ==> after.len() == before.len() + values@.len()
                && forall|j: int|
                0 <= j < values@.len() ==> after[before.len() + j] == Ok::<U, SpawnError>(
                    #[trigger] values@[j],
                )
            &&& outcome matches Err(e) ==> after.len() == before.len() + size && forall|i: int|
                before.len() <= i < after.len() ==> #[trigger] after[i] == Err::<U, SpawnError>(e)
        }),
        ({
            let before = collected(outcomes, size, total);
            let after = collected(outcomes.push(outcome), size, total);
            &&& after.take(before.len() as int) == before
            &&& outcome matches Ok(values) ==> after.len() == before.len() + values@.len()
                && forall|j: int|
                0 <= j < values@.len() ==> after[before.len() + j] == Ok::<U, SpawnError>(
                    #[trigger] values@[j],
                )
            &&& outcome matches Err(e) ==> (before.len() <= total ==> after.len() == if before.len()
                + size <= total {
                before.len() + size
            } else {
                total
            }) && forall|i: int|
                before.len() <= i < after.len() ==> #[trigger] after[i] == Err::<U, SpawnError>(e)
        }),
{
    assert(outcomes.push(outcome).drop_last() =~= outcomes);
    let spread_before = spread(outcomes, size);
    let spread_after = spread(outcomes.push(outcome), size);
    assert(spread_after.take(spread_before.len() as int) =~= spread_before);
    let before = collected(outcomes, size, total);
    let after = collected(outcomes.push(outcome), size, total);
    assert(after.take(before.len() as int) =~= before);
}

/// A last chunk that fails stands for a full chunk of errors where chunks are spread,
/// however few items it has.
pub proof fn law_spread_failure_is_a_full_chunk<U>(
    outcomes: Seq<SpawnResult<Vec<U>>>,
    n: nat,
    size: nat,
)
    requires
        0 < n,
        0 < size,
        fitting(outcomes, n, size),
        outcomes.last() is Err,
    ensures
        spread(outcomes, size).len() == outcomes.len() * size,
        forall|i: int|
            (outcomes.len() - 1) * size <= i < outcomes.len() * size ==> #[trigger] spread(
                outcomes,
                size,
            )[i] == Err::<U, SpawnError>(outcomes.last()->Err_0),
{
    let last = outcomes.len() - 1;
    lemma_some_chunk(n, size);
    lemma_spread(outcomes, n, size, last);
    lemma_collected(outcomes, n, size, last);
    lemma_chunk_bounds(n, size, last);
    assert((last + 1) * size == last * size + size) by (nonlinear_arith);
    assert(outcomes.take(last).push(outcomes.last()) =~= outcomes);
    law_chunk_adds_its_results(outcomes.take(last), outcomes.last(), size, n);
}

} // verus!
