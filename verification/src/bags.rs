//! Sums of multisets, and counts of what is in a sequence.
use vstd::multiset::Multiset;
use vstd::prelude::*;

verus! {

/// All that is in the given multisets together.
pub open spec fn total<V>(parts: Seq<Multiset<V>>) -> Multiset<V>
    decreases parts.len(),
{
    if parts.len() == 0 {
        Multiset::empty()
    } else {
        total(parts.drop_last()).add(parts.last())
    }
}

/// Replacing one part trades what it held for what it holds.
pub proof fn lemma_total_update<V>(parts: Seq<Multiset<V>>, i: int, part: Multiset<V>)
    requires
        0 <= i < parts.len(),
    ensures
        total(parts.update(i, part)).add(parts[i]) == total(parts).add(part),
    decreases parts.len(),
{
    broadcast use vstd::multiset::group_multiset_axioms;

    let n = parts.len() - 1;
    if i == n {
        assert(parts.update(i, part).drop_last() == parts.drop_last());
    } else {
        let rest = parts.drop_last();
        lemma_total_update(rest, i, part);
        assert(parts.update(i, part).drop_last() == rest.update(i, part));
        assert forall|v: V|
            total(parts.update(i, part)).add(parts[i]).count(v) == total(parts).add(part).count(
                v,
            ) by {
            assert(total(rest.update(i, part)).add(rest[i]).count(v) == total(rest).add(
                part,
            ).count(v));
        }
    }
    assert(total(parts.update(i, part)).add(parts[i]) =~= total(parts).add(part));
}

/// Empty parts are empty together.
pub proof fn lemma_total_empty<V>(parts: Seq<Multiset<V>>)
    requires
        forall|i: int| 0 <= i < parts.len() ==> #[trigger] parts[i] == Multiset::<V>::empty(),
    ensures
        total(parts) == Multiset::<V>::empty(),
    decreases parts.len(),
{
    broadcast use vstd::multiset::group_multiset_axioms;

    if parts.len() > 0 {
        lemma_total_empty(parts.drop_last());
        assert(total(parts) =~= Multiset::empty());
    }
}

/// No part is larger than the whole.
pub proof fn lemma_total_part<V>(parts: Seq<Multiset<V>>, i: int)
    requires
        0 <= i < parts.len(),
    ensures
        parts[i].len() <= total(parts).len(),
    decreases parts.len(),
{
    broadcast use vstd::multiset::group_multiset_axioms;

    if i < parts.len() - 1 {
        lemma_total_part(parts.drop_last(), i);
    }
}

/// What is added to both sides may be taken away.
pub proof fn lemma_cancel<V>(a: Multiset<V>, b: Multiset<V>, c: Multiset<V>)
    requires
        a.add(c) == b.add(c),
    ensures
        a == b,
{
    broadcast use vstd::multiset::group_multiset_axioms;

    assert forall|v: V| a.count(v) == b.count(v) by {
        assert(a.add(c).count(v) == a.count(v) + c.count(v));
        assert(b.add(c).count(v) == b.count(v) + c.count(v));
    }
    assert(a =~= b);
}

/// There are no more different numbers below `n` than `n`.
pub proof fn lemma_pigeonhole(numbers: Seq<usize>, n: nat)
    requires
        numbers.no_duplicates(),
        forall|k: int| 0 <= k < numbers.len() ==> (#[trigger] numbers[k]) < n,
        n <= usize::MAX,
    ensures
        numbers.len() <= n,
    decreases n,
{
    if numbers.len() > 0 {
        assert(numbers[0] < n);
        if numbers.contains((n - 1) as usize) {
            let at = numbers.index_of((n - 1) as usize);
            let rest = numbers.remove(at);
            assert forall|k: int| 0 <= k < rest.len() implies (#[trigger] rest[k]) < n - 1 by {
                let from = if k < at {
                    k
                } else {
                    k + 1
                };
                assert(rest[k] == numbers[from]);
                assert(numbers[from] != numbers[at]);
            }
            lemma_pigeonhole(rest, (n - 1) as nat);
        } else {
            assert forall|k: int| 0 <= k < numbers.len() implies (#[trigger] numbers[k]) < n - 1 by {
                assert(numbers.contains(numbers[k]));
            }
            lemma_pigeonhole(numbers, (n - 1) as nat);
        }
    }
}

/// As many different numbers below `n` as there are make up all of them.
pub proof fn lemma_all_numbers(numbers: Seq<usize>, n: nat)
    requires
        numbers.no_duplicates(),
        forall|k: int| 0 <= k < numbers.len() ==> (#[trigger] numbers[k]) < n,
        numbers.len() == n,
        n <= usize::MAX,
    ensures
        forall|i: usize| i < n ==> #[trigger] numbers.contains(i),
{
    assert forall|i: usize| i < n implies #[trigger] numbers.contains(i) by {
        if !numbers.contains(i) {
            let longer = numbers.push(i);
            assert(longer.no_duplicates());
            lemma_pigeonhole(longer, n);
        }
    }
}

/// The values whose places are among the first `k` of `places`, each at its place.
spec fn placed<V>(values: Seq<V>, places: Seq<usize>, k: int) -> Seq<Multiset<V>> {
    Seq::new(
        values.len(),
        |i: int|
            if places.take(k).contains(i as usize) {
                Multiset::singleton(values[i])
            } else {
                Multiset::empty()
            },
    )
}

/// The values at the first `k` of some different places are those that are put in
/// these places.
proof fn lemma_placed<V>(values: Seq<V>, places: Seq<usize>, k: int)
    requires
        places.no_duplicates(),
        forall|j: int| 0 <= j < places.len() ==> (#[trigger] places[j]) < values.len(),
        0 <= k <= places.len(),
        values.len() <= usize::MAX,
    ensures
        total(placed(values, places, k)) == Seq::new(
            k as nat,
            |j: int| values[places[j] as int],
        ).to_multiset(),
    decreases k,
{
    broadcast use vstd::multiset::group_multiset_axioms;

    let taken = Seq::new(k as nat, |j: int| values[places[j] as int]);
    taken.to_multiset_ensures();
    if k == 0 {
        lemma_total_empty(placed(values, places, 0));
        assert(taken.to_multiset() =~= Multiset::empty());
    } else {
        lemma_placed(values, places, k - 1);
        let before = Seq::new((k - 1) as nat, |j: int| values[places[j] as int]);
        before.to_multiset_ensures();
        let at = places[k - 1] as int;
        let parts = placed(values, places, k - 1);
        let single = Multiset::singleton(values[at]);
        assert(places.take(k) =~= places.take(k - 1).push(places[k - 1]));
        assert(!places.take(k - 1).contains(places[k - 1]));
        assert(placed(values, places, k) =~= parts.update(at, single)) by {
            assert forall|i: int| 0 <= i < values.len() implies placed(values, places, k)[i]
                == #[trigger] parts.update(at, single)[i] by {
                let a = places.take(k - 1);
                let b = places.take(k);
                if a.contains(i as usize) {
                    let j = a.index_of(i as usize);
                    assert(b[j] == i as usize);
                }
                assert(b[k - 1] == places[k - 1]);
                if b.contains(i as usize) && i != at {
                    let j = b.index_of(i as usize);
                    assert(a[j] == i as usize);
                }
            }
        }
        lemma_total_update(parts, at, single);
        assert(taken =~= before.push(values[at]));
        assert(total(placed(values, places, k)) =~= taken.to_multiset());
    }
}

/// Values one by one are the values together.
proof fn lemma_singles<V>(values: Seq<V>)
    ensures
        total(values.map_values(|v: V| Multiset::singleton(v))) == values.to_multiset(),
    decreases values.len(),
{
    broadcast use vstd::multiset::group_multiset_axioms;

    let single = |v: V| Multiset::singleton(v);
    values.to_multiset_ensures();
    if values.len() > 0 {
        let rest = values.drop_last();
        lemma_singles(rest);
        rest.to_multiset_ensures();
        assert(values.map_values(single).drop_last() =~= rest.map_values(single));
        assert(values =~= rest.push(values.last()));
        assert(total(values.map_values(single)) =~= values.to_multiset());
    } else {
        assert(values.to_multiset() =~= Multiset::empty());
    }
}

/// Values in another order are the same values.
pub proof fn lemma_reordered<V>(values: Seq<V>, places: Seq<usize>)
    requires
        places.no_duplicates(),
        forall|j: int| 0 <= j < places.len() ==> (#[trigger] places[j]) < values.len(),
        places.len() == values.len(),
        values.len() <= usize::MAX,
    ensures
        Seq::new(values.len(), |j: int| values[places[j] as int]).to_multiset()
            == values.to_multiset(),
{
    let n = values.len() as int;
    lemma_placed(values, places, n);
    lemma_all_numbers(places, values.len());
    lemma_singles(values);
    assert(places.take(n) =~= places);
    assert(placed(values, places, n) =~= values.map_values(|v: V| Multiset::singleton(v)));
}

/// How many elements of a sequence are of the given kind.
pub open spec fn tally<A>(elements: Seq<A>, kind: spec_fn(A) -> bool) -> nat
    decreases elements.len(),
{
    if elements.len() == 0 {
        0
    } else {
        tally(elements.drop_last(), kind) + if kind(elements.last()) {
            1nat
        } else {
            0nat
        }
    }
}

/// Replacing one element counts it in place of the old one.
pub proof fn lemma_tally_update<A>(
    elements: Seq<A>,
    kind: spec_fn(A) -> bool,
    i: int,
    element: A,
)
    requires
        0 <= i < elements.len(),
    ensures
        tally(elements.update(i, element), kind) + (if kind(elements[i]) {
            1int
        } else {
            0
        }) == tally(elements, kind) + (if kind(element) {
            1int
        } else {
            0
        }),
        tally(elements, kind) <= elements.len(),
        kind(elements[i]) ==> tally(elements, kind) >= 1,
        !kind(elements[i]) ==> tally(elements, kind) < elements.len(),
    decreases elements.len(),
{
    let n = elements.len() - 1;
    if i == n {
        assert(elements.update(i, element).drop_last() =~= elements.drop_last());
        if n > 0 {
            lemma_tally_update(elements.drop_last(), kind, 0, elements[0]);
        }
    } else {
        lemma_tally_update(elements.drop_last(), kind, i, element);
        assert(elements.update(i, element).drop_last() =~= elements.drop_last().update(i, element));
    }
}

/// Where no element is of a kind, none is counted.
pub proof fn lemma_tally_none<A>(elements: Seq<A>, kind: spec_fn(A) -> bool)
    requires
        forall|i: int| 0 <= i < elements.len() ==> !kind(#[trigger] elements[i]),
    ensures
        tally(elements, kind) == 0,
    decreases elements.len(),
{
    if elements.len() > 0 {
        lemma_tally_none(elements.drop_last(), kind);
    }
}

} // verus!
