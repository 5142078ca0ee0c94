//! Facts about filtered sequences.
use vstd::prelude::*;

verus! {

/// Filtering two sequences behind one another.
pub proof fn lemma_filter_map_add<A, B>(a: Seq<A>, b: Seq<A>, f: spec_fn(A) -> Option<B>)
    ensures
        (a + b).filter_map(f) == a.filter_map(f) + b.filter_map(f),
    decreases b.len(),
{
    reveal_with_fuel(Seq::filter_map, 2);
    if b.len() == 0 {
        assert(a + b =~= a);
        assert(a.filter_map(f) + b.filter_map(f) =~= a.filter_map(f));
    } else {
        lemma_filter_map_add(a, b.drop_last(), f);
        assert((a + b).drop_last() =~= a + b.drop_last());
        assert((a + b).last() == b.last());
        assert((a + b).filter_map(f) =~= a.filter_map(f) + b.filter_map(f));
    }
}

/// Filtering drops every element that gives nothing.
pub proof fn lemma_filter_map_none<A, B>(a: Seq<A>, f: spec_fn(A) -> Option<B>)
    requires
        forall|i: int| 0 <= i < a.len() ==> f(#[trigger] a[i]) is None,
    ensures
        a.filter_map(f) == Seq::<B>::empty(),
    decreases a.len(),
{
    reveal_with_fuel(Seq::filter_map, 2);
    if a.len() > 0 {
        assert(f(a[a.len() - 1]) is None);
        assert forall|i: int| 0 <= i < a.drop_last().len() implies f(
            #[trigger] a.drop_last()[i],
        ) is None by {
            assert(a.drop_last()[i] == a[i]);
        }
        lemma_filter_map_none(a.drop_last(), f);
    }
}

/// Filtering maps where every element gives something.
pub proof fn lemma_filter_map_some<A, B>(a: Seq<A>, f: spec_fn(A) -> Option<B>, b: Seq<B>)
    requires
        a.len() == b.len(),
        forall|i: int| 0 <= i < a.len() ==> f(#[trigger] a[i]) == Some(b[i]),
    ensures
        a.filter_map(f) == b,
    decreases a.len(),
{
    reveal_with_fuel(Seq::filter_map, 2);
    if a.len() > 0 {
        assert(f(a[a.len() - 1]) == Some(b[a.len() - 1]));
        assert forall|i: int| 0 <= i < a.drop_last().len() implies f(#[trigger] a.drop_last()[i])
            == Some(b.drop_last()[i]) by {
            assert(a.drop_last()[i] == a[i]);
        }
        lemma_filter_map_some(a.drop_last(), f, b.drop_last());
    }
    assert(a.filter_map(f) =~= b);
}

/// Filtering by two functions that agree on the elements.
pub proof fn lemma_filter_map_same<A, B>(a: Seq<A>, f: spec_fn(A) -> Option<B>, g: spec_fn(A) -> Option<B>)
    requires
        forall|i: int| 0 <= i < a.len() ==> f(#[trigger] a[i]) == g(a[i]),
    ensures
        a.filter_map(f) == a.filter_map(g),
    decreases a.len(),
{
    reveal_with_fuel(Seq::filter_map, 2);
    if a.len() > 0 {
        assert(f(a[a.len() - 1]) == g(a[a.len() - 1]));
        assert forall|i: int| 0 <= i < a.drop_last().len() implies f(#[trigger] a.drop_last()[i])
            == g(a.drop_last()[i]) by {
            assert(a.drop_last()[i] == a[i]);
        }
        lemma_filter_map_same(a.drop_last(), f, g);
    }
}

/// An element that gives something is in the filtered sequence.
pub proof fn lemma_filter_map_contains<A, B>(a: Seq<A>, f: spec_fn(A) -> Option<B>, i: int)
    requires
        0 <= i < a.len(),
        f(a[i]) is Some,
    ensures
        a.filter_map(f).contains(f(a[i]).unwrap()),
    decreases a.len(),
{
    reveal_with_fuel(Seq::filter_map, 2);
    let last = a.len() - 1;
    let rest = a.drop_last().filter_map(f);
    if i < last {
        assert(a.drop_last()[i] == a[i]);
        lemma_filter_map_contains(a.drop_last(), f, i);
        let k = choose|k: int| 0 <= k < rest.len() && rest[k] == f(a[i]).unwrap();
        assert(a.filter_map(f)[k] == rest[k]);
    } else {
        assert(a.filter_map(f)[rest.len() as int] == f(a[i]).unwrap());
    }
}

/// Whether the numbers are places of a list of that length, each once and in
/// ascending order.
pub open spec fn are_places(places: Seq<int>, len: nat) -> bool {
    &&& forall|j: int, k: int|
        0 <= j < k < places.len() ==> #[trigger] places[j] < #[trigger] places[k]
    &&& forall|k: int| 0 <= k < places.len() ==> 0 <= #[trigger] places[k] < len
}

/// Filtering keeps, in their order, what the elements at some places give: those
/// that give something.
pub proof fn lemma_filter_map_places<A, B>(a: Seq<A>, f: spec_fn(A) -> Option<B>) -> (places: Seq<
    int,
>)
    ensures
        are_places(places, a.len()),
        a.filter_map(f).len() == places.len(),
        forall|k: int|
            0 <= k < places.len() ==> f(a[#[trigger] places[k]]) == Some(a.filter_map(f)[k]),
        forall|i: int| 0 <= i < a.len() ==> (#[trigger] places.contains(i) <==> f(a[i]) is Some),
    decreases a.len(),
{
    reveal(Seq::filter_map);
    if a.len() == 0 {
        Seq::empty()
    } else {
        let rest = a.drop_last();
        let last = a.len() - 1;
        let before = lemma_filter_map_places(rest, f);
        let places = if f(a[last]) is Some {
            before.push(last)
        } else {
            before
        };
        let out = a.filter_map(f);
        assert forall|k: int| 0 <= k < places.len() implies f(a[#[trigger] places[k]]) == Some(
            out[k],
        ) by {
            if k < before.len() {
                assert(places[k] == before[k]);
                assert(rest[before[k]] == a[before[k]]);
                assert(out[k] == rest.filter_map(f)[k]);
            }
        }
        assert forall|i: int| 0 <= i < a.len() implies (#[trigger] places.contains(i)
            <==> f(a[i]) is Some) by {
            lemma_place_added(before, last, i);
            if i < last {
                assert(rest[i] == a[i]);
                assert(before.contains(i) <==> f(rest[i]) is Some);
            } else if before.contains(i) {
                let k = choose|k: int| 0 <= k < before.len() && before[k] == i;
                assert(before[k] < rest.len());
            }
        }
        assert forall|j: int, k: int| 0 <= j < k < places.len() implies #[trigger] places[j]
            < #[trigger] places[k] by {
            assert(places[j] == before[j]);
            if k < before.len() {
                assert(places[k] == before[k]);
            }
        }
        places
    }
}

/// Filtering keeps, in their order, the elements at some places: those that pass.
pub proof fn lemma_filter_places<A>(a: Seq<A>, keep: spec_fn(A) -> bool) -> (places: Seq<int>)
    ensures
        are_places(places, a.len()),
        a.filter(keep).len() == places.len(),
        forall|k: int|
            0 <= k < places.len() ==> a.filter(keep)[k] == a[#[trigger] places[k]] && keep(
                a[places[k]],
            ),
        forall|i: int| 0 <= i < a.len() ==> (#[trigger] places.contains(i) <==> keep(a[i])),
    decreases a.len(),
{
    reveal(Seq::filter);
    if a.len() == 0 {
        Seq::empty()
    } else {
        let rest = a.drop_last();
        let last = a.len() - 1;
        let before = lemma_filter_places(rest, keep);
        let places = if keep(a[last]) {
            before.push(last)
        } else {
            before
        };
        let out = a.filter(keep);
        assert forall|k: int| 0 <= k < places.len() implies out[k] == a[#[trigger] places[k]]
            && keep(a[places[k]]) by {
            if k < before.len() {
                assert(places[k] == before[k]);
                assert(rest[before[k]] == a[before[k]]);
                assert(out[k] == rest.filter(keep)[k]);
            }
        }
        assert forall|i: int| 0 <= i < a.len() implies (#[trigger] places.contains(i) <==> keep(
            a[i],
        )) by {
            lemma_place_added(before, last, i);
            if i < last {
                assert(rest[i] == a[i]);
                assert(before.contains(i) <==> keep(rest[i]));
            } else if before.contains(i) {
                let k = choose|k: int| 0 <= k < before.len() && before[k] == i;
                assert(before[k] < rest.len());
            }
        }
        assert forall|j: int, k: int| 0 <= j < k < places.len() implies #[trigger] places[j]
            < #[trigger] places[k] by {
            assert(places[j] == before[j]);
            if k < before.len() {
                assert(places[k] == before[k]);
            }
        }
        places
    }
}

proof fn lemma_place_added(places: Seq<int>, last: int, i: int)
    ensures
        places.push(last).contains(i) <==> places.contains(i) || i == last,
{
    let more = places.push(last);
    if places.contains(i) {
        let k = choose|k: int| 0 <= k < places.len() && places[k] == i;
        assert(more[k] == i);
    }
    assert(more[places.len() as int] == last);
    if more.contains(i) && i != last {
        let k = choose|k: int| 0 <= k < more.len() && more[k] == i;
        assert(places[k] == i);
    }
}

}
