//! What a chart shows of the history.
use crate::bindings;
use crate::db::history::{self, PointView};
use crate::db::insert;
use crate::db::laws;
use crate::db::read;
use crate::db::{self, StoreError, StoreView};
use crate::diff::DiffView;
use crate::parse::RowView;
use crate::promises::board;
use crate::promises::record;
use crate::score;
use crate::seqs;
use vstd::prelude::*;

verus! {

/// Whether the entry is a present one of the team, in a snapshot up to the given
/// one.
pub open spec fn is_reached(s: StoreView, e: int, t: int, until: Option<i64>) -> bool {
    &&& s.entries[e].team_id == s.teams[t].id
    &&& s.entries[e].present
    &&& until matches Some(id) ==> s.entries[e].snapshot_id <= id
}

/// Whether the entry has a readable time, a rank and a score.
pub open spec fn can_be_drawn(s: StoreView, e: int) -> bool {
    &&& s.entries[e].rank is Some
    &&& s.entries[e].score is Some
    &&& forall|x: int|
        0 <= x < s.snapshots.len() && (#[trigger] s.snapshots[x]).id == s.entries[e].snapshot_id
            ==> bindings::rfc3339_seconds(s.snapshots[x].fetched_at) is Some
}

proof fn lemma_snapshot_of(s: StoreView, e: int) -> (x: int)
    requires
        laws::valid(s),
        0 <= e < s.entries.len(),
    ensures
        0 <= x < s.snapshots.len(),
        s.snapshots[x].id == s.entries[e].snapshot_id,
        read::fetched_at_of(s.snapshots, s.entries[e].snapshot_id) == Some(
            s.snapshots[x].fetched_at,
        ),
        forall|y: int|
            0 <= y < s.snapshots.len() && (#[trigger] s.snapshots[y]).id == s.entries[e].snapshot_id
                ==> y == x,
{
    let ids = db::snapshot_ids(s);
    assert(ids.contains(s.entries[e].snapshot_id));
    let x = choose|x: int| 0 <= x < ids.len() && ids[x] == s.entries[e].snapshot_id;
    assert(s.snapshots[x].id == s.entries[e].snapshot_id);
    board::time_is_that_of_the_snapshot(s, x);
    assert forall|y: int|
        0 <= y < s.snapshots.len() && (#[trigger] s.snapshots[y]).id
            == s.entries[e].snapshot_id implies y == x by {
        if y < x {
            assert(s.snapshots[y].id < s.snapshots[x].id);
        } else if x < y {
            assert(s.snapshots[x].id < s.snapshots[y].id);
        }
    }
    x
}

proof fn lemma_charted(s: StoreView, e: int, t: int, until: Option<i64>)
    requires
        laws::valid(s),
        0 <= e < s.entries.len(),
        0 <= t < s.teams.len(),
    ensures
        history::charted(s, s.entries[e], s.teams[t].name, until) <==> is_reached(s, e, t, until),
        history::point_of(s, s.entries[e]) is Ok <==> can_be_drawn(s, e),
        history::point_of(s, s.entries[e]) matches Ok(point) ==> {
            &&& s.entries[e].rank == Some(point.rank)
            &&& s.entries[e].score == Some(point.score)
            &&& forall|x: int|
                0 <= x < s.snapshots.len() && (#[trigger] s.snapshots[x]).id
                    == s.entries[e].snapshot_id ==> bindings::rfc3339_seconds(
                    s.snapshots[x].fetched_at,
                ) == Some(point.timestamp)
        },
{
    let x = lemma_snapshot_of(s, e);
    assert(read::name_of(s.teams, s.entries[e].team_id) is Some);
    let u = laws::lemma_name_index(s.teams, s.entries[e].team_id);
    laws::lemma_name_at(s.teams, s.team_seq, t);
    if u < t {
        assert(s.teams[u].name != s.teams[t].name);
        assert(s.teams[u].id < s.teams[t].id);
    } else if t < u {
        assert(s.teams[t].name != s.teams[u].name);
        assert(s.teams[t].id < s.teams[u].id);
    }
}

proof fn lemma_points(s: StoreView, n: int, t: int, until: Option<i64>) -> (places: Seq<int>)
    requires
        laws::valid(s),
        0 <= t < s.teams.len(),
        0 <= n <= s.entries.len(),
    ensures
        seqs::are_places(places, n as nat),
        forall|e: int| 0 <= e < n ==> (#[trigger] places.contains(e) <==> is_reached(s, e, t, until)),
        history::points_of(s, s.entries.take(n), s.teams[t].name, until) is Ok <==> forall|k: int|
            0 <= k < places.len() ==> can_be_drawn(s, #[trigger] places[k]),
        history::points_of(s, s.entries.take(n), s.teams[t].name, until) matches Ok(points) ==> {
            &&& points.len() == places.len()
            &&& forall|k: int|
                0 <= k < places.len() ==> history::point_of(s, s.entries[#[trigger] places[k]])
                    == Ok::<PointView, StoreError>(points[k])
        },
    decreases n,
{
    if n == 0 {
        Seq::empty()
    } else {
        let before = lemma_points(s, n - 1, t, until);
        let e = n - 1;
        lemma_charted(s, e, t, until);
        assert(s.entries.take(n).drop_last() =~= s.entries.take(n - 1));
        assert(s.entries.take(n).last() == s.entries[e]);
        let places = if is_reached(s, e, t, until) {
            before.push(e)
        } else {
            before
        };
        assert forall|i: int| 0 <= i < n implies (#[trigger] places.contains(i) <==> is_reached(
            s,
            i,
            t,
            until,
        )) by {
            if before.contains(i) {
                let k = choose|k: int| 0 <= k < before.len() && before[k] == i;
                assert(before[k] < n - 1);
                assert(places[k] == i);
            }
            if i < e {
                assert(before.contains(i) <==> is_reached(s, i, t, until));
                if places.contains(i) {
                    let k = choose|k: int| 0 <= k < places.len() && places[k] == i;
                    assert(before[k] == i);
                }
            } else if is_reached(s, e, t, until) {
                assert(places[before.len() as int] == i);
            }
        }
        assert forall|j: int, k: int| 0 <= j < k < places.len() implies #[trigger] places[j]
            < #[trigger] places[k] by {
            assert(places[j] == before[j]);
            if k < before.len() {
                assert(places[k] == before[k]);
            }
        }
        assert forall|k: int| 0 <= k < places.len() implies 0 <= #[trigger] places[k] < n by {
            if k < before.len() {
                assert(places[k] == before[k]);
            }
        }
        if forall|k: int| 0 <= k < places.len() ==> can_be_drawn(s, #[trigger] places[k]) {
            assert forall|k: int| 0 <= k < before.len() implies can_be_drawn(
                s,
                #[trigger] before[k],
            ) by {
                assert(places[k] == before[k]);
            }
            if is_reached(s, e, t, until) {
                assert(places[before.len() as int] == e);
            }
        }
        if history::points_of(s, s.entries.take(n), s.teams[t].name, until) is Ok {
            let earlier = history::points_of(s, s.entries.take(n - 1), s.teams[t].name, until)->Ok_0;
            let points = history::points_of(s, s.entries.take(n), s.teams[t].name, until)->Ok_0;
            assert forall|k: int| 0 <= k < places.len() implies history::point_of(
                s,
                s.entries[#[trigger] places[k]],
            ) == Ok::<PointView, StoreError>(points[k]) by {
                if k < before.len() {
                    assert(places[k] == before[k]);
                    assert(points[k] == earlier[k]);
                }
            }
            assert forall|k: int| 0 <= k < places.len() implies can_be_drawn(
                s,
                #[trigger] places[k],
            ) by {
                lemma_charted(s, places[k], t, until);
            }
        }
        places
    }
}

/// The chart of a team has a point for every present entry of it, in every snapshot
/// up to the given one, however old: with the time of the snapshot and the entry's
/// rank and score. It can be drawn exactly where all of these are there.
pub proof fn chart_has_every_snapshot_of_the_team(
    s: StoreView,
    t: int,
    until: Option<i64>,
) -> (places: Seq<int>)
    requires
        laws::valid(s),
        0 <= t < s.teams.len(),
    ensures
        seqs::are_places(places, s.entries.len()),
        forall|e: int|
            0 <= e < s.entries.len() ==> (#[trigger] places.contains(e)
                <==> s.entries[e].team_id == s.teams[t].id && s.entries[e].present && (
            until matches Some(id) ==> s.entries[e].snapshot_id <= id)),
        history::points_of(s, s.entries, s.teams[t].name, until) is Ok <==> forall|k: int|
            0 <= k < places.len() ==> can_be_drawn(s, #[trigger] places[k]),
        history::points_of(s, s.entries, s.teams[t].name, until) matches Ok(points) ==> {
            &&& points.len() == places.len()
            &&& forall|k: int|
                0 <= k < places.len() ==> {
                    let entry = s.entries[#[trigger] places[k]];
                    &&& entry.rank == Some(points[k].rank)
                    &&& entry.score == Some(points[k].score)
                    &&& forall|x: int|
                        0 <= x < s.snapshots.len() && (#[trigger] s.snapshots[x]).id
                            == entry.snapshot_id ==> bindings::rfc3339_seconds(
                            s.snapshots[x].fetched_at,
                        ) == Some(points[k].timestamp)
                }
        },
{
    let n = s.entries.len() as int;
    let places = lemma_points(s, n, t, until);
    assert(s.entries.take(n) =~= s.entries);
    assert forall|e: int| 0 <= e < s.entries.len() implies (#[trigger] places.contains(e)
        <==> s.entries[e].team_id == s.teams[t].id && s.entries[e].present && (until matches Some(
        id,
    ) ==> s.entries[e].snapshot_id <= id)) by {
        assert(places.contains(e) <==> is_reached(s, e, t, until));
    }
    assert forall|k: int| 0 <= k < places.len() implies {
        let entry = s.entries[#[trigger] places[k]];
        history::points_of(s, s.entries, s.teams[t].name, until) matches Ok(points) ==> {
            &&& entry.rank == Some(points[k].rank)
            &&& entry.score == Some(points[k].score)
            &&& forall|x: int|
                0 <= x < s.snapshots.len() && (#[trigger] s.snapshots[x]).id == entry.snapshot_id
                    ==> bindings::rfc3339_seconds(s.snapshots[x].fetched_at) == Some(
                    points[k].timestamp,
                )
        }
    } by {
        lemma_charted(s, places[k], t, until);
    }
    places
}

/// The chart of a team that is nowhere in the history has no point.
pub proof fn chart_of_an_unknown_team_is_empty(s: StoreView, team: Seq<char>, until: Option<i64>)
    requires
        laws::valid(s),
        forall|t: int| 0 <= t < s.teams.len() ==> (#[trigger] s.teams[t]).name != team,
    ensures
        history::points_of(s, s.entries, team, until) == Ok::<Seq<PointView>, StoreError>(
            Seq::empty(),
        ),
{
    lemma_no_points(s, s.entries.len() as int, team, until);
    assert(s.entries.take(s.entries.len() as int) =~= s.entries);
}

proof fn lemma_no_points(s: StoreView, n: int, team: Seq<char>, until: Option<i64>)
    requires
        laws::valid(s),
        0 <= n <= s.entries.len(),
        forall|t: int| 0 <= t < s.teams.len() ==> (#[trigger] s.teams[t]).name != team,
    ensures
        history::points_of(s, s.entries.take(n), team, until) == Ok::<Seq<PointView>, StoreError>(
            Seq::empty(),
        ),
    decreases n,
{
    if n > 0 {
        lemma_no_points(s, n - 1, team, until);
        assert(s.entries.take(n).drop_last() =~= s.entries.take(n - 1));
        assert(s.entries.take(n).last() == s.entries[n - 1]);
        let u = laws::lemma_name_index(s.teams, s.entries[n - 1].team_id);
        assert(s.teams[u].name != team);
    }
}

/// The development of several teams is that of each of them, in the order of the
/// names.
pub proof fn series_are_those_of_the_names(s: StoreView, names: Seq<Seq<char>>, until: Option<i64>)
    ensures
        history::series_of(s, names, until) is Ok <==> forall|i: int|
            0 <= i < names.len() ==> history::points_of(s, s.entries, #[trigger] names[i], until) is Ok,
        history::series_of(s, names, until) matches Ok(series) ==> {
            &&& series.len() == names.len()
            &&& forall|i: int|
                0 <= i < names.len() ==> (#[trigger] series[i]).team_id == names[i]
                    && history::points_of(s, s.entries, names[i], until) == Ok::<
                    Seq<PointView>,
                    StoreError,
                >(series[i].points)
        },
    decreases names.len(),
{
    if names.len() > 0 {
        let rest = names.drop_last();
        let last = names.len() - 1;
        series_are_those_of_the_names(s, rest, until);
        assert(forall|i: int| 0 <= i < rest.len() ==> #[trigger] rest[i] == names[i]);
        if history::series_of(s, names, until) is Ok {
            let done = history::series_of(s, rest, until)->Ok_0;
            let series = history::series_of(s, names, until)->Ok_0;
            assert forall|i: int| 0 <= i < names.len() implies (#[trigger] series[i]).team_id
                == names[i] && history::points_of(s, s.entries, names[i], until) == Ok::<
                Seq<PointView>,
                StoreError,
            >(series[i].points) by {
                if i < last {
                    assert(series[i] == done[i]);
                    assert(rest[i] == names[i]);
                }
            }
            assert forall|i: int| 0 <= i < names.len() implies history::points_of(
                s,
                s.entries,
                #[trigger] names[i],
                until,
            ) is Ok by {
                assert(series[i].team_id == names[i]);
            }
        }
        if forall|i: int|
            0 <= i < names.len() ==> history::points_of(s, s.entries, #[trigger] names[i], until) is Ok {
            assert forall|i: int| 0 <= i < rest.len() implies history::points_of(
                s,
                s.entries,
                #[trigger] rest[i],
                until,
            ) is Ok by {
                assert(rest[i] == names[i]);
            }
            assert(history::points_of(s, s.entries, names[last], until) is Ok);
        }
    }
}

/// Without repetition every name is there once, where it occurs first.
pub proof fn repetition_is_left_out(names: Seq<Seq<char>>)
    ensures
        history::distinct(names).no_duplicates(),
        forall|name: Seq<char>| #[trigger]
            history::distinct(names).contains(name) <==> names.contains(name),
        names.no_duplicates() ==> history::distinct(names) == names,
    decreases names.len(),
{
    if names.len() == 0 {
        assert(history::distinct(names) =~= names);
    } else {
        let rest = names.drop_last();
        let last = names.last();
        let before = history::distinct(rest);
        let out = history::distinct(names);
        repetition_is_left_out(rest);
        assert(names =~= rest.push(last));
        assert forall|name: Seq<char>| #[trigger] out.contains(name) <==> names.contains(name) by {
            lemma_contains_pushed(rest, last, name);
            lemma_contains_pushed(before, last, name);
            assert(before.contains(name) <==> rest.contains(name));
        }
        if !before.contains(last) {
            assert forall|i: int, j: int| 0 <= i < out.len() && 0 <= j < out.len() && i
                != j implies out[i] != out[j] by {
                if i < before.len() && j < before.len() {
                    assert(before[i] != before[j]);
                } else if i < before.len() {
                    assert(before.contains(before[i]));
                } else {
                    assert(before.contains(before[j]));
                }
            }
        }
        if names.no_duplicates() {
            assert forall|i: int, j: int| 0 <= i < rest.len() && 0 <= j < rest.len() && i
                != j implies rest[i] != rest[j] by {
                assert(names[i] != names[j]);
            }
            if rest.contains(last) {
                let i = choose|i: int| 0 <= i < rest.len() && rest[i] == last;
                assert(names[i] != names[names.len() - 1]);
            }
        }
    }
}

proof fn lemma_contains_pushed<A>(items: Seq<A>, item: A, x: A)
    ensures
        items.push(item).contains(x) <==> items.contains(x) || x == item,
{
    let more = items.push(item);
    if items.contains(x) {
        let k = choose|k: int| 0 <= k < items.len() && items[k] == x;
        assert(more[k] == x);
    }
    assert(more[items.len() as int] == item);
    if more.contains(x) && x != item {
        let k = choose|k: int| 0 <= k < more.len() && more[k] == x;
        assert(items[k] == x);
    }
}

proof fn lemma_same_places(p: Seq<int>, q: Seq<int>, n: nat)
    requires
        seqs::are_places(p, n),
        seqs::are_places(q, n),
        forall|i: int| 0 <= i < n ==> (#[trigger] p.contains(i) <==> q.contains(i)),
    ensures
        p == q,
    decreases n,
{
    if n == 0 {
        if p.len() > 0 {
            assert(0 <= p[0] < n);
        }
        if q.len() > 0 {
            assert(0 <= q[0] < n);
        }
        assert(p =~= q);
    } else {
        let last = n - 1;
        let a = lemma_without_last(p, n);
        let b = lemma_without_last(q, n);
        assert(p.contains(last) <==> q.contains(last));
        assert forall|i: int| 0 <= i < last implies (#[trigger] a.contains(i) <==> b.contains(i)) by {
            assert(p.contains(i) <==> q.contains(i));
        }
        lemma_same_places(a, b, last as nat);
    }
}

proof fn lemma_without_last(p: Seq<int>, n: nat) -> (rest: Seq<int>)
    requires
        n > 0,
        seqs::are_places(p, n),
    ensures
        seqs::are_places(rest, (n - 1) as nat),
        p.contains(n - 1) ==> p == rest.push(n - 1),
        !p.contains(n - 1) ==> p == rest,
        forall|i: int| 0 <= i < n - 1 ==> (#[trigger] rest.contains(i) <==> p.contains(i)),
{
    if p.contains(n - 1) {
        let k = choose|k: int| 0 <= k < p.len() && p[k] == n - 1;
        if k < p.len() - 1 {
            assert(p[k] < p[p.len() - 1]);
        }
        let rest = p.drop_last();
        assert(p =~= rest.push(n - 1));
        assert forall|j: int, l: int| 0 <= j < l < rest.len() implies #[trigger] rest[j]
            < #[trigger] rest[l] by {
            assert(p[j] < p[l]);
        }
        assert forall|j: int| 0 <= j < rest.len() implies 0 <= #[trigger] rest[j] < n - 1 by {
            assert(p[j] < p[p.len() - 1]);
        }
        assert forall|i: int| 0 <= i < n - 1 implies (#[trigger] rest.contains(i) <==> p.contains(
            i,
        )) by {
            lemma_contains_pushed(rest, n - 1, i);
        }
        rest
    } else {
        assert forall|j: int| 0 <= j < p.len() implies 0 <= #[trigger] p[j] < n - 1 by {
            if p[j] == n - 1 {
                assert(p.contains(n - 1));
            }
        }
        p
    }
}

/// Every snapshot that lists a team adds one point to its chart, behind those that
/// were there: with the row's rank, and with its score and the snapshot's time. So
/// after as many such snapshots its chart has as many points.
#[verifier::spinoff_prover]
#[verifier::rlimit(40)]
pub proof fn chart_grows_with_every_snapshot(
    s: StoreView,
    date: Option<Seq<char>>,
    rows: Seq<RowView>,
    diff: DiffView,
    time: Seq<char>,
    i: int,
)
    requires
        laws::valid(s),
        insert::snapshot_inserted(s, date, rows, diff, time) is Ok,
        0 <= i < rows.len(),
        history::points_of(s, s.entries, rows[i].team_id, None) is Ok,
        bindings::rfc3339_seconds(time) is Some,
        !score::is_nan(rows[i].score.bits),
    ensures
        ({
            let t = insert::snapshot_inserted(s, date, rows, diff, time)->Ok_0;
            let team = rows[i].team_id;
            let before = history::points_of(s, s.entries, team, None)->Ok_0;
            &&& history::points_of(t, t.entries, team, Some(t.snapshot_seq)) == history::points_of(
                t,
                t.entries,
                team,
                None,
            )
            &&& history::points_of(t, t.entries, team, None) matches Ok(after) && {
                &&& after.len() == before.len() + 1
                &&& after.take(before.len() as int) == before
                &&& after[before.len() as int].rank == rows[i].rank
                &&& bindings::rfc3339_seconds(time) == Some(after[before.len() as int].timestamp)
                &&& record::is_kept(Some(rows[i].score), Some(after[before.len() as int].score))
            }
        }),
{
    let t = insert::snapshot_inserted(s, date, rows, diff, time)->Ok_0;
    let id = t.snapshot_seq;
    let team = rows[i].team_id;
    let a = s.entries.len() as int;
    laws::insertion_keeps_valid(s, date, rows, diff, time);
    laws::insertion_appends(s, date, rows, diff, time);
    laws::insertion_succeeds_iff_it_fits(s, date, rows, diff, time);
    record::snapshot_is_stored_in_full(s, date, rows, diff, time);
    assert(record::is_number_of(t.teams, t.entries[a + i].team_id, team));
    let u = choose|u: int| 0 <= u < t.teams.len() && (#[trigger] t.teams[u]).id
        == t.entries[a + i].team_id;
    assert(t.teams[u].name == team);
    let later = chart_has_every_snapshot_of_the_team(t, u, None);
    lemma_within(t);
    lemma_until_same(t, team, id, t.entries.len() as int);
    assert(t.entries.take(t.entries.len() as int) =~= t.entries);
    let before = history::points_of(s, s.entries, team, None)->Ok_0;
    let earlier = lemma_earlier_places(s, t, team, u);
    let expected = earlier.push(a + i);
    assert(later == expected) by {
        assert forall|e: int| 0 <= e < t.entries.len() implies (#[trigger] expected.contains(e)
            <==> later.contains(e)) by {
            lemma_contains_pushed(earlier, a + i, e);
            if e < a {
                assert(t.entries.take(a)[e] == s.entries[e]);
                assert(earlier.contains(e) <==> s.entries[e].team_id == t.teams[u].id
                    && s.entries[e].present);
            } else {
                if earlier.contains(e) {
                    let k = choose|k: int| 0 <= k < earlier.len() && earlier[k] == e;
                    assert(earlier[k] < a);
                }
                if e < a + rows.len() {
                    let j = e - a;
                    let row = rows[j];
                    assert(record::is_number_of(t.teams, t.entries[a + j].team_id, row.team_id));
                    if t.entries[e].team_id == t.teams[u].id && j != i {
                        assert(t.teams[u].name == row.team_id);
                        if j < i {
                            assert(rows[j].team_id != rows[i].team_id);
                        } else {
                            assert(rows[i].team_id != rows[j].team_id);
                        }
                    }
                } else {
                    let name = diff.dropped_team_ids[e - a - rows.len()];
                    assert(!t.entries[a + rows.len() + (e - a - rows.len())].present);
                }
            }
        }
        assert forall|j: int, k: int| 0 <= j < k < expected.len() implies #[trigger] expected[j]
            < #[trigger] expected[k] by {
            assert(expected[j] == earlier[j]);
            if k < earlier.len() {
                assert(expected[k] == earlier[k]);
            }
        }
        assert forall|k: int| 0 <= k < expected.len() implies 0 <= #[trigger] expected[k]
            < t.entries.len() by {
            if k < earlier.len() {
                assert(expected[k] == earlier[k]);
            }
        }
        lemma_same_places(expected, later, t.entries.len());
    }
    let n = earlier.len() as int;
    assert forall|k: int| 0 <= k < later.len() implies can_be_drawn(t, #[trigger] later[k])
        && (k < n ==> history::point_of(t, t.entries[later[k]]) == Ok::<PointView, StoreError>(
        before[k],
    )) by {
        if k < n {
            let e = earlier[k];
            assert(later[k] == e);
            assert(t.entries.take(a)[e] == s.entries[e]);
            let x = lemma_snapshot_of(s, e);
            assert(t.snapshots.take(s.snapshots.len() as int)[x] == s.snapshots[x]);
            assert(t.snapshots[x] == s.snapshots[x]);
            board::time_is_that_of_the_snapshot(t, x);
            assert(history::point_of(s, s.entries[e]) == Ok::<PointView, StoreError>(before[k]));
            lemma_charted(t, e, u, None);
        } else {
            let x = s.snapshots.len() as int;
            assert(later[k] == a + i);
            board::time_is_that_of_the_snapshot(t, x);
            lemma_charted(t, a + i, u, None);
        }
    }
    let after = history::points_of(t, t.entries, team, None)->Ok_0;
    assert(after.len() == n + 1);
    let point = lemma_points(t, t.entries.len() as int, u, None);
    lemma_same_places(point, later, t.entries.len());
    assert forall|k: int| 0 <= k < n implies after.take(n)[k] == before[k] by {
        assert(history::point_of(t, t.entries[point[k]]) == Ok::<PointView, StoreError>(after[k]));
        assert(later[k] == point[k]);
    }
    assert(after.take(n) =~= before);
    assert(later[n] == a + i);
    assert(t.snapshots[s.snapshots.len() as int].id == t.entries[a + i].snapshot_id);
}

/// No entry is of a later snapshot than the latest.
proof fn lemma_within(t: StoreView)
    requires
        laws::valid(t),
    ensures
        forall|e: int|
            0 <= e < t.entries.len() ==> (#[trigger] t.entries[e]).snapshot_id <= t.snapshot_seq,
{
    assert forall|e: int| 0 <= e < t.entries.len() implies (#[trigger] t.entries[e]).snapshot_id
        <= t.snapshot_seq by {
        let x = lemma_snapshot_of(t, e);
        assert(t.snapshots[x].id <= t.snapshot_seq);
    }
}

proof fn lemma_until_same(t: StoreView, team: Seq<char>, id: i64, n: int)
    requires
        0 <= n <= t.entries.len(),
        forall|e: int| 0 <= e < t.entries.len() ==> (#[trigger] t.entries[e]).snapshot_id <= id,
    ensures
        history::points_of(t, t.entries.take(n), team, Some(id)) == history::points_of(
            t,
            t.entries.take(n),
            team,
            None,
        ),
    decreases n,
{
    if n > 0 {
        lemma_until_same(t, team, id, n - 1);
        assert(t.entries.take(n).drop_last() =~= t.entries.take(n - 1));
        assert(t.entries.take(n).last() == t.entries[n - 1]);
    }
}

/// The entries of a team that is perhaps not known yet.
proof fn lemma_earlier_places(s: StoreView, t: StoreView, team: Seq<char>, u: int) -> (places: Seq<
    int,
>)
    requires
        laws::valid(s),
        laws::valid(t),
        laws::teams_extend(s.teams, t.teams),
        0 <= u < t.teams.len(),
        t.teams[u].name == team,
        history::points_of(s, s.entries, team, None) is Ok,
    ensures
        seqs::are_places(places, s.entries.len()),
        forall|e: int|
            0 <= e < s.entries.len() ==> (#[trigger] places.contains(e) <==> s.entries[e].team_id
                == t.teams[u].id && s.entries[e].present),
        history::points_of(s, s.entries, team, None)->Ok_0.len() == places.len(),
        forall|k: int|
            0 <= k < places.len() ==> history::point_of(s, s.entries[#[trigger] places[k]]) == Ok::<
                PointView,
                StoreError,
            >(history::points_of(s, s.entries, team, None)->Ok_0[k]),
{
    let n = s.entries.len() as int;
    assert(s.entries.take(n) =~= s.entries);
    if u < s.teams.len() {
        assert(t.teams[u].id == s.teams[u].id && t.teams[u].name == s.teams[u].name);
        let places = lemma_points(s, n, u, None);
        assert forall|e: int| 0 <= e < s.entries.len() implies (#[trigger] places.contains(e)
            <==> s.entries[e].team_id == t.teams[u].id && s.entries[e].present) by {
            assert(places.contains(e) <==> is_reached(s, e, u, None));
        }
        places
    } else {
        assert forall|x: int| 0 <= x < s.teams.len() implies (#[trigger] s.teams[x]).name != team by {
            assert(t.teams[x].name == s.teams[x].name);
            assert(t.teams[x].name != t.teams[u].name);
        }
        chart_of_an_unknown_team_is_empty(s, team, None);
        let places = Seq::<int>::empty();
        assert forall|e: int| 0 <= e < s.entries.len() implies (#[trigger] places.contains(e)
            <==> s.entries[e].team_id == t.teams[u].id && s.entries[e].present) by {
            let x = laws::lemma_name_index(s.teams, s.entries[e].team_id);
            assert(t.teams[x].id == s.teams[x].id);
            assert(t.teams[x].id < t.teams[u].id);
        }
        places
    }
}

/// An entry that cannot be drawn says why: its time where that cannot be read, else
/// the value that is missing.
pub proof fn points_fail_for_their_reason(s: StoreView, e: int, x: int)
    requires
        laws::valid(s),
        0 <= e < s.entries.len(),
        0 <= x < s.snapshots.len(),
        s.entries[e].snapshot_id == s.snapshots[x].id,
    ensures
        ({
            let point = history::point_of(s, s.entries[e]);
            let readable = bindings::rfc3339_seconds(s.snapshots[x].fetched_at) is Some;
            let full = s.entries[e].rank is Some && s.entries[e].score is Some;
            &&& point is Ok <==> readable && full
            &&& !readable ==> point == Err::<PointView, StoreError>(StoreError::InvalidTime)
            &&& readable && !full ==> point == Err::<PointView, StoreError>(
                StoreError::MissingValue,
            )
        }),
{
    board::time_is_that_of_the_snapshot(s, x);
}

}
