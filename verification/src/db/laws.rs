//! What holds of the history as a whole.
use crate::bindings;
use crate::db::history;
use crate::db::insert;
use crate::db::read;
use crate::db::{self, EntryView, SnapshotView, StoreError, StoreView, StoredEventView, TeamView};
use crate::diff::{self, DiffView, EventView, PreviousTeamView, PreviousView};
use crate::parse::RowView;
use crate::score;
use crate::seqs;
use vstd::prelude::*;

verus! {

/// Whether the teams are numbered upwards, up to the last number given out, and
/// no name occurs twice.
pub open spec fn teams_valid(teams: Seq<TeamView>, last: i64) -> bool {
    &&& forall|i: int, j: int| 0 <= i < j < teams.len() ==> (#[trigger] teams[i]).id < (#[trigger] teams[j]).id
    &&& forall|i: int| 0 <= i < teams.len() ==> (#[trigger] teams[i]).id <= last
    &&& forall|i: int, j: int|
        0 <= i < j < teams.len() ==> (#[trigger] teams[i]).name != (#[trigger] teams[j]).name
}

/// Whether the snapshots are numbered upwards, up to the last number given out.
pub open spec fn snapshots_valid(snapshots: Seq<SnapshotView>, last: i64) -> bool {
    &&& forall|i: int, j: int|
        0 <= i < j < snapshots.len() ==> (#[trigger] snapshots[i]).id < (#[trigger] snapshots[j]).id
    &&& forall|i: int| 0 <= i < snapshots.len() ==> (#[trigger] snapshots[i]).id <= last
}

/// Whether every entry is of a stored snapshot and of a known team, the entries
/// are in the order of their snapshots, and no snapshot has two entries of a team.
pub open spec fn entries_valid(s: StoreView) -> bool {
    &&& forall|i: int|
        0 <= i < s.entries.len() ==> db::snapshot_ids(s).contains(
            (#[trigger] s.entries[i]).snapshot_id,
        ) && read::name_of(s.teams, s.entries[i].team_id) is Some
    &&& forall|i: int, j: int|
        0 <= i < j < s.entries.len() ==> (#[trigger] s.entries[i]).snapshot_id <= (
        #[trigger] s.entries[j]).snapshot_id
    &&& forall|i: int, j: int|
        0 <= i < j < s.entries.len() && (#[trigger] s.entries[i]).snapshot_id == (
        #[trigger] s.entries[j]).snapshot_id ==> s.entries[i].team_id != s.entries[j].team_id
}

/// Whether the events are numbered upwards, up to the last number given out, and
/// each is of a stored snapshot and of a known team.
pub open spec fn events_valid(s: StoreView) -> bool {
    &&& forall|i: int, j: int|
        0 <= i < j < s.events.len() ==> (#[trigger] s.events[i]).id < (#[trigger] s.events[j]).id
    &&& forall|i: int|
        0 <= i < s.events.len() ==> (#[trigger] s.events[i]).id <= s.event_seq
            && db::snapshot_ids(s).contains(s.events[i].snapshot_id) && read::name_of(
            s.teams,
            s.events[i].team_id,
        ) is Some
}

/// Whether the tables fit together.
pub open spec fn valid(s: StoreView) -> bool {
    &&& teams_valid(s.teams, s.team_seq)
    &&& snapshots_valid(s.snapshots, s.snapshot_seq)
    &&& entries_valid(s)
    &&& events_valid(s)
}

/// Whether `later` has the teams of `earlier` under the same numbers, and
/// perhaps more behind them.
pub open spec fn teams_extend(earlier: Seq<TeamView>, later: Seq<TeamView>) -> bool {
    &&& earlier.len() <= later.len()
    &&& forall|i: int|
        0 <= i < earlier.len() ==> (#[trigger] later[i]).id == earlier[i].id && later[i].name
            == earlier[i].name
}

pub proof fn lemma_name_at(teams: Seq<TeamView>, last: i64, i: int)
    requires
        teams_valid(teams, last),
        0 <= i < teams.len(),
    ensures
        read::name_of(teams, teams[i].id) == Some(teams[i].name),
        insert::id_named(teams, teams[i].name) == Some(teams[i].id),
    decreases teams.len(),
{
    let rest = teams.drop_last();
    if i < teams.len() - 1 {
        assert(teams[i].id < teams[teams.len() - 1].id);
        assert(teams[i].name != teams[teams.len() - 1].name);
        assert(rest[i] == teams[i]);
        lemma_valid_prefix(teams, last, teams.len() - 1);
        assert(teams.take(teams.len() - 1) =~= rest);
        lemma_name_at(rest, last, i);
    }
}

proof fn lemma_valid_prefix(teams: Seq<TeamView>, last: i64, k: int)
    requires
        teams_valid(teams, last),
        0 <= k <= teams.len(),
    ensures
        teams_valid(teams.take(k), last),
{
    let p = teams.take(k);
    assert forall|i: int, j: int| 0 <= i < j < p.len() implies (#[trigger] p[i]).id < (
    #[trigger] p[j]).id && p[i].name != p[j].name by {
        assert(p[i] == teams[i] && p[j] == teams[j]);
    }
    assert forall|i: int| 0 <= i < p.len() implies (#[trigger] p[i]).id <= last by {
        assert(p[i] == teams[i]);
    }
}

pub proof fn lemma_name_index(teams: Seq<TeamView>, id: i64) -> (i: int)
    requires
        read::name_of(teams, id) is Some,
    ensures
        0 <= i < teams.len(),
        teams[i].id == id,
        teams[i].name == read::name_of(teams, id).unwrap(),
    decreases teams.len(),
{
    if teams.last().id == id {
        teams.len() - 1
    } else {
        lemma_name_index(teams.drop_last(), id)
    }
}

pub proof fn lemma_id_index(teams: Seq<TeamView>, name: Seq<char>) -> (i: int)
    requires
        insert::id_named(teams, name) is Some,
    ensures
        0 <= i < teams.len(),
        teams[i].name == name,
        teams[i].id == insert::id_named(teams, name).unwrap(),
    decreases teams.len(),
{
    if teams.last().name == name {
        teams.len() - 1
    } else {
        lemma_id_index(teams.drop_last(), name)
    }
}

proof fn lemma_unnamed(teams: Seq<TeamView>, name: Seq<char>, i: int)
    requires
        insert::id_named(teams, name) is None,
        0 <= i < teams.len(),
    ensures
        teams[i].name != name,
    decreases teams.len(),
{
    if i < teams.len() - 1 {
        lemma_unnamed(teams.drop_last(), name, i);
    }
}

/// More teams change neither a name nor a number that is known.
proof fn lemma_extension_keeps(earlier: Seq<TeamView>, later: Seq<TeamView>, last: i64)
    requires
        teams_valid(later, last),
        teams_extend(earlier, later),
    ensures
        forall|id: i64| #[trigger]
            read::name_of(earlier, id) is Some ==> read::name_of(later, id) == read::name_of(
                earlier,
                id,
            ),
        forall|name: Seq<char>| #[trigger]
            insert::id_named(earlier, name) is Some ==> insert::id_named(later, name)
                == insert::id_named(earlier, name),
{
    assert forall|id: i64| #[trigger] read::name_of(earlier, id) is Some implies read::name_of(
        later,
        id,
    ) == read::name_of(earlier, id) by {
        let i = lemma_name_index(earlier, id);
        assert(later[i].id == earlier[i].id);
        lemma_name_at(later, last, i);
    }
    assert forall|name: Seq<char>| #[trigger] insert::id_named(
        earlier,
        name,
    ) is Some implies insert::id_named(later, name) == insert::id_named(earlier, name) by {
        let i = lemma_id_index(earlier, name);
        assert(later[i].id == earlier[i].id);
        lemma_name_at(later, last, i);
    }
}

/// Recording a team keeps the teams valid and extends them.
proof fn lemma_seen(s: StoreView, name: Seq<char>, time: Seq<char>)
    requires
        teams_valid(s.teams, s.team_seq),
        insert::team_seen(s, name, time) is Ok,
    ensures
        ({
            let t = insert::team_seen(s, name, time)->Ok_0;
            &&& teams_valid(t.teams, t.team_seq)
            &&& teams_extend(s.teams, t.teams)
            &&& t == (StoreView { teams: t.teams, team_seq: t.team_seq, ..s })
            &&& insert::id_named(t.teams, name) matches Some(id) && read::name_of(t.teams, id)
                == Some(name)
        }),
{
    let t = insert::team_seen(s, name, time)->Ok_0;
    if insert::id_named(s.teams, name) is Some {
        assert forall|i: int, j: int| 0 <= i < j < t.teams.len() implies (#[trigger] t.teams[i]).id
            < (#[trigger] t.teams[j]).id && t.teams[i].name != t.teams[j].name by {
            assert(s.teams[i].id < s.teams[j].id);
            assert(s.teams[i].name != s.teams[j].name);
        }
        assert forall|i: int| 0 <= i < t.teams.len() implies (#[trigger] t.teams[i]).id
            <= t.team_seq by {
            assert(s.teams[i].id <= s.team_seq);
        }
        let i = lemma_id_index(s.teams, name);
        assert(t.teams[i].name == name);
        lemma_name_at(t.teams, t.team_seq, i);
    } else {
        let n = s.teams.len() as int;
        assert forall|i: int, j: int| 0 <= i < j < t.teams.len() implies (#[trigger] t.teams[i]).id
            < (#[trigger] t.teams[j]).id && t.teams[i].name != t.teams[j].name by {
            assert(t.teams[i] == s.teams[i]);
            if j < n {
                assert(t.teams[j] == s.teams[j]);
            } else {
                lemma_unnamed(s.teams, name, i);
            }
        }
        assert forall|i: int| 0 <= i < t.teams.len() implies (#[trigger] t.teams[i]).id
            <= t.team_seq by {
            if i < n {
                assert(t.teams[i] == s.teams[i]);
            }
        }
        assert(t.teams[n].name == name);
        lemma_name_at(t.teams, t.team_seq, n);
    }
}

proof fn lemma_extend_transitive(a: Seq<TeamView>, b: Seq<TeamView>, c: Seq<TeamView>)
    requires
        teams_extend(a, b),
        teams_extend(b, c),
    ensures
        teams_extend(a, c),
{
    assert forall|i: int| 0 <= i < a.len() implies (#[trigger] c[i]).id == a[i].id && c[i].name
        == a[i].name by {
        assert(b[i].id == a[i].id);
    }
}

/// The entries of listed teams under the numbers of the teams.
pub open spec fn entries_of_rows(teams: Seq<TeamView>, rows: Seq<RowView>, id: i64) -> Seq<EntryView> {
    rows.map_values(
        |row: RowView|
            insert::listed_entry(row, id, insert::id_named(teams, row.team_id).unwrap()),
    )
}

/// The entries of dropped teams under the numbers of the teams.
pub open spec fn entries_of_drops(teams: Seq<TeamView>, names: Seq<Seq<char>>, id: i64) -> Seq<
    EntryView,
> {
    names.map_values(
        |name: Seq<char>| insert::dropped_entry(id, insert::id_named(teams, name).unwrap()),
    )
}

/// Whether every name is that of a known team.
pub open spec fn names_known(teams: Seq<TeamView>, names: Seq<Seq<char>>) -> bool {
    forall|i: int| 0 <= i < names.len() ==> insert::id_named(teams, #[trigger] names[i]) is Some
}

/// No two of the entries are of one team and one snapshot.
pub open spec fn no_repetition(entries: Seq<EntryView>) -> bool {
    forall|i: int, j: int|
        0 <= i < j < entries.len() && (#[trigger] entries[i]).snapshot_id == (
        #[trigger] entries[j]).snapshot_id ==> entries[i].team_id != entries[j].team_id
}

proof fn lemma_entry_added(s: StoreView, entry: EntryView)
    requires
        no_repetition(s.entries),
        insert::entry_added(s, entry) is Ok,
    ensures
        no_repetition(insert::entry_added(s, entry)->Ok_0.entries),
{
    let t = insert::entry_added(s, entry)->Ok_0.entries;
    let n = s.entries.len() as int;
    assert forall|i: int, j: int|
        0 <= i < j < t.len() && (#[trigger] t[i]).snapshot_id == (#[trigger] t[j]).snapshot_id implies t[i].team_id
        != t[j].team_id by {
        assert(t[i] == s.entries[i]);
        if j < n {
            assert(t[j] == s.entries[j]);
        }
    }
}

/// What adding the rows does to the tables.
proof fn lemma_rows_added(s: StoreView, rows: Seq<RowView>, id: i64, time: Seq<char>)
    requires
        teams_valid(s.teams, s.team_seq),
        no_repetition(s.entries),
        insert::rows_added(s, rows, id, time) is Ok,
    ensures
        ({
            let t = insert::rows_added(s, rows, id, time)->Ok_0;
            &&& teams_valid(t.teams, t.team_seq)
            &&& teams_extend(s.teams, t.teams)
            &&& insert::all_named(t.teams, rows)
            &&& no_repetition(t.entries)
            &&& t.entries == s.entries + entries_of_rows(t.teams, rows, id)
            &&& t == (StoreView { teams: t.teams, team_seq: t.team_seq, entries: t.entries, ..s })
        }),
    decreases rows.len(),
{
    if rows.len() == 0 {
        assert(entries_of_rows(s.teams, rows, id) =~= Seq::<EntryView>::empty());
        assert(s.entries + Seq::<EntryView>::empty() =~= s.entries);
    } else {
        let rest = rows.drop_last();
        let row = rows.last();
        lemma_rows_added(s, rest, id, time);
        let m = insert::rows_added(s, rest, id, time)->Ok_0;
        lemma_seen(m, row.team_id, time);
        let u = insert::team_seen(m, row.team_id, time)->Ok_0;
        let entry = insert::listed_entry(
            row,
            id,
            insert::id_named(u.teams, row.team_id).unwrap(),
        );
        lemma_entry_added(u, entry);
        let t = insert::rows_added(s, rows, id, time)->Ok_0;
        lemma_extend_transitive(s.teams, m.teams, t.teams);
        lemma_extension_keeps(m.teams, t.teams, t.team_seq);
        assert forall|i: int| 0 <= i < rows.len() implies insert::id_named(
            t.teams,
            (#[trigger] rows[i]).team_id,
        ) is Some by {
            if i < rest.len() {
                assert(rest[i] == rows[i]);
                assert(insert::id_named(m.teams, rest[i].team_id) is Some);
            }
        }
        let want = entries_of_rows(t.teams, rows, id);
        let have = entries_of_rows(m.teams, rest, id);
        assert(want =~= have.push(entry)) by {
            assert forall|i: int| 0 <= i < rest.len() implies want[i] == have[i] by {
                assert(rest[i] == rows[i]);
                assert(insert::id_named(m.teams, rest[i].team_id) is Some);
            }
        }
        assert(t.entries =~= s.entries + want);
    }
}

/// What adding the dropped teams does to the tables.
proof fn lemma_drops_added(s: StoreView, names: Seq<Seq<char>>, id: i64, time: Seq<char>)
    requires
        teams_valid(s.teams, s.team_seq),
        no_repetition(s.entries),
        insert::drops_added(s, names, id, time) is Ok,
    ensures
        ({
            let t = insert::drops_added(s, names, id, time)->Ok_0;
            &&& teams_valid(t.teams, t.team_seq)
            &&& teams_extend(s.teams, t.teams)
            &&& names_known(t.teams, names)
            &&& no_repetition(t.entries)
            &&& t.entries == s.entries + entries_of_drops(t.teams, names, id)
            &&& t == (StoreView { teams: t.teams, team_seq: t.team_seq, entries: t.entries, ..s })
        }),
    decreases names.len(),
{
    if names.len() == 0 {
        assert(entries_of_drops(s.teams, names, id) =~= Seq::<EntryView>::empty());
        assert(s.entries + Seq::<EntryView>::empty() =~= s.entries);
    } else {
        let rest = names.drop_last();
        let name = names.last();
        lemma_drops_added(s, rest, id, time);
        let m = insert::drops_added(s, rest, id, time)->Ok_0;
        lemma_seen(m, name, time);
        let u = insert::team_seen(m, name, time)->Ok_0;
        let entry = insert::dropped_entry(id, insert::id_named(u.teams, name).unwrap());
        lemma_entry_added(u, entry);
        let t = insert::drops_added(s, names, id, time)->Ok_0;
        lemma_extend_transitive(s.teams, m.teams, t.teams);
        lemma_extension_keeps(m.teams, t.teams, t.team_seq);
        assert forall|i: int| 0 <= i < names.len() implies insert::id_named(
            t.teams,
            #[trigger] names[i],
        ) is Some by {
            if i < rest.len() {
                assert(rest[i] == names[i]);
                assert(insert::id_named(m.teams, rest[i]) is Some);
            }
        }
        let want = entries_of_drops(t.teams, names, id);
        let have = entries_of_drops(m.teams, rest, id);
        assert(want =~= have.push(entry)) by {
            assert forall|i: int| 0 <= i < rest.len() implies want[i] == have[i] by {
                assert(rest[i] == names[i]);
                assert(insert::id_named(m.teams, rest[i]) is Some);
            }
        }
        assert(t.entries =~= s.entries + want);
    }
}

/// The stored forms of the events, numbered from `first` on.
pub open spec fn stored_events(
    teams: Seq<TeamView>,
    events: Seq<EventView>,
    first: int,
    id: i64,
) -> Seq<StoredEventView> {
    Seq::new(
        events.len(),
        |i: int|
            insert::stored_event(
                events[i],
                (first + i) as i64,
                id,
                insert::id_named(teams, events[i].team_id).unwrap(),
            ),
    )
}

/// Whether the team of every event is known.
pub open spec fn event_teams_known(teams: Seq<TeamView>, events: Seq<EventView>) -> bool {
    forall|i: int|
        0 <= i < events.len() ==> insert::id_named(teams, (#[trigger] events[i]).team_id) is Some
}

/// What adding the events does to the tables.
proof fn lemma_events_added(
    s: StoreView,
    events: Seq<EventView>,
    rows: Seq<RowView>,
    id: i64,
    time: Seq<char>,
)
    requires
        teams_valid(s.teams, s.team_seq),
        insert::all_named(s.teams, rows),
        insert::events_added(s, events, rows, id, time) is Ok,
    ensures
        ({
            let t = insert::events_added(s, events, rows, id, time)->Ok_0;
            &&& teams_valid(t.teams, t.team_seq)
            &&& teams_extend(s.teams, t.teams)
            &&& event_teams_known(t.teams, events)
            &&& t.event_seq == s.event_seq + events.len()
            &&& t.events == s.events + stored_events(t.teams, events, s.event_seq + 1, id)
            &&& t == (StoreView {
                teams: t.teams,
                team_seq: t.team_seq,
                events: t.events,
                event_seq: t.event_seq,
                ..s
            })
        }),
    decreases events.len(),
{
    let first = s.event_seq + 1;
    if events.len() == 0 {
        assert(stored_events(s.teams, events, first, id) =~= Seq::<StoredEventView>::empty());
        assert(s.events + Seq::<StoredEventView>::empty() =~= s.events);
    } else {
        let rest = events.drop_last();
        let event = events.last();
        lemma_events_added(s, rest, rows, id, time);
        let m = insert::events_added(s, rest, rows, id, time)->Ok_0;
        lemma_extension_keeps(s.teams, m.teams, m.team_seq);
        let u = if diff::lists_team(rows, event.team_id) {
            let i = choose|i: int| 0 <= i < rows.len() && #[trigger] rows[i].team_id == event.team_id;
            assert(insert::id_named(s.teams, rows[i].team_id) is Some);
            m
        } else {
            lemma_seen(m, event.team_id, time);
            insert::team_seen(m, event.team_id, time)->Ok_0
        };
        let t = insert::events_added(s, events, rows, id, time)->Ok_0;
        assert(t.teams == u.teams);
        lemma_extend_transitive(s.teams, m.teams, t.teams);
        lemma_extension_keeps(m.teams, t.teams, t.team_seq);
        assert forall|i: int| 0 <= i < events.len() implies insert::id_named(
            t.teams,
            (#[trigger] events[i]).team_id,
        ) is Some by {
            if i < rest.len() {
                assert(rest[i] == events[i]);
                assert(insert::id_named(m.teams, rest[i].team_id) is Some);
            }
        }
        let want = stored_events(t.teams, events, first, id);
        let have = stored_events(m.teams, rest, first, id);
        assert(want =~= have.push(want.last())) by {
            assert forall|i: int| 0 <= i < rest.len() implies want[i] == have[i] by {
                assert(rest[i] == events[i]);
                assert(insert::id_named(m.teams, rest[i].team_id) is Some);
            }
        }
        assert(t.events =~= s.events + want);
    }
}

/// The tables after a snapshot was added, in full: the snapshot under the next
/// number, the entries of the listed teams in the order of the rows, those of
/// the dropped teams, and the events in their order. Everything that was stored
/// before is kept in front; of the known teams only the time of the last
/// occurrence may change.
pub proof fn insertion_appends(
    s: StoreView,
    date: Option<Seq<char>>,
    rows: Seq<RowView>,
    diff: DiffView,
    time: Seq<char>,
)
    requires
        valid(s),
        insert::snapshot_inserted(s, date, rows, diff, time) is Ok,
    ensures
        ({
            let t = insert::snapshot_inserted(s, date, rows, diff, time)->Ok_0;
            let id = t.snapshot_seq;
            &&& id == s.snapshot_seq + 1
            &&& t.snapshots == s.snapshots.push(
                SnapshotView {
                    id,
                    fetched_at: time,
                    source_updated_at: date,
                    content_hash: diff.content_hash,
                    row_count: rows.len() as i64,
                },
            )
            &&& t.entries == s.entries + entries_of_rows(t.teams, rows, id) + entries_of_drops(
                t.teams,
                diff.dropped_team_ids,
                id,
            )
            &&& t.events == s.events + stored_events(t.teams, diff.events, s.event_seq + 1, id)
            &&& t.event_seq == s.event_seq + diff.events.len()
            &&& teams_extend(s.teams, t.teams)
            &&& teams_valid(t.teams, t.team_seq)
            &&& no_repetition(t.entries)
            &&& insert::all_named(t.teams, rows)
            &&& names_known(t.teams, diff.dropped_team_ids)
            &&& event_teams_known(t.teams, diff.events)
        }),
{
    let opened = insert::snapshot_opened(s, date, diff.content_hash, rows.len(), time)->Ok_0;
    let id = opened.snapshot_seq;
    let names = diff.dropped_team_ids;
    lemma_rows_added(opened, rows, id, time);
    let listed = insert::rows_added(opened, rows, id, time)->Ok_0;
    lemma_drops_added(listed, names, id, time);
    let dropped = insert::drops_added(listed, names, id, time)->Ok_0;
    lemma_extension_keeps(listed.teams, dropped.teams, dropped.team_seq);
    assert(insert::all_named(dropped.teams, rows)) by {
        assert forall|i: int| 0 <= i < rows.len() implies insert::id_named(
            dropped.teams,
            (#[trigger] rows[i]).team_id,
        ) is Some by {
            assert(insert::id_named(listed.teams, rows[i].team_id) is Some);
        }
    }
    lemma_events_added(dropped, diff.events, rows, id, time);
    let t = insert::events_added(dropped, diff.events, rows, id, time)->Ok_0;
    lemma_extension_keeps(dropped.teams, t.teams, t.team_seq);
    lemma_extend_transitive(s.teams, listed.teams, dropped.teams);
    lemma_extend_transitive(s.teams, dropped.teams, t.teams);
    assert(insert::all_named(t.teams, rows)) by {
        assert forall|i: int| 0 <= i < rows.len() implies insert::id_named(
            t.teams,
            (#[trigger] rows[i]).team_id,
        ) is Some by {
            assert(insert::id_named(dropped.teams, rows[i].team_id) is Some);
        }
    }
    assert(names_known(t.teams, names)) by {
        assert forall|i: int| 0 <= i < names.len() implies insert::id_named(
            t.teams,
            #[trigger] names[i],
        ) is Some by {
            assert(insert::id_named(dropped.teams, names[i]) is Some);
        }
    }
    assert(entries_of_rows(t.teams, rows, id) =~= entries_of_rows(listed.teams, rows, id)) by {
        assert forall|i: int| 0 <= i < rows.len() implies insert::id_named(
            t.teams,
            (#[trigger] rows[i]).team_id,
        ) == insert::id_named(listed.teams, rows[i].team_id) by {
            assert(insert::id_named(listed.teams, rows[i].team_id) is Some);
            assert(insert::id_named(dropped.teams, rows[i].team_id) is Some);
        }
    }
    assert(entries_of_drops(t.teams, names, id) =~= entries_of_drops(dropped.teams, names, id)) by {
        assert forall|i: int| 0 <= i < names.len() implies insert::id_named(
            t.teams,
            #[trigger] names[i],
        ) == insert::id_named(dropped.teams, names[i]) by {
            assert(insert::id_named(dropped.teams, names[i]) is Some);
        }
    }
}

/// Adding a snapshot keeps the tables fitting together.
pub proof fn insertion_keeps_valid(
    s: StoreView,
    date: Option<Seq<char>>,
    rows: Seq<RowView>,
    diff: DiffView,
    time: Seq<char>,
)
    requires
        valid(s),
        insert::snapshot_inserted(s, date, rows, diff, time) is Ok,
    ensures
        valid(insert::snapshot_inserted(s, date, rows, diff, time)->Ok_0),
{
    insertion_appends(s, date, rows, diff, time);
    let t = insert::snapshot_inserted(s, date, rows, diff, time)->Ok_0;
    let id = t.snapshot_seq;
    let n = s.snapshots.len() as int;
    assert forall|i: int, j: int| 0 <= i < j < t.snapshots.len() implies (#[trigger] t.snapshots[i]).id
        < (#[trigger] t.snapshots[j]).id by {
        assert(t.snapshots[i] == s.snapshots[i]);
        if j < n {
            assert(t.snapshots[j] == s.snapshots[j]);
        }
    }
    assert forall|i: int| 0 <= i < t.snapshots.len() implies (#[trigger] t.snapshots[i]).id
        <= t.snapshot_seq by {
        if i < n {
            assert(t.snapshots[i] == s.snapshots[i]);
        }
    }
    assert(t.snapshots.drop_last() =~= s.snapshots);
    lemma_ids_pushed(s, t);
    lemma_extension_keeps(s.teams, t.teams, t.team_seq);
    let new = entries_of_rows(t.teams, rows, id) + entries_of_drops(
        t.teams,
        diff.dropped_team_ids,
        id,
    );
    assert(t.entries =~= s.entries + new);
    let m = s.entries.len() as int;
    assert forall|i: int| 0 <= i < t.entries.len() implies db::snapshot_ids(t).contains(
        (#[trigger] t.entries[i]).snapshot_id,
    ) && read::name_of(t.teams, t.entries[i].team_id) is Some by {
        if i < m {
            assert(t.entries[i] == s.entries[i]);
        } else {
            assert(t.entries[i] == new[i - m]);
            lemma_new_entry(t, rows, diff.dropped_team_ids, i - m);
        }
    }
    assert forall|i: int, j: int| 0 <= i < j < t.entries.len() implies (#[trigger] t.entries[i]).snapshot_id
        <= (#[trigger] t.entries[j]).snapshot_id by {
        if i >= m {
            assert(t.entries[i] == new[i - m]);
            lemma_new_entry(t, rows, diff.dropped_team_ids, i - m);
        } else {
            assert(t.entries[i] == s.entries[i]);
            lemma_id_bound(s, s.entries[i].snapshot_id);
        }
        if j >= m {
            assert(t.entries[j] == new[j - m]);
            lemma_new_entry(t, rows, diff.dropped_team_ids, j - m);
        } else {
            assert(t.entries[j] == s.entries[j]);
        }
    }
    let added = stored_events(t.teams, diff.events, s.event_seq + 1, id);
    let k = s.events.len() as int;
    assert forall|i: int| 0 <= i < t.events.len() implies (#[trigger] t.events[i]).id <= t.event_seq
        && db::snapshot_ids(t).contains(t.events[i].snapshot_id) && read::name_of(
        t.teams,
        t.events[i].team_id,
    ) is Some by {
        if i < k {
            assert(t.events[i] == s.events[i]);
        } else {
            assert(t.events[i] == added[i - k]);
            let e = diff.events[i - k];
            assert(insert::id_named(t.teams, e.team_id) is Some);
            let at = lemma_id_index(t.teams, e.team_id);
            lemma_name_at(t.teams, t.team_seq, at);
        }
    }
    assert forall|i: int, j: int| 0 <= i < j < t.events.len() implies (#[trigger] t.events[i]).id
        < (#[trigger] t.events[j]).id by {
        if i < k {
            assert(t.events[i] == s.events[i]);
        } else {
            assert(t.events[i] == added[i - k]);
        }
        if j < k {
            assert(t.events[j] == s.events[j]);
        } else {
            assert(t.events[j] == added[j - k]);
        }
    }
}

/// The numbers of the snapshots after one more snapshot.
proof fn lemma_ids_pushed(s: StoreView, t: StoreView)
    requires
        t.snapshots.len() == s.snapshots.len() + 1,
        t.snapshots.drop_last() == s.snapshots,
    ensures
        db::snapshot_ids(t) == db::snapshot_ids(s).push(t.snapshots.last().id),
        forall|id: i64| #[trigger]
            db::snapshot_ids(s).contains(id) ==> db::snapshot_ids(t).contains(id),
        db::snapshot_ids(t).contains(t.snapshots.last().id),
{
    let before = db::snapshot_ids(s);
    let after = db::snapshot_ids(t);
    assert forall|i: int| 0 <= i < before.len() implies after[i] == before[i] by {
        assert(t.snapshots.drop_last()[i] == t.snapshots[i]);
    }
    assert(after =~= before.push(t.snapshots.last().id));
    assert forall|id: i64| #[trigger] before.contains(id) implies after.contains(id) by {
        let i = choose|i: int| 0 <= i < before.len() && before[i] == id;
        assert(after[i] == id);
    }
    assert(after[before.len() as int] == t.snapshots.last().id);
}

proof fn lemma_id_bound(s: StoreView, id: i64)
    requires
        snapshots_valid(s.snapshots, s.snapshot_seq),
        db::snapshot_ids(s).contains(id),
    ensures
        id <= s.snapshot_seq,
{
    let i = choose|i: int| 0 <= i < db::snapshot_ids(s).len() && db::snapshot_ids(s)[i] == id;
    assert(s.snapshots[i].id == id);
}

/// An entry that was just added is of the newest snapshot and of a known team.
proof fn lemma_new_entry(t: StoreView, rows: Seq<RowView>, names: Seq<Seq<char>>, i: int)
    requires
        teams_valid(t.teams, t.team_seq),
        insert::all_named(t.teams, rows),
        names_known(t.teams, names),
        0 <= i < rows.len() + names.len(),
    ensures
        ({
            let id = t.snapshot_seq;
            let e = (entries_of_rows(t.teams, rows, id) + entries_of_drops(t.teams, names, id))[i];
            let name = if i < rows.len() {
                rows[i].team_id
            } else {
                names[i - rows.len()]
            };
            &&& e.snapshot_id == id
            &&& insert::id_named(t.teams, name) == Some(e.team_id)
            &&& read::name_of(t.teams, e.team_id) == Some(name)
        }),
{
    let id = t.snapshot_seq;
    let name = if i < rows.len() {
        assert(insert::id_named(t.teams, rows[i].team_id) is Some);
        assert((entries_of_rows(t.teams, rows, id) + entries_of_drops(t.teams, names, id))[i]
            == entries_of_rows(t.teams, rows, id)[i]);
        rows[i].team_id
    } else {
        let k = i - rows.len();
        assert(insert::id_named(t.teams, names[k]) is Some);
        assert((entries_of_rows(t.teams, rows, id) + entries_of_drops(t.teams, names, id))[i]
            == entries_of_drops(t.teams, names, id)[k]);
        names[k]
    };
    let at = lemma_id_index(t.teams, name);
    lemma_name_at(t.teams, t.team_seq, at);
}

/// What is recorded of a listed team.
pub open spec fn recorded_row(row: RowView) -> PreviousTeamView {
    PreviousTeamView {
        team_id: row.team_id,
        entry: PreviousView {
            rank: Some(row.rank),
            score: insert::kept_score(row.score),
            version: Some(row.version),
            present: true,
        },
    }
}

/// What is recorded of a dropped team.
pub open spec fn recorded_drop(name: Seq<char>) -> PreviousTeamView {
    PreviousTeamView {
        team_id: name,
        entry: PreviousView { rank: None, score: None, version: None, present: false },
    }
}

/// What a snapshot records: its rows, then the teams that were dropped.
pub open spec fn recorded(rows: Seq<RowView>, dropped: Seq<Seq<char>>) -> Seq<PreviousTeamView> {
    rows.map_values(|row: RowView| recorded_row(row)) + dropped.map_values(
        |name: Seq<char>| recorded_drop(name),
    )
}

/// The latest snapshot is the one that was added last.
pub proof fn inserted_snapshot_is_latest(
    s: StoreView,
    date: Option<Seq<char>>,
    rows: Seq<RowView>,
    diff: DiffView,
    time: Seq<char>,
)
    requires
        valid(s),
        insert::snapshot_inserted(s, date, rows, diff, time) is Ok,
    ensures
        db::greatest(
            db::snapshot_ids(insert::snapshot_inserted(s, date, rows, diff, time)->Ok_0),
        ) == Some((s.snapshot_seq + 1) as i64),
{
    insertion_appends(s, date, rows, diff, time);
    let t = insert::snapshot_inserted(s, date, rows, diff, time)->Ok_0;
    assert(t.snapshots.drop_last() =~= s.snapshots);
    lemma_ids_pushed(s, t);
    let before = db::snapshot_ids(s);
    let after = db::snapshot_ids(t);
    assert(after.drop_last() =~= before);
    db::greatest_below_is_greatest(before, i64::MAX + 1);
    if let Some(best) = db::greatest(before) {
        lemma_id_bound(s, best);
    }
}

/// What is read after a snapshot was added is what was added: the rows in their
/// order, each present with its values, then the dropped teams without values.
pub proof fn read_gives_back_insertion(
    s: StoreView,
    date: Option<Seq<char>>,
    rows: Seq<RowView>,
    diff: DiffView,
    time: Seq<char>,
)
    requires
        valid(s),
        insert::snapshot_inserted(s, date, rows, diff, time) is Ok,
    ensures
        read::previous_rows_of(insert::snapshot_inserted(s, date, rows, diff, time)->Ok_0)
            == recorded(rows, diff.dropped_team_ids),
{
    insertion_appends(s, date, rows, diff, time);
    inserted_snapshot_is_latest(s, date, rows, diff, time);
    let t = insert::snapshot_inserted(s, date, rows, diff, time)->Ok_0;
    let id = t.snapshot_seq;
    let names = diff.dropped_team_ids;
    let f = |e: EntryView| read::recorded_team(t.teams, e, id);
    let new = entries_of_rows(t.teams, rows, id) + entries_of_drops(t.teams, names, id);
    assert(t.entries =~= s.entries + new);
    seqs::lemma_filter_map_add(s.entries, new, f);
    assert forall|i: int| 0 <= i < s.entries.len() implies f(#[trigger] s.entries[i]) is None by {
        lemma_id_bound(s, s.entries[i].snapshot_id);
    }
    seqs::lemma_filter_map_none(s.entries, f);
    let want = recorded(rows, names);
    assert forall|i: int| 0 <= i < new.len() implies f(#[trigger] new[i]) == Some(want[i]) by {
        lemma_new_entry(t, rows, names, i);
    }
    seqs::lemma_filter_map_some(new, f, want);
    assert(Seq::<PreviousTeamView>::empty() + want =~= want);
}

/// No team is listed twice.
pub open spec fn teams_distinct(rows: Seq<RowView>) -> bool {
    forall|i: int, j: int|
        0 <= i < j < rows.len() ==> (#[trigger] rows[i]).team_id != (#[trigger] rows[j]).team_id
}

/// A snapshot that was added lists no team twice.
pub proof fn inserted_teams_are_distinct(
    s: StoreView,
    date: Option<Seq<char>>,
    rows: Seq<RowView>,
    diff: DiffView,
    time: Seq<char>,
)
    requires
        valid(s),
        insert::snapshot_inserted(s, date, rows, diff, time) is Ok,
    ensures
        teams_distinct(rows),
{
    insertion_appends(s, date, rows, diff, time);
    let t = insert::snapshot_inserted(s, date, rows, diff, time)->Ok_0;
    let id = t.snapshot_seq;
    let names = diff.dropped_team_ids;
    let new = entries_of_rows(t.teams, rows, id) + entries_of_drops(t.teams, names, id);
    let m = s.entries.len() as int;
    assert(t.entries =~= s.entries + new);
    assert forall|i: int, j: int| 0 <= i < j < rows.len() implies (#[trigger] rows[i]).team_id != (
    #[trigger] rows[j]).team_id by {
        lemma_new_entry(t, rows, names, i);
        lemma_new_entry(t, rows, names, j);
        assert(t.entries[m + i] == new[i]);
        assert(t.entries[m + j] == new[j]);
    }
}

/// What is recorded of the i-th row is found under its team.
proof fn lemma_recorded_entry(rows: Seq<RowView>, rest: Seq<PreviousTeamView>, i: int)
    requires
        teams_distinct(rows),
        0 <= i < rows.len(),
    ensures
        diff::entry_of(
            rows.map_values(|row: RowView| recorded_row(row)) + rest,
            rows[i].team_id,
        ) == Some(recorded_row(rows[i]).entry),
    decreases i,
{
    let all = rows.map_values(|row: RowView| recorded_row(row)) + rest;
    assert(all[0] == recorded_row(rows[0]));
    if i > 0 {
        assert(rows[0].team_id != rows[i].team_id);
        let tail = rows.drop_first();
        assert forall|a: int, b: int| 0 <= a < b < tail.len() implies (#[trigger] tail[a]).team_id
            != (#[trigger] tail[b]).team_id by {
            assert(rows[a + 1].team_id != rows[b + 1].team_id);
        }
        assert(all.drop_first() =~= tail.map_values(|row: RowView| recorded_row(row)) + rest);
        lemma_recorded_entry(tail, rest, i - 1);
        assert(tail[i - 1] == rows[i]);
    }
}

/// A leaderboard that is the same as the one recorded last gives no events,
/// whatever its date, as long as its scores are numbers.
pub proof fn same_leaderboard_is_quiet(
    rows: Seq<RowView>,
    dropped: Seq<Seq<char>>,
    date: Option<Seq<char>>,
)
    requires
        rows.len() > 0,
        teams_distinct(rows),
        forall|i: int| 0 <= i < rows.len() ==> !score::is_nan((#[trigger] rows[i]).score.bits),
    ensures
        !diff::diff_of(recorded(rows, dropped), rows, date).changed,
        diff::diff_of(recorded(rows, dropped), rows, date).events.len() == 0,
{
    let previous = recorded(rows, dropped);
    let event_of = |row: RowView| diff::row_event(previous, row);
    assert forall|i: int| 0 <= i < rows.len() implies event_of(#[trigger] rows[i]) is None by {
        lemma_recorded_entry(rows, dropped.map_values(|name: Seq<char>| recorded_drop(name)), i);
        assert(!score::is_nan(rows[i].score.bits));
    }
    seqs::lemma_filter_map_none(rows, event_of);
    let gone = |team: PreviousTeamView| diff::is_dropped(rows, team);
    assert forall|i: int| 0 <= i < previous.len() implies !gone(#[trigger] previous[i]) by {
        if i < rows.len() {
            assert(previous[i] == recorded_row(rows[i]));
            assert(rows[i].team_id == previous[i].team_id);
        } else {
            assert(previous[i] == recorded_drop(dropped[i - rows.len()]));
        }
    }
    lemma_nothing_kept(previous, gone);
}

proof fn lemma_nothing_kept<A>(a: Seq<A>, f: spec_fn(A) -> bool)
    requires
        forall|i: int| 0 <= i < a.len() ==> !f(#[trigger] a[i]),
    ensures
        a.filter(f) == Seq::<A>::empty(),
    decreases a.len(),
{
    reveal(Seq::filter);
    if a.len() > 0 {
        assert(!f(a[a.len() - 1]));
        assert forall|i: int| 0 <= i < a.drop_last().len() implies !f(
            #[trigger] a.drop_last()[i],
        ) by {
            assert(a.drop_last()[i] == a[i]);
        }
        lemma_nothing_kept(a.drop_last(), f);
    }
}

/// Fetching the leaderboard that was added last changes nothing: it is compared
/// with what is read back, and no difference is found.
pub proof fn insertion_is_stable(
    s: StoreView,
    date: Option<Seq<char>>,
    rows: Seq<RowView>,
    diff: DiffView,
    time: Seq<char>,
    later_date: Option<Seq<char>>,
)
    requires
        valid(s),
        insert::snapshot_inserted(s, date, rows, diff, time) is Ok,
        rows.len() > 0,
        forall|i: int| 0 <= i < rows.len() ==> !score::is_nan((#[trigger] rows[i]).score.bits),
    ensures
        !diff::diff_of(
            read::previous_rows_of(insert::snapshot_inserted(s, date, rows, diff, time)->Ok_0),
            rows,
            later_date,
        ).changed,
{
    read_gives_back_insertion(s, date, rows, diff, time);
    inserted_teams_are_distinct(s, date, rows, diff, time);
    same_leaderboard_is_quiet(rows, diff.dropped_team_ids, later_date);
}

/// The teams that are present in the added snapshot are the rows.
pub proof fn inserted_teams_are_listed(
    s: StoreView,
    date: Option<Seq<char>>,
    rows: Seq<RowView>,
    diff: DiffView,
    time: Seq<char>,
)
    requires
        valid(s),
        insert::snapshot_inserted(s, date, rows, diff, time) is Ok,
    ensures
        ({
            let t = insert::snapshot_inserted(s, date, rows, diff, time)->Ok_0;
            read::listed_teams(t, t.snapshot_seq) == rows.map_values(
                |row: RowView|
                    read::ListedView {
                        name: row.team_id,
                        rank: Some(row.rank),
                        score: insert::kept_score(row.score),
                        version: Some(row.version),
                    },
            )
        }),
{
    insertion_appends(s, date, rows, diff, time);
    let t = insert::snapshot_inserted(s, date, rows, diff, time)->Ok_0;
    let id = t.snapshot_seq;
    let names = diff.dropped_team_ids;
    let f = |e: EntryView| read::listed_team(t.teams, e, id);
    let of_rows = entries_of_rows(t.teams, rows, id);
    let of_drops = entries_of_drops(t.teams, names, id);
    seqs::lemma_filter_map_add(s.entries + of_rows, of_drops, f);
    seqs::lemma_filter_map_add(s.entries, of_rows, f);
    assert forall|i: int| 0 <= i < s.entries.len() implies f(#[trigger] s.entries[i]) is None by {
        lemma_id_bound(s, s.entries[i].snapshot_id);
    }
    seqs::lemma_filter_map_none(s.entries, f);
    seqs::lemma_filter_map_none(of_drops, f);
    let want = rows.map_values(
        |row: RowView|
            read::ListedView {
                name: row.team_id,
                rank: Some(row.rank),
                score: insert::kept_score(row.score),
                version: Some(row.version),
            },
    );
    assert forall|i: int| 0 <= i < of_rows.len() implies f(#[trigger] of_rows[i]) == Some(
        want[i],
    ) by {
        lemma_new_entry(t, rows, names, i);
        assert((of_rows + of_drops)[i] == of_rows[i]);
    }
    seqs::lemma_filter_map_some(of_rows, f, want);
    assert(Seq::<read::ListedView>::empty() + want + Seq::<read::ListedView>::empty() =~= want);
}

proof fn lemma_fetched_at_kept(snapshots: Seq<SnapshotView>, added: SnapshotView, id: i64)
    requires
        id != added.id,
    ensures
        read::fetched_at_of(snapshots.push(added), id) == read::fetched_at_of(snapshots, id),
{
    assert(snapshots.push(added).drop_last() =~= snapshots);
}

/// What was stored of an earlier snapshot is read as before: its teams, its
/// place behind the snapshot before it, and its time.
proof fn lemma_earlier_kept(
    s: StoreView,
    date: Option<Seq<char>>,
    rows: Seq<RowView>,
    diff: DiffView,
    time: Seq<char>,
    id: i64,
)
    requires
        valid(s),
        insert::snapshot_inserted(s, date, rows, diff, time) is Ok,
        id <= s.snapshot_seq,
    ensures
        ({
            let t = insert::snapshot_inserted(s, date, rows, diff, time)->Ok_0;
            &&& read::listed_teams(t, id) == read::listed_teams(s, id)
            &&& read::recorded_teams(t, id) == read::recorded_teams(s, id)
            &&& read::fetched_at_of(t.snapshots, id) == read::fetched_at_of(s.snapshots, id)
            &&& db::greatest_below(db::snapshot_ids(t), id as int) == db::greatest_below(
                db::snapshot_ids(s),
                id as int,
            )
        }),
{
    insertion_appends(s, date, rows, diff, time);
    let t = insert::snapshot_inserted(s, date, rows, diff, time)->Ok_0;
    let names = diff.dropped_team_ids;
    let new = entries_of_rows(t.teams, rows, t.snapshot_seq) + entries_of_drops(
        t.teams,
        names,
        t.snapshot_seq,
    );
    assert(t.entries =~= s.entries + new);
    lemma_extension_keeps(s.teams, t.teams, t.team_seq);
    let f = |e: EntryView| read::listed_team(t.teams, e, id);
    let g = |e: EntryView| read::listed_team(s.teams, e, id);
    let p = |e: EntryView| read::recorded_team(t.teams, e, id);
    let q = |e: EntryView| read::recorded_team(s.teams, e, id);
    seqs::lemma_filter_map_add(s.entries, new, f);
    seqs::lemma_filter_map_add(s.entries, new, p);
    assert forall|i: int| 0 <= i < new.len() implies f(#[trigger] new[i]) is None && p(
        new[i],
    ) is None by {
        lemma_new_entry(t, rows, names, i);
    }
    seqs::lemma_filter_map_none(new, f);
    seqs::lemma_filter_map_none(new, p);
    assert forall|i: int| 0 <= i < s.entries.len() implies f(#[trigger] s.entries[i]) == g(
        s.entries[i],
    ) && p(s.entries[i]) == q(s.entries[i]) by {
        assert(read::name_of(s.teams, s.entries[i].team_id) is Some);
    }
    seqs::lemma_filter_map_same(s.entries, f, g);
    seqs::lemma_filter_map_same(s.entries, p, q);
    assert(read::listed_teams(t, id) =~= read::listed_teams(s, id));
    assert(read::recorded_teams(t, id) =~= read::recorded_teams(s, id));
    lemma_fetched_at_kept(s.snapshots, t.snapshots.last(), id);
    assert(t.snapshots.drop_last() =~= s.snapshots);
    lemma_ids_pushed(s, t);
    assert(db::snapshot_ids(t).drop_last() =~= db::snapshot_ids(s));
}

/// Adding a snapshot leaves the leaderboards of the earlier snapshots as they
/// were.
pub proof fn earlier_leaderboards_are_kept(
    s: StoreView,
    date: Option<Seq<char>>,
    rows: Seq<RowView>,
    diff: DiffView,
    time: Seq<char>,
    id: i64,
    board: Seq<read::BoardRowView>,
)
    requires
        valid(s),
        insert::snapshot_inserted(s, date, rows, diff, time) is Ok,
        db::snapshot_ids(s).contains(id),
    ensures
        ({
            let t = insert::snapshot_inserted(s, date, rows, diff, time)->Ok_0;
            &&& read::board_complete(t, Some(id)) == read::board_complete(s, Some(id))
            &&& read::is_leaderboard(t, Some(id), board) == read::is_leaderboard(s, Some(id), board)
        }),
{
    insertion_appends(s, date, rows, diff, time);
    let t = insert::snapshot_inserted(s, date, rows, diff, time)->Ok_0;
    assert(t.snapshots.drop_last() =~= s.snapshots);
    lemma_ids_pushed(s, t);
    lemma_id_bound(s, id);
    lemma_earlier_kept(s, date, rows, diff, time, id);
    db::greatest_below_is_greatest(db::snapshot_ids(s), id as int);
    if let Some(previous) = db::greatest_below(db::snapshot_ids(s), id as int) {
        lemma_id_bound(s, previous);
        lemma_earlier_kept(s, date, rows, diff, time, previous);
    }
}

/// Adding a snapshot leaves the events of the earlier snapshots as they were.
pub proof fn earlier_events_are_kept(
    s: StoreView,
    date: Option<Seq<char>>,
    rows: Seq<RowView>,
    diff: DiffView,
    time: Seq<char>,
    id: i64,
    team: Option<Seq<char>>,
)
    requires
        valid(s),
        insert::snapshot_inserted(s, date, rows, diff, time) is Ok,
        id <= s.snapshot_seq,
    ensures
        history::shown_events(
            insert::snapshot_inserted(s, date, rows, diff, time)->Ok_0,
            Some(id),
            team,
        ) == history::shown_events(s, Some(id), team),
{
    insertion_appends(s, date, rows, diff, time);
    let t = insert::snapshot_inserted(s, date, rows, diff, time)->Ok_0;
    let new = stored_events(t.teams, diff.events, s.event_seq + 1, t.snapshot_seq);
    lemma_extension_keeps(s.teams, t.teams, t.team_seq);
    let f = |e: StoredEventView| history::shown_event(t, e, Some(id), team);
    let g = |e: StoredEventView| history::shown_event(s, e, Some(id), team);
    seqs::lemma_filter_map_add(s.events, new, f);
    seqs::lemma_filter_map_none(new, f);
    assert forall|i: int| 0 <= i < s.events.len() implies f(#[trigger] s.events[i]) == g(
        s.events[i],
    ) by {
        let e = s.events[i];
        assert(read::name_of(s.teams, e.team_id) is Some);
        lemma_id_bound(s, e.snapshot_id);
        lemma_fetched_at_kept(s.snapshots, t.snapshots.last(), e.snapshot_id);
    }
    seqs::lemma_filter_map_same(s.events, f, g);
    assert(s.events.filter_map(g) + Seq::<history::ShownEventView>::empty() =~= s.events.filter_map(
        g,
    ));
}

/// The events of the added snapshot are the events of the comparison, the last
/// one first.
pub proof fn inserted_events_are_shown(
    s: StoreView,
    date: Option<Seq<char>>,
    rows: Seq<RowView>,
    diff: DiffView,
    time: Seq<char>,
)
    requires
        valid(s),
        insert::snapshot_inserted(s, date, rows, diff, time) is Ok,
    ensures
        ({
            let t = insert::snapshot_inserted(s, date, rows, diff, time)->Ok_0;
            history::shown_events(t, Some(t.snapshot_seq), None) == diff.events.map_values(
                |e: EventView|
                    history::ShownEventView {
                        fetched_at: time,
                        team_id: e.team_id,
                        event_type: diff::event_name(e.event_type),
                        old_rank: e.old_rank,
                        new_rank: e.new_rank,
                        old_score: insert::kept(e.old_score),
                        new_score: insert::kept(e.new_score),
                        old_version: e.old_version,
                        new_version: e.new_version,
                    },
            ).reverse()
        }),
{
    insertion_appends(s, date, rows, diff, time);
    let t = insert::snapshot_inserted(s, date, rows, diff, time)->Ok_0;
    let id = t.snapshot_seq;
    let new = stored_events(t.teams, diff.events, s.event_seq + 1, id);
    let f = |e: StoredEventView| history::shown_event(t, e, Some(id), None);
    seqs::lemma_filter_map_add(s.events, new, f);
    assert forall|i: int| 0 <= i < s.events.len() implies f(#[trigger] s.events[i]) is None by {
        lemma_id_bound(s, s.events[i].snapshot_id);
    }
    seqs::lemma_filter_map_none(s.events, f);
    let want = diff.events.map_values(
        |e: EventView|
            history::ShownEventView {
                fetched_at: time,
                team_id: e.team_id,
                event_type: diff::event_name(e.event_type),
                old_rank: e.old_rank,
                new_rank: e.new_rank,
                old_score: insert::kept(e.old_score),
                new_score: insert::kept(e.new_score),
                old_version: e.old_version,
                new_version: e.new_version,
            },
    );
    assert forall|i: int| 0 <= i < new.len() implies f(#[trigger] new[i]) == Some(want[i]) by {
        let e = diff.events[i];
        assert(insert::id_named(t.teams, e.team_id) is Some);
        let at = lemma_id_index(t.teams, e.team_id);
        lemma_name_at(t.teams, t.team_seq, at);
        assert(t.snapshots.last().id == id);
    }
    seqs::lemma_filter_map_some(new, f, want);
    assert(Seq::<history::ShownEventView>::empty() + want =~= want);
}

/// Adding a snapshot leaves the charts up to an earlier snapshot as they were.
pub proof fn earlier_charts_are_kept(
    s: StoreView,
    date: Option<Seq<char>>,
    rows: Seq<RowView>,
    diff: DiffView,
    time: Seq<char>,
    id: i64,
    team: Seq<char>,
)
    requires
        valid(s),
        insert::snapshot_inserted(s, date, rows, diff, time) is Ok,
        id <= s.snapshot_seq,
    ensures
        ({
            let t = insert::snapshot_inserted(s, date, rows, diff, time)->Ok_0;
            history::points_of(t, t.entries, team, Some(id)) == history::points_of(
                s,
                s.entries,
                team,
                Some(id),
            )
        }),
{
    insertion_appends(s, date, rows, diff, time);
    let t = insert::snapshot_inserted(s, date, rows, diff, time)->Ok_0;
    let names = diff.dropped_team_ids;
    let new = entries_of_rows(t.teams, rows, t.snapshot_seq) + entries_of_drops(
        t.teams,
        names,
        t.snapshot_seq,
    );
    assert(t.entries =~= s.entries + new);
    lemma_extension_keeps(s.teams, t.teams, t.team_seq);
    assert forall|i: int| 0 <= i < s.entries.len() implies history::charted(
        t,
        #[trigger] s.entries[i],
        team,
        Some(id),
    ) == history::charted(s, s.entries[i], team, Some(id)) && history::point_of(t, s.entries[i])
        == history::point_of(s, s.entries[i]) by {
        let e = s.entries[i];
        assert(read::name_of(s.teams, e.team_id) is Some);
        lemma_id_bound(s, e.snapshot_id);
        lemma_fetched_at_kept(s.snapshots, t.snapshots.last(), e.snapshot_id);
    }
    lemma_points_same(t, s, s.entries, team, Some(id));
    assert forall|i: int| 0 <= i < new.len() implies !history::charted(
        t,
        #[trigger] new[i],
        team,
        Some(id),
    ) by {
        lemma_new_entry(t, rows, names, i);
    }
    lemma_points_skip(t, s.entries, new, team, Some(id));
}

proof fn lemma_points_same(
    t: StoreView,
    s: StoreView,
    entries: Seq<EntryView>,
    team: Seq<char>,
    until: Option<i64>,
)
    requires
        forall|i: int|
            0 <= i < entries.len() ==> history::charted(t, #[trigger] entries[i], team, until)
                == history::charted(s, entries[i], team, until) && history::point_of(t, entries[i])
                == history::point_of(s, entries[i]),
    ensures
        history::points_of(t, entries, team, until) == history::points_of(s, entries, team, until),
    decreases entries.len(),
{
    if entries.len() > 0 {
        let rest = entries.drop_last();
        assert forall|i: int| 0 <= i < rest.len() implies history::charted(
            t,
            #[trigger] rest[i],
            team,
            until,
        ) == history::charted(s, rest[i], team, until) && history::point_of(t, rest[i])
            == history::point_of(s, rest[i]) by {
            assert(rest[i] == entries[i]);
        }
        lemma_points_same(t, s, rest, team, until);
        assert(entries[entries.len() - 1] == entries.last());
    }
}

proof fn lemma_points_skip(
    t: StoreView,
    entries: Seq<EntryView>,
    new: Seq<EntryView>,
    team: Seq<char>,
    until: Option<i64>,
)
    requires
        forall|i: int| 0 <= i < new.len() ==> !history::charted(t, #[trigger] new[i], team, until),
    ensures
        history::points_of(t, entries + new, team, until) == history::points_of(
            t,
            entries,
            team,
            until,
        ),
    decreases new.len(),
{
    if new.len() == 0 {
        assert(entries + new =~= entries);
    } else {
        assert((entries + new).drop_last() =~= entries + new.drop_last());
        assert((entries + new).last() == new[new.len() - 1]);
        assert forall|i: int| 0 <= i < new.drop_last().len() implies !history::charted(
            t,
            #[trigger] new.drop_last()[i],
            team,
            until,
        ) by {
            assert(new.drop_last()[i] == new[i]);
        }
        lemma_points_skip(t, entries, new.drop_last(), team, until);
    }
}

/// The snapshots form a chain: of a stored snapshot, the one after the one
/// before is the snapshot itself, and the one before the one after as well.
pub proof fn navigation_is_a_chain(s: StoreView, id: i64)
    requires
        db::snapshot_ids(s).contains(id),
    ensures
        db::meta_of(s, Some(id)).current_snapshot_id == Some(id),
        db::meta_of(s, Some(id)).previous_snapshot_id matches Some(previous) ==> db::meta_of(
            s,
            Some(previous),
        ).next_snapshot_id == Some(id),
        db::meta_of(s, Some(id)).next_snapshot_id matches Some(next) ==> db::meta_of(
            s,
            Some(next),
        ).previous_snapshot_id == Some(id),
        db::meta_of(s, Some(id)).next_snapshot_id is None <==> db::meta_of(
            s,
            Some(id),
        ).latest_snapshot_id == Some(id),
{
    let ids = db::snapshot_ids(s);
    db::greatest_below_is_greatest(ids, id as int);
    db::least_above_is_least(ids, id as int);
    db::greatest_below_is_greatest(ids, i64::MAX + 1);
    if let Some(previous) = db::greatest_below(ids, id as int) {
        db::least_above_is_least(ids, previous as int);
    }
    if let Some(next) = db::least_above(ids, id as int) {
        db::greatest_below_is_greatest(ids, next as int);
    }
}

/// Whether the snapshot already holds an entry of the team of that name.
pub open spec fn taken(s: StoreView, id: i64, name: Seq<char>) -> bool {
    insert::id_named(s.teams, name) matches Some(team_id) && insert::has_entry(
        s.entries,
        id,
        team_id,
    )
}

/// Whether the team of every entry is known.
pub open spec fn entry_teams_known(s: StoreView) -> bool {
    forall|i: int|
        0 <= i < s.entries.len() ==> read::name_of(s.teams, (#[trigger] s.entries[i]).team_id) is Some
}

/// Recording a team leaves open which teams have an entry.
proof fn lemma_seen_takes_nothing(s: StoreView, name: Seq<char>, time: Seq<char>, id: i64)
    requires
        teams_valid(s.teams, s.team_seq),
        entry_teams_known(s),
        insert::team_seen(s, name, time) is Ok,
    ensures
        ({
            let t = insert::team_seen(s, name, time)->Ok_0;
            &&& entry_teams_known(t)
            &&& forall|n: Seq<char>| #[trigger] taken(t, id, n) == taken(s, id, n)
        }),
{
    let t = insert::team_seen(s, name, time)->Ok_0;
    lemma_seen(s, name, time);
    lemma_extension_keeps(s.teams, t.teams, t.team_seq);
    assert forall|n: Seq<char>| #[trigger] taken(t, id, n) == taken(s, id, n) by {
        if insert::id_named(s.teams, n) is None && taken(t, id, n) {
            let team_id = insert::id_named(t.teams, n).unwrap();
            let i = choose|i: int|
                0 <= i < t.entries.len() && (#[trigger] t.entries[i]).snapshot_id == id
                    && t.entries[i].team_id == team_id;
            assert(read::name_of(s.teams, s.entries[i].team_id) is Some);
            let a = lemma_name_index(s.teams, team_id);
            let b = lemma_id_index(t.teams, n);
            assert(t.teams[a].id == s.teams[a].id);
            assert(a == b) by {
                if a < b {
                    assert(t.teams[a].id < t.teams[b].id);
                } else if b < a {
                    assert(t.teams[b].id < t.teams[a].id);
                }
            }
            lemma_name_at_prefix(s.teams, t.teams, t.team_seq, a, n);
        }
    }
    assert forall|i: int| 0 <= i < t.entries.len() implies read::name_of(
        t.teams,
        (#[trigger] t.entries[i]).team_id,
    ) is Some by {
        assert(read::name_of(s.teams, s.entries[i].team_id) is Some);
    }
}

proof fn lemma_name_at_prefix(
    earlier: Seq<TeamView>,
    later: Seq<TeamView>,
    last: i64,
    a: int,
    n: Seq<char>,
)
    requires
        teams_valid(later, last),
        teams_extend(earlier, later),
        0 <= a < earlier.len(),
        later[a].name == n,
    ensures
        insert::id_named(earlier, n) is Some,
{
    if insert::id_named(earlier, n) is None {
        lemma_unnamed(earlier, n, a);
        assert(later[a].name == earlier[a].name);
    }
}

/// Adding an entry of a team succeeds exactly where the numbering goes on and
/// the team has none yet; afterwards that team has one.
proof fn lemma_entry_of_name(
    s: StoreView,
    name: Seq<char>,
    time: Seq<char>,
    id: i64,
    entry: EntryView,
)
    requires
        teams_valid(s.teams, s.team_seq),
        entry_teams_known(s),
        insert::team_seen(s, name, time) is Ok,
        entry.snapshot_id == id,
        Some(entry.team_id) == insert::id_named(
            insert::team_seen(s, name, time)->Ok_0.teams,
            name,
        ),
    ensures
        ({
            let u = insert::team_seen(s, name, time)->Ok_0;
            let result = insert::entry_added(u, entry);
            &&& result is Ok <==> !taken(s, id, name)
            &&& result matches Ok(t) ==> {
                &&& t.team_seq == s.team_seq + 1
                &&& teams_valid(t.teams, t.team_seq)
                &&& entry_teams_known(t)
                &&& forall|n: Seq<char>| #[trigger]
                    taken(t, id, n) == (taken(s, id, n) || n == name)
            }
        }),
{
    let u = insert::team_seen(s, name, time)->Ok_0;
    lemma_seen(s, name, time);
    lemma_seen_takes_nothing(s, name, time, id);
    assert(taken(u, id, name) == taken(s, id, name));
    if let Ok(t) = insert::entry_added(u, entry) {
        let k = u.entries.len() as int;
        assert(t.entries[k] == entry);
        assert forall|i: int| 0 <= i < t.entries.len() implies read::name_of(
            t.teams,
            (#[trigger] t.entries[i]).team_id,
        ) is Some by {
            if i < k {
                assert(t.entries[i] == u.entries[i]);
            }
        }
        assert forall|n: Seq<char>| #[trigger] taken(t, id, n) == (taken(s, id, n) || n == name) by {
            assert(taken(u, id, n) == taken(s, id, n));
            if taken(u, id, n) {
                let team_id = insert::id_named(u.teams, n).unwrap();
                let i = choose|i: int|
                    0 <= i < u.entries.len() && (#[trigger] u.entries[i]).snapshot_id == id
                        && u.entries[i].team_id == team_id;
                assert(t.entries[i] == u.entries[i]);
            }
            if taken(t, id, n) && n != name {
                let team_id = insert::id_named(t.teams, n).unwrap();
                let i = choose|i: int|
                    0 <= i < t.entries.len() && (#[trigger] t.entries[i]).snapshot_id == id
                        && t.entries[i].team_id == team_id;
                let a = lemma_id_index(u.teams, n);
                lemma_name_at(u.teams, u.team_seq, a);
                if i < k {
                    assert(t.entries[i] == u.entries[i]);
                }
            }
        }
    }
}

/// When rows can be added.
proof fn lemma_rows_fit(s: StoreView, rows: Seq<RowView>, id: i64, time: Seq<char>)
    requires
        teams_valid(s.teams, s.team_seq),
        entry_teams_known(s),
        forall|n: Seq<char>| !#[trigger] taken(s, id, n),
    ensures
        insert::rows_added(s, rows, id, time) is Ok <==> s.team_seq + rows.len() <= i64::MAX
            && teams_distinct(rows),
        insert::rows_added(s, rows, id, time) matches Ok(t) ==> {
            &&& t.team_seq == s.team_seq + rows.len()
            &&& teams_valid(t.teams, t.team_seq)
            &&& entry_teams_known(t)
            &&& forall|n: Seq<char>| #[trigger] taken(t, id, n) == diff::lists_team(rows, n)
        },
    decreases rows.len(),
{
    if rows.len() > 0 {
        let rest = rows.drop_last();
        let row = rows.last();
        let last = rows.len() - 1;
        lemma_rows_fit(s, rest, id, time);
        if teams_distinct(rows) {
            assert forall|i: int, j: int| 0 <= i < j < rest.len() implies (#[trigger] rest[i]).team_id
                != (#[trigger] rest[j]).team_id by {
                assert(rows[i].team_id != rows[j].team_id);
            }
        }
        if let Ok(m) = insert::rows_added(s, rest, id, time) {
            if m.team_seq < i64::MAX {
                let u = insert::team_seen(m, row.team_id, time)->Ok_0;
                lemma_seen(m, row.team_id, time);
                let entry = insert::listed_entry(
                    row,
                    id,
                    insert::id_named(u.teams, row.team_id).unwrap(),
                );
                lemma_entry_of_name(m, row.team_id, time, id, entry);
                assert(taken(m, id, row.team_id) == diff::lists_team(rest, row.team_id));
                if diff::lists_team(rest, row.team_id) {
                    let i = choose|i: int|
                        0 <= i < rest.len() && #[trigger] rest[i].team_id == row.team_id;
                    assert(rows[i].team_id == rows[last].team_id);
                } else {
                    assert forall|i: int, j: int| 0 <= i < j < rows.len() implies (
                    #[trigger] rows[i]).team_id != (#[trigger] rows[j]).team_id by {
                        assert(rest[i] == rows[i]);
                        if j < last {
                            assert(rest[j] == rows[j]);
                        }
                    }
                }
                if let Ok(t) = insert::rows_added(s, rows, id, time) {
                    assert forall|n: Seq<char>| #[trigger]
                        taken(t, id, n) == diff::lists_team(rows, n) by {
                        assert(taken(m, id, n) == diff::lists_team(rest, n));
                        lemma_lists_push(rows, n);
                    }
                }
            }
        }
    }
}

proof fn lemma_lists_push(rows: Seq<RowView>, n: Seq<char>)
    requires
        rows.len() > 0,
    ensures
        diff::lists_team(rows, n) == (diff::lists_team(rows.drop_last(), n) || rows.last().team_id
            == n),
{
    let rest = rows.drop_last();
    if diff::lists_team(rest, n) {
        let i = choose|i: int| 0 <= i < rest.len() && #[trigger] rest[i].team_id == n;
        assert(rows[i].team_id == n);
    }
    if diff::lists_team(rows, n) {
        let i = choose|i: int| 0 <= i < rows.len() && #[trigger] rows[i].team_id == n;
        if i < rest.len() {
            assert(rest[i].team_id == n);
        }
    }
    assert(rows[rows.len() - 1].team_id == rows.last().team_id);
}

/// Whether no name occurs twice and none is that of a listed team.
pub open spec fn drops_apart(names: Seq<Seq<char>>, rows: Seq<RowView>) -> bool {
    &&& names.no_duplicates()
    &&& forall|i: int| 0 <= i < names.len() ==> !diff::lists_team(rows, #[trigger] names[i])
}

/// When dropped teams can be added.
proof fn lemma_drops_fit(
    s: StoreView,
    names: Seq<Seq<char>>,
    rows: Seq<RowView>,
    id: i64,
    time: Seq<char>,
)
    requires
        teams_valid(s.teams, s.team_seq),
        entry_teams_known(s),
        forall|n: Seq<char>| #[trigger] taken(s, id, n) == diff::lists_team(rows, n),
    ensures
        insert::drops_added(s, names, id, time) is Ok <==> s.team_seq + names.len() <= i64::MAX
            && drops_apart(names, rows),
        insert::drops_added(s, names, id, time) matches Ok(t) ==> {
            &&& t.team_seq == s.team_seq + names.len()
            &&& teams_valid(t.teams, t.team_seq)
            &&& entry_teams_known(t)
            &&& forall|n: Seq<char>| #[trigger]
                taken(t, id, n) == (diff::lists_team(rows, n) || names.contains(n))
        },
    decreases names.len(),
{
    if names.len() > 0 {
        let rest = names.drop_last();
        let name = names.last();
        let last = names.len() - 1;
        lemma_drops_fit(s, rest, rows, id, time);
        if drops_apart(names, rows) {
            assert forall|i: int| 0 <= i < rest.len() implies !diff::lists_team(
                rows,
                #[trigger] rest[i],
            ) by {
                assert(rest[i] == names[i]);
            }
            assert(rest.no_duplicates());
        }
        if let Ok(m) = insert::drops_added(s, rest, id, time) {
            if m.team_seq < i64::MAX {
                let u = insert::team_seen(m, name, time)->Ok_0;
                lemma_seen(m, name, time);
                let entry = insert::dropped_entry(id, insert::id_named(u.teams, name).unwrap());
                lemma_entry_of_name(m, name, time, id, entry);
                assert(taken(m, id, name) == (diff::lists_team(rows, name) || rest.contains(name)));
                if rest.contains(name) {
                    let i = choose|i: int| 0 <= i < rest.len() && rest[i] == name;
                    assert(names[i] == names[last]);
                } else if !diff::lists_team(rows, name) {
                    assert forall|i: int, j: int|
                        0 <= i < names.len() && 0 <= j < names.len() && i != j implies names[i]
                        != names[j] by {
                        if i < last && j < last {
                            assert(rest[i] == names[i] && rest[j] == names[j]);
                        } else if i < last {
                            assert(rest[i] == names[i]);
                        } else {
                            assert(rest[j] == names[j]);
                        }
                    }
                    assert forall|i: int| 0 <= i < names.len() implies !diff::lists_team(
                        rows,
                        #[trigger] names[i],
                    ) by {
                        if i < last {
                            assert(rest[i] == names[i]);
                        }
                    }
                } else {
                    assert(diff::lists_team(rows, names[last]));
                }
                if let Ok(t) = insert::drops_added(s, names, id, time) {
                    assert forall|n: Seq<char>| #[trigger]
                        taken(t, id, n) == (diff::lists_team(rows, n) || names.contains(n)) by {
                        assert(taken(m, id, n) == (diff::lists_team(rows, n) || rest.contains(n)));
                        assert(names =~= rest.push(name));
                        if rest.contains(n) {
                            let i = choose|i: int| 0 <= i < rest.len() && rest[i] == n;
                            assert(names[i] == n);
                        }
                        if names.contains(n) && n != name {
                            let i = choose|i: int| 0 <= i < names.len() && names[i] == n;
                            assert(rest[i] == n);
                        }
                        assert(names[last] == name);
                    }
                }
            }
        }
    }
}

/// The events whose team no row lists.
pub open spec fn unlisted(events: Seq<EventView>, rows: Seq<RowView>) -> Seq<EventView> {
    events.filter(|e: EventView| !diff::lists_team(rows, e.team_id))
}

/// When events can be added.
proof fn lemma_events_fit(
    s: StoreView,
    events: Seq<EventView>,
    rows: Seq<RowView>,
    id: i64,
    time: Seq<char>,
)
    ensures
        insert::events_added(s, events, rows, id, time) is Ok <==> s.team_seq + unlisted(
            events,
            rows,
        ).len() <= i64::MAX && s.event_seq + events.len() <= i64::MAX,
        insert::events_added(s, events, rows, id, time) matches Ok(t) ==> t.team_seq == s.team_seq
            + unlisted(events, rows).len() && t.event_seq == s.event_seq + events.len(),
    decreases events.len(),
{
    let apart = |e: EventView| !diff::lists_team(rows, e.team_id);
    if events.len() == 0 {
        assert(events.filter(apart).len() == 0) by {
            reveal(Seq::filter);
        }
    } else {
        let rest = events.drop_last();
        lemma_events_fit(s, rest, rows, id, time);
        rest.lemma_filter_push(events.last(), apart);
        assert(rest.push(events.last()) =~= events);
    }
}

/// When a snapshot can be added: the numberings go on, no team is listed twice,
/// no team is dropped twice, and none is both listed and dropped.
pub open spec fn fits(s: StoreView, rows: Seq<RowView>, diff: DiffView) -> bool {
    &&& s.snapshot_seq < i64::MAX
    &&& s.team_seq + rows.len() + diff.dropped_team_ids.len() + unlisted(diff.events, rows).len()
        <= i64::MAX
    &&& s.event_seq + diff.events.len() <= i64::MAX
    &&& teams_distinct(rows)
    &&& drops_apart(diff.dropped_team_ids, rows)
}

/// A snapshot can be added exactly where it fits, and moves the numbering of the
/// teams on by one for each listed team, each dropped team and each event of a
/// team that is not listed.
pub proof fn insertion_succeeds_iff_it_fits(
    s: StoreView,
    date: Option<Seq<char>>,
    rows: Seq<RowView>,
    diff: DiffView,
    time: Seq<char>,
)
    requires
        valid(s),
    ensures
        insert::snapshot_inserted(s, date, rows, diff, time) is Ok <==> fits(s, rows, diff),
        insert::snapshot_inserted(s, date, rows, diff, time) matches Ok(t) ==> t.team_seq
            == s.team_seq + rows.len() + diff.dropped_team_ids.len() + unlisted(
            diff.events,
            rows,
        ).len(),
{
    if s.snapshot_seq < i64::MAX {
        let opened = insert::snapshot_opened(s, date, diff.content_hash, rows.len(), time)->Ok_0;
        let id = opened.snapshot_seq;
        lemma_nothing_taken(s, opened);
        lemma_rows_fit(opened, rows, id, time);
        if let Ok(listed) = insert::rows_added(opened, rows, id, time) {
            lemma_drops_fit(listed, diff.dropped_team_ids, rows, id, time);
            lemma_rows_keep_events(opened, rows, id, time);
            if let Ok(dropped) = insert::drops_added(listed, diff.dropped_team_ids, id, time) {
                lemma_drops_keep_events(listed, diff.dropped_team_ids, id, time);
                lemma_events_fit(dropped, diff.events, rows, id, time);
            }
        }
    }
}

proof fn lemma_rows_error(s: StoreView, rows: Seq<RowView>, id: i64, time: Seq<char>)
    requires
        teams_valid(s.teams, s.team_seq),
        entry_teams_known(s),
        forall|n: Seq<char>| !#[trigger] taken(s, id, n),
    ensures
        insert::rows_added(s, rows, id, time) matches Err(e) ==> {
            &&& e == StoreError::Full || e == StoreError::DuplicateEntry
            &&& teams_distinct(rows) ==> e == StoreError::Full
            &&& s.team_seq + rows.len() <= i64::MAX ==> e == StoreError::DuplicateEntry
        },
    decreases rows.len(),
{
    if rows.len() > 0 {
        let rest = rows.drop_last();
        lemma_rows_error(s, rest, id, time);
        lemma_rows_fit(s, rest, id, time);
        lemma_rows_fit(s, rows, id, time);
        if teams_distinct(rows) {
            assert forall|i: int, j: int| 0 <= i < j < rest.len() implies (#[trigger] rest[i]).team_id
                != (#[trigger] rest[j]).team_id by {
                assert(rows[i].team_id != rows[j].team_id);
            }
        }
    }
}

proof fn lemma_drops_error(
    s: StoreView,
    names: Seq<Seq<char>>,
    rows: Seq<RowView>,
    id: i64,
    time: Seq<char>,
)
    requires
        teams_valid(s.teams, s.team_seq),
        entry_teams_known(s),
        forall|n: Seq<char>| #[trigger] taken(s, id, n) == diff::lists_team(rows, n),
    ensures
        insert::drops_added(s, names, id, time) matches Err(e) ==> {
            &&& e == StoreError::Full || e == StoreError::DuplicateEntry
            &&& drops_apart(names, rows) ==> e == StoreError::Full
            &&& s.team_seq + names.len() <= i64::MAX ==> e == StoreError::DuplicateEntry
        },
    decreases names.len(),
{
    if names.len() > 0 {
        let rest = names.drop_last();
        lemma_drops_error(s, rest, rows, id, time);
        lemma_drops_fit(s, rest, rows, id, time);
        lemma_drops_fit(s, names, rows, id, time);
        if drops_apart(names, rows) {
            assert forall|i: int| 0 <= i < rest.len() implies !diff::lists_team(
                rows,
                #[trigger] rest[i],
            ) by {
                assert(rest[i] == names[i]);
            }
            assert forall|i: int, j: int| 0 <= i < rest.len() && 0 <= j < rest.len() && i
                != j implies rest[i] != rest[j] by {
                assert(names[i] != names[j]);
            }
        }
    }
}

proof fn lemma_events_error(
    s: StoreView,
    events: Seq<EventView>,
    rows: Seq<RowView>,
    id: i64,
    time: Seq<char>,
)
    ensures
        insert::events_added(s, events, rows, id, time) matches Err(e) ==> e == StoreError::Full,
    decreases events.len(),
{
    if events.len() > 0 {
        lemma_events_error(s, events.drop_last(), rows, id, time);
    }
}

/// A snapshot is refused for want of numbers, or because it would hold a team twice:
/// for the former where no team is listed or dropped twice, for the latter where
/// there are numbers enough.
pub proof fn insertion_is_refused_for_its_reason(
    s: StoreView,
    date: Option<Seq<char>>,
    rows: Seq<RowView>,
    diff: DiffView,
    time: Seq<char>,
)
    requires
        valid(s),
    ensures
        insert::snapshot_inserted(s, date, rows, diff, time) matches Err(e) ==> {
            &&& e == StoreError::Full || e == StoreError::DuplicateEntry
            &&& teams_distinct(rows) && drops_apart(diff.dropped_team_ids, rows) ==> e
                == StoreError::Full
            &&& s.snapshot_seq < i64::MAX && s.team_seq + rows.len() + diff.dropped_team_ids.len()
                + unlisted(diff.events, rows).len() <= i64::MAX && s.event_seq + diff.events.len()
                <= i64::MAX ==> e == StoreError::DuplicateEntry
        },
{
    if s.snapshot_seq < i64::MAX {
        let opened = insert::snapshot_opened(s, date, diff.content_hash, rows.len(), time)->Ok_0;
        let id = opened.snapshot_seq;
        lemma_nothing_taken(s, opened);
        lemma_rows_error(opened, rows, id, time);
        lemma_rows_fit(opened, rows, id, time);
        if let Ok(listed) = insert::rows_added(opened, rows, id, time) {
            lemma_drops_error(listed, diff.dropped_team_ids, rows, id, time);
            lemma_drops_fit(listed, diff.dropped_team_ids, rows, id, time);
            lemma_rows_keep_events(opened, rows, id, time);
            if let Ok(dropped) = insert::drops_added(listed, diff.dropped_team_ids, id, time) {
                lemma_drops_keep_events(listed, diff.dropped_team_ids, id, time);
                lemma_events_fit(dropped, diff.events, rows, id, time);
                lemma_events_error(dropped, diff.events, rows, id, time);
            }
        }
    }
}

/// A new snapshot holds no entry yet.
proof fn lemma_nothing_taken(s: StoreView, opened: StoreView)
    requires
        valid(s),
        opened.teams == s.teams,
        opened.entries == s.entries,
        opened.snapshot_seq == s.snapshot_seq + 1,
    ensures
        entry_teams_known(opened),
        forall|n: Seq<char>| !#[trigger] taken(opened, opened.snapshot_seq, n),
{
    let id = opened.snapshot_seq;
    assert forall|n: Seq<char>| !#[trigger] taken(opened, id, n) by {
        if taken(opened, id, n) {
            let team_id = insert::id_named(opened.teams, n).unwrap();
            let i = choose|i: int|
                0 <= i < s.entries.len() && (#[trigger] s.entries[i]).snapshot_id == id
                    && s.entries[i].team_id == team_id;
            lemma_id_bound(s, s.entries[i].snapshot_id);
        }
    }
}

proof fn lemma_rows_keep_events(s: StoreView, rows: Seq<RowView>, id: i64, time: Seq<char>)
    ensures
        insert::rows_added(s, rows, id, time) matches Ok(t) ==> t.event_seq == s.event_seq,
    decreases rows.len(),
{
    if rows.len() > 0 {
        lemma_rows_keep_events(s, rows.drop_last(), id, time);
    }
}

proof fn lemma_drops_keep_events(s: StoreView, names: Seq<Seq<char>>, id: i64, time: Seq<char>)
    ensures
        insert::drops_added(s, names, id, time) matches Ok(t) ==> t.event_seq == s.event_seq,
    decreases names.len(),
{
    if names.len() > 0 {
        lemma_drops_keep_events(s, names.drop_last(), id, time);
    }
}

/// Whether no team is recorded twice.
pub open spec fn records_distinct(teams: Seq<PreviousTeamView>) -> bool {
    forall|i: int, j: int|
        0 <= i < j < teams.len() ==> (#[trigger] teams[i]).team_id != (#[trigger] teams[j]).team_id
}

proof fn lemma_records_distinct(s: StoreView, id: i64, n: int)
    requires
        valid(s),
        0 <= n <= s.entries.len(),
    ensures
        ({
            let f = |e: EntryView| read::recorded_team(s.teams, e, id);
            let out = s.entries.take(n).filter_map(f);
            &&& records_distinct(out)
            &&& forall|k: int|
                0 <= k < out.len() ==> exists|i: int|
                    0 <= i < n && read::recorded_team(s.teams, #[trigger] s.entries[i], id) == Some(
                        #[trigger] out[k],
                    )
        }),
    decreases n,
{
    let f = |e: EntryView| read::recorded_team(s.teams, e, id);
    let out = s.entries.take(n).filter_map(f);
    if n == 0 {
        reveal(Seq::filter_map);
    } else {
        let before = s.entries.take(n - 1).filter_map(f);
        let entry = s.entries[n - 1];
        lemma_records_distinct(s, id, n - 1);
        s.entries.lemma_filter_map_take_succ(f, n - 1);
        assert forall|k: int| 0 <= k < out.len() implies exists|i: int|
            0 <= i < n && read::recorded_team(s.teams, #[trigger] s.entries[i], id) == Some(
                #[trigger] out[k],
            ) by {
            if k < before.len() {
                assert(out[k] == before[k]);
            } else {
                assert(read::recorded_team(s.teams, s.entries[n - 1], id) == Some(out[k]));
            }
        }
        assert forall|a: int, b: int| 0 <= a < b < out.len() implies (#[trigger] out[a]).team_id
            != (#[trigger] out[b]).team_id by {
            assert(out[a] == before[a]);
            if b < before.len() {
                assert(out[b] == before[b]);
            } else {
                let i = choose|i: int|
                    0 <= i < n - 1 && read::recorded_team(s.teams, #[trigger] s.entries[i], id)
                        == Some(before[a]);
                assert(s.entries[i].snapshot_id == entry.snapshot_id);
                assert(s.entries[i].team_id != entry.team_id);
                let x = lemma_name_index(s.teams, s.entries[i].team_id);
                let y = lemma_name_index(s.teams, entry.team_id);
                if x < y {
                    assert(s.teams[x].name != s.teams[y].name);
                } else if y < x {
                    assert(s.teams[y].name != s.teams[x].name);
                }
            }
        }
    }
}

/// No snapshot records a team twice.
pub proof fn teams_are_recorded_once(s: StoreView, id: i64)
    requires
        valid(s),
    ensures
        records_distinct(read::recorded_teams(s, id)),
{
    lemma_records_distinct(s, id, s.entries.len() as int);
    assert(s.entries.take(s.entries.len() as int) =~= s.entries);
}

proof fn lemma_kept_records(teams: Seq<PreviousTeamView>, f: spec_fn(PreviousTeamView) -> bool)
    requires
        records_distinct(teams),
    ensures
        records_distinct(teams.filter(f)),
        forall|k: int|
            0 <= k < teams.filter(f).len() ==> f(#[trigger] teams.filter(f)[k]) && teams.contains(
                teams.filter(f)[k],
            ),
    decreases teams.len(),
{
    reveal(Seq::filter);
    if teams.len() > 0 {
        let rest = teams.drop_last();
        let last = teams.last();
        let out = teams.filter(f);
        let before = rest.filter(f);
        assert forall|i: int, j: int| 0 <= i < j < rest.len() implies (#[trigger] rest[i]).team_id
            != (#[trigger] rest[j]).team_id by {
            assert(teams[i].team_id != teams[j].team_id);
        }
        lemma_kept_records(rest, f);
        assert forall|k: int| 0 <= k < before.len() implies #[trigger] before[k].team_id
            != last.team_id && teams.contains(before[k]) by {
            assert(rest.contains(before[k]));
            let i = choose|i: int| 0 <= i < rest.len() && rest[i] == before[k];
            assert(teams[i].team_id != teams[teams.len() - 1].team_id);
            assert(teams[i] == before[k]);
        }
        assert forall|k: int| 0 <= k < out.len() implies f(#[trigger] out[k]) && teams.contains(
            out[k],
        ) by {
            if k < before.len() {
                assert(out[k] == before[k]);
            } else {
                assert(out[k] == teams[teams.len() - 1]);
            }
        }
        assert forall|i: int, j: int| 0 <= i < j < out.len() implies (#[trigger] out[i]).team_id
            != (#[trigger] out[j]).team_id by {
            assert(out[i] == before[i]);
            if j < before.len() {
                assert(out[j] == before[j]);
            }
        }
    }
}

/// A comparison with a record that has no team twice drops no team twice, and none
/// that is listed.
proof fn lemma_drops_apart(
    previous: Seq<PreviousTeamView>,
    rows: Seq<RowView>,
    date: Option<Seq<char>>,
)
    requires
        records_distinct(previous),
    ensures
        drops_apart(diff::diff_of(previous, rows, date).dropped_team_ids, rows),
{
    let gone = |team: PreviousTeamView| diff::is_dropped(rows, team);
    lemma_kept_records(previous, gone);
    let dropped = diff::dropped_teams(previous, rows);
    let names = diff::diff_of(previous, rows, date).dropped_team_ids;
    assert forall|i: int, j: int| 0 <= i < names.len() && 0 <= j < names.len() && i != j implies
        names[i] != names[j] by {
        if i < j {
            assert(dropped[i].team_id != dropped[j].team_id);
        } else {
            assert(dropped[j].team_id != dropped[i].team_id);
        }
    }
    assert forall|i: int| 0 <= i < names.len() implies !diff::lists_team(
        rows,
        #[trigger] names[i],
    ) by {
        assert(gone(dropped[i]));
    }
}

proof fn lemma_filter_shortens<A>(a: Seq<A>, f: spec_fn(A) -> bool)
    ensures
        a.filter(f).len() <= a.len(),
    decreases a.len(),
{
    reveal(Seq::filter);
    if a.len() > 0 {
        lemma_filter_shortens(a.drop_last(), f);
    }
}

proof fn lemma_row_events_shorten(previous: Seq<PreviousTeamView>, rows: Seq<RowView>)
    ensures
        diff::row_events(previous, rows).len() <= rows.len(),
    decreases rows.len(),
{
    reveal(Seq::filter_map);
    if rows.len() > 0 {
        lemma_row_events_shorten(previous, rows.drop_last());
    }
}

/// A comparison of a leaderboard that lists no team twice with a record that has
/// none twice drops no team twice, and none that is listed; it tells of each
/// listed team and of each dropped one at most once, and of no other.
pub proof fn comparison_is_bounded(
    previous: Seq<PreviousTeamView>,
    rows: Seq<RowView>,
    date: Option<Seq<char>>,
)
    requires
        records_distinct(previous),
        teams_distinct(rows),
    ensures
        ({
            let d = diff::diff_of(previous, rows, date);
            &&& drops_apart(d.dropped_team_ids, rows)
            &&& d.dropped_team_ids.len() <= previous.len()
            &&& d.events.len() <= rows.len() + d.dropped_team_ids.len()
            &&& unlisted(d.events, rows).len() <= d.dropped_team_ids.len()
        }),
{
    let gone = |team: PreviousTeamView| diff::is_dropped(rows, team);
    let apart = |e: EventView| !diff::lists_team(rows, e.team_id);
    let first = diff::row_events(previous, rows);
    let dropped = diff::dropped_teams(previous, rows);
    let last = dropped.map_values(|team: PreviousTeamView| diff::drop_event(team));
    lemma_drops_apart(previous, rows, date);
    lemma_filter_shortens(previous, gone);
    lemma_row_events_shorten(previous, rows);
    lemma_row_events_distinct(previous, rows);
    lemma_nothing_kept(first, apart);
    lemma_filter_shortens(last, apart);
    Seq::filter_distributes_over_add(first, last, apart);
}

/// A comparison with what a valid history recorded drops no team twice, and none
/// that is listed.
pub proof fn drops_are_apart(s: StoreView, rows: Seq<RowView>, date: Option<Seq<char>>)
    requires
        valid(s),
    ensures
        drops_apart(
            diff::diff_of(read::previous_rows_of(s), rows, date).dropped_team_ids,
            rows,
        ),
{
    let previous = read::previous_rows_of(s);
    if let Some(id) = db::greatest(db::snapshot_ids(s)) {
        teams_are_recorded_once(s, id);
    }
    lemma_drops_apart(previous, rows, date);
}

/// The events of rows are of their teams, each of one row.
proof fn lemma_row_events_distinct(previous: Seq<PreviousTeamView>, rows: Seq<RowView>)
    requires
        teams_distinct(rows),
    ensures
        events_distinct(diff::row_events(previous, rows)),
        forall|k: int|
            0 <= k < diff::row_events(previous, rows).len() ==> diff::lists_team(
                rows,
                (#[trigger] diff::row_events(previous, rows)[k]).team_id,
            ),
    decreases rows.len(),
{
    reveal(Seq::filter_map);
    let event_of = |row: RowView| diff::row_event(previous, row);
    let out = diff::row_events(previous, rows);
    if rows.len() > 0 {
        let rest = rows.drop_last();
        let before = diff::row_events(previous, rest);
        let last = rows.len() - 1;
        assert forall|i: int, j: int| 0 <= i < j < rest.len() implies (#[trigger] rest[i]).team_id
            != (#[trigger] rest[j]).team_id by {
            assert(rows[i].team_id != rows[j].team_id);
        }
        lemma_row_events_distinct(previous, rest);
        assert forall|k: int| 0 <= k < before.len() implies (#[trigger] before[k]).team_id
            != rows[last].team_id && diff::lists_team(rows, before[k].team_id) by {
            let i = choose|i: int|
                0 <= i < rest.len() && #[trigger] rest[i].team_id == before[k].team_id;
            assert(rows[i].team_id == before[k].team_id);
            assert(rows[i].team_id != rows[last].team_id);
        }
        assert forall|k: int| 0 <= k < out.len() implies diff::lists_team(
            rows,
            (#[trigger] out[k]).team_id,
        ) by {
            if k < before.len() {
                assert(out[k] == before[k]);
            } else {
                assert(rows[last].team_id == out[k].team_id);
            }
        }
        assert forall|i: int, j: int| 0 <= i < j < out.len() implies (#[trigger] out[i]).team_id != (
        #[trigger] out[j]).team_id by {
            assert(out[i] == before[i]);
            if j < before.len() {
                assert(out[j] == before[j]);
            }
        }
    }
}

/// Whether no two events are of one team.
pub open spec fn events_distinct(events: Seq<EventView>) -> bool {
    forall|i: int, j: int|
        0 <= i < j < events.len() ==> (#[trigger] events[i]).team_id != (#[trigger] events[j]).team_id
}

/// A comparison with what a valid history recorded tells of each team at most
/// once, where the leaderboard lists none twice.
pub proof fn teams_are_told_of_once(s: StoreView, rows: Seq<RowView>, date: Option<Seq<char>>)
    requires
        valid(s),
        teams_distinct(rows),
    ensures
        events_distinct(diff::diff_of(read::previous_rows_of(s), rows, date).events),
{
    let previous = read::previous_rows_of(s);
    let d = diff::diff_of(previous, rows, date);
    let first = diff::row_events(previous, rows);
    let dropped = diff::dropped_teams(previous, rows);
    drops_are_apart(s, rows, date);
    lemma_row_events_distinct(previous, rows);
    assert forall|i: int, j: int| 0 <= i < j < d.events.len() implies (#[trigger] d.events[i]).team_id
        != (#[trigger] d.events[j]).team_id by {
        if j < first.len() {
            assert(d.events[i] == first[i] && d.events[j] == first[j]);
        } else {
            let b = j - first.len();
            assert(d.events[j].team_id == d.dropped_team_ids[b]);
            if i < first.len() {
                assert(d.events[i] == first[i]);
                assert(!diff::lists_team(rows, d.dropped_team_ids[b]));
            } else {
                let a = i - first.len();
                assert(d.events[i].team_id == d.dropped_team_ids[a]);
            }
        }
    }
}

/// The entries of a team that its chart shows.
pub open spec fn shown_entries(s: StoreView, n: int, team: Seq<char>, until: Option<i64>) -> Seq<
    EntryView,
> {
    s.entries.take(n).filter(|e: EntryView| history::charted(s, e, team, until))
}

/// One entry more.
proof fn lemma_shown_push(s: StoreView, n: int, team: Seq<char>, until: Option<i64>)
    requires
        0 < n <= s.entries.len(),
    ensures
        shown_entries(s, n, team, until) == if history::charted(s, s.entries[n - 1], team, until) {
            shown_entries(s, n - 1, team, until).push(s.entries[n - 1])
        } else {
            shown_entries(s, n - 1, team, until)
        },
{
    let keep = |e: EntryView| history::charted(s, e, team, until);
    let entry = s.entries[n - 1];
    s.entries.take(n - 1).lemma_filter_push(entry, keep);
    assert(s.entries.take(n - 1).push(entry) =~= s.entries.take(n));
}

proof fn lemma_shown_none(s: StoreView, team: Seq<char>, until: Option<i64>)
    ensures
        shown_entries(s, 0, team, until).len() == 0,
{
    reveal(Seq::filter);
    assert(s.entries.take(0) =~= Seq::<EntryView>::empty());
}

/// Whether the entry is one of the first `n`, and shown.
pub open spec fn shown_among(
    s: StoreView,
    n: int,
    team: Seq<char>,
    until: Option<i64>,
    entry: EntryView,
) -> bool {
    exists|k: int|
        0 <= k < n && #[trigger] s.entries[k] == entry && history::charted(s, entry, team, until)
}

proof fn lemma_chart_order(s: StoreView, n: int, team: Seq<char>, until: Option<i64>)
    requires
        valid(s),
        0 <= n <= s.entries.len(),
    ensures
        forall|i: int, j: int|
            0 <= i < j < shown_entries(s, n, team, until).len() ==> (#[trigger] shown_entries(
                s,
                n,
                team,
                until,
            )[i]).snapshot_id < (#[trigger] shown_entries(s, n, team, until)[j]).snapshot_id,
        forall|i: int|
            0 <= i < shown_entries(s, n, team, until).len() ==> shown_among(
                s,
                n,
                team,
                until,
                #[trigger] shown_entries(s, n, team, until)[i],
            ),
    decreases n,
{
    let kept = shown_entries(s, n, team, until);
    if n == 0 {
        lemma_shown_none(s, team, until);
    } else {
        lemma_chart_order(s, n - 1, team, until);
        lemma_shown_push(s, n, team, until);
        let before = shown_entries(s, n - 1, team, until);
        let entry = s.entries[n - 1];
        assert forall|i: int| 0 <= i < kept.len() implies shown_among(
            s,
            n,
            team,
            until,
            #[trigger] kept[i],
        ) by {
            if i < before.len() {
                assert(kept[i] == before[i]);
                assert(shown_among(s, n - 1, team, until, before[i]));
            } else {
                assert(s.entries[n - 1] == kept[i]);
            }
        }
        assert forall|i: int, j: int| 0 <= i < j < kept.len() implies (#[trigger] kept[i]).snapshot_id
            < (#[trigger] kept[j]).snapshot_id by {
            assert(kept[i] == before[i]);
            if j < before.len() {
                assert(kept[j] == before[j]);
            } else {
                assert(shown_among(s, n - 1, team, until, before[i]));
                let k = choose|k: int|
                    0 <= k < n - 1 && #[trigger] s.entries[k] == before[i] && history::charted(
                        s,
                        before[i],
                        team,
                        until,
                    );
                assert(s.entries[k].snapshot_id <= s.entries[n - 1].snapshot_id);
                if s.entries[k].snapshot_id == entry.snapshot_id {
                    let x = lemma_name_index(s.teams, s.entries[k].team_id);
                    let y = lemma_name_index(s.teams, entry.team_id);
                    if x < y {
                        assert(s.teams[x].name != s.teams[y].name);
                    } else if y < x {
                        assert(s.teams[y].name != s.teams[x].name);
                    }
                }
            }
        }
    }
}

proof fn lemma_chart_points(s: StoreView, n: int, team: Seq<char>, until: Option<i64>)
    requires
        0 <= n <= s.entries.len(),
        history::points_of(s, s.entries.take(n), team, until) is Ok,
    ensures
        history::points_of(s, s.entries.take(n), team, until)->Ok_0.len() == shown_entries(
            s,
            n,
            team,
            until,
        ).len(),
        forall|i: int|
            0 <= i < shown_entries(s, n, team, until).len() ==> history::point_of(
                s,
                #[trigger] shown_entries(s, n, team, until)[i],
            ) == Ok::<history::PointView, StoreError>(
                history::points_of(s, s.entries.take(n), team, until)->Ok_0[i],
            ),
    decreases n,
{
    let kept = shown_entries(s, n, team, until);
    let points = history::points_of(s, s.entries.take(n), team, until)->Ok_0;
    if n == 0 {
        lemma_shown_none(s, team, until);
        assert(s.entries.take(0) =~= Seq::<EntryView>::empty());
    } else {
        assert(s.entries.take(n).drop_last() =~= s.entries.take(n - 1));
        assert(s.entries.take(n).last() == s.entries[n - 1]);
        lemma_chart_points(s, n - 1, team, until);
        lemma_shown_push(s, n, team, until);
        let before = shown_entries(s, n - 1, team, until);
        let earlier = history::points_of(s, s.entries.take(n - 1), team, until)->Ok_0;
        assert forall|i: int| 0 <= i < kept.len() implies history::point_of(s, #[trigger] kept[i])
            == Ok::<history::PointView, StoreError>(points[i]) by {
            if i < before.len() {
                assert(kept[i] == before[i]);
                assert(points[i] == earlier[i]);
            }
        }
    }
}

/// A chart has one point for each snapshot that lists the team, in the order of
/// the snapshots.
pub proof fn chart_follows_the_snapshots(s: StoreView, team: Seq<char>, until: Option<i64>)
    requires
        valid(s),
    ensures
        ({
            let kept = shown_entries(s, s.entries.len() as int, team, until);
            &&& history::points_of(s, s.entries, team, until) matches Ok(points) ==> {
                &&& points.len() == kept.len()
                &&& forall|i: int|
                    0 <= i < kept.len() ==> history::point_of(s, #[trigger] kept[i]) == Ok::<
                        history::PointView,
                        StoreError,
                    >(points[i])
            }
            &&& forall|i: int, j: int|
                0 <= i < j < kept.len() ==> (#[trigger] kept[i]).snapshot_id < (
                #[trigger] kept[j]).snapshot_id
        }),
{
    assert(s.entries.take(s.entries.len() as int) =~= s.entries);
    lemma_chart_order(s, s.entries.len() as int, team, until);
    if history::points_of(s, s.entries, team, until) is Ok {
        lemma_chart_points(s, s.entries.len() as int, team, until);
    }
}

/// Whether the time of every snapshot can be read.
pub open spec fn times_readable(s: StoreView) -> bool {
    forall|i: int|
        0 <= i < s.snapshots.len() ==> bindings::rfc3339_seconds(
            (#[trigger] s.snapshots[i]).fetched_at,
        ) is Some
}

/// Whether every present entry has a rank and a score.
pub open spec fn values_complete(s: StoreView) -> bool {
    forall|i: int|
        0 <= i < s.entries.len() && (#[trigger] s.entries[i]).present ==> s.entries[i].rank is Some
            && s.entries[i].score is Some
}

proof fn lemma_time_readable(snapshots: Seq<SnapshotView>, id: i64)
    requires
        forall|i: int|
            0 <= i < snapshots.len() ==> bindings::rfc3339_seconds(
                (#[trigger] snapshots[i]).fetched_at,
            ) is Some,
    ensures
        read::fetched_at_of(snapshots, id) matches Some(time) ==> bindings::rfc3339_seconds(
            time,
        ) is Some,
    decreases snapshots.len(),
{
    if snapshots.len() > 0 {
        let rest = snapshots.drop_last();
        assert(bindings::rfc3339_seconds(snapshots[snapshots.len() - 1].fetched_at) is Some);
        assert forall|i: int| 0 <= i < rest.len() implies bindings::rfc3339_seconds(
            (#[trigger] rest[i]).fetched_at,
        ) is Some by {
            assert(rest[i] == snapshots[i]);
        }
        lemma_time_readable(rest, id);
    }
}

proof fn lemma_points_drawn(s: StoreView, n: int, team: Seq<char>, until: Option<i64>)
    requires
        times_readable(s),
        values_complete(s),
        0 <= n <= s.entries.len(),
    ensures
        history::points_of(s, s.entries.take(n), team, until) is Ok,
    decreases n,
{
    if n > 0 {
        lemma_points_drawn(s, n - 1, team, until);
        assert(s.entries.take(n).drop_last() =~= s.entries.take(n - 1));
        assert(s.entries.take(n).last() == s.entries[n - 1]);
        lemma_time_readable(s.snapshots, s.entries[n - 1].snapshot_id);
    }
}

/// Where the times can be read and the values are there, every chart can be drawn.
pub proof fn charts_can_be_drawn(s: StoreView, names: Seq<Seq<char>>, until: Option<i64>)
    requires
        times_readable(s),
        values_complete(s),
    ensures
        forall|team: Seq<char>| #[trigger] history::points_of(s, s.entries, team, until) is Ok,
        history::series_of(s, names, until) is Ok,
    decreases names.len(),
{
    assert forall|team: Seq<char>| #[trigger]
        history::points_of(s, s.entries, team, until) is Ok by {
        lemma_points_drawn(s, s.entries.len() as int, team, until);
        assert(s.entries.take(s.entries.len() as int) =~= s.entries);
    }
    if names.len() > 0 {
        charts_can_be_drawn(s, names.drop_last(), until);
    }
}

/// A snapshot whose time can be read and whose scores are numbers leaves the
/// times readable and the values there.
pub proof fn insertion_keeps_charts(
    s: StoreView,
    date: Option<Seq<char>>,
    rows: Seq<RowView>,
    diff: DiffView,
    time: Seq<char>,
)
    requires
        valid(s),
        times_readable(s),
        values_complete(s),
        bindings::rfc3339_seconds(time) is Some,
        forall|i: int| 0 <= i < rows.len() ==> !score::is_nan((#[trigger] rows[i]).score.bits),
        insert::snapshot_inserted(s, date, rows, diff, time) is Ok,
    ensures
        times_readable(insert::snapshot_inserted(s, date, rows, diff, time)->Ok_0),
        values_complete(insert::snapshot_inserted(s, date, rows, diff, time)->Ok_0),
{
    insertion_appends(s, date, rows, diff, time);
    let t = insert::snapshot_inserted(s, date, rows, diff, time)->Ok_0;
    let id = t.snapshot_seq;
    let listed = entries_of_rows(t.teams, rows, id);
    let dropped = entries_of_drops(t.teams, diff.dropped_team_ids, id);
    assert forall|i: int| 0 <= i < t.snapshots.len() implies bindings::rfc3339_seconds(
        (#[trigger] t.snapshots[i]).fetched_at,
    ) is Some by {
        if i < s.snapshots.len() {
            assert(t.snapshots[i] == s.snapshots[i]);
        }
    }
    assert forall|i: int| 0 <= i < t.entries.len() && (#[trigger] t.entries[i]).present implies
        t.entries[i].rank is Some && t.entries[i].score is Some by {
        let a = s.entries.len();
        if i < a {
            assert(t.entries[i] == s.entries[i]);
        } else if i < a + listed.len() {
            assert(t.entries[i] == listed[i - a]);
            assert(!score::is_nan(rows[i - a].score.bits));
        } else {
            assert(t.entries[i] == dropped[i - a - listed.len()]);
        }
    }
}

}
