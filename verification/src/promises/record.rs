//! What is stored when a snapshot is added.
use crate::db::insert;
use crate::db::laws;
use crate::db::{SnapshotView, StoreView, TeamView};
use crate::diff::{self, DiffView, EventType, EventView};
use crate::parse::RowView;
use crate::score::{self, ScoreView};
use vstd::prelude::*;

verus! {

/// Whether the number is that of the team of that name, and of no other.
pub open spec fn is_number_of(teams: Seq<TeamView>, id: i64, name: Seq<char>) -> bool {
    &&& exists|t: int| 0 <= t < teams.len() && (#[trigger] teams[t]).id == id
    &&& forall|t: int| 0 <= t < teams.len() && (#[trigger] teams[t]).id == id ==> teams[t].name == name
}

/// Whether `kept` is the score as it is stored: not-a-number as no value, the
/// negative zero as the positive one, any other number as it is.
pub open spec fn is_kept(score: Option<ScoreView>, kept: Option<ScoreView>) -> bool {
    match score {
        None => kept is None,
        Some(score) => {
            let bits = score.bits;
            &&& 0x7ff0_0000_0000_0000 < bits < 0x8000_0000_0000_0000 || bits
                > 0xfff0_0000_0000_0000 ==> kept is None
            &&& bits == 0x8000_0000_0000_0000 ==> (kept matches Some(zero) && zero.bits == 0
                && zero.fixed == "0.0000"@ && zero.debug == "0.0"@)
            &&& bits <= 0x7ff0_0000_0000_0000 || 0x8000_0000_0000_0000 < bits
                <= 0xfff0_0000_0000_0000 ==> kept == Some(score)
        },
    }
}

proof fn lemma_number_of(teams: Seq<TeamView>, last: i64, name: Seq<char>)
    requires
        laws::teams_valid(teams, last),
        insert::id_named(teams, name) is Some,
    ensures
        is_number_of(teams, insert::id_named(teams, name).unwrap(), name),
{
    let id = insert::id_named(teams, name).unwrap();
    let i = laws::lemma_id_index(teams, name);
    assert(teams[i].id == id);
    assert forall|t: int| 0 <= t < teams.len() && (#[trigger] teams[t]).id == id implies teams[t].name
        == name by {
        if t < i {
            assert(teams[t].id < teams[i].id);
        } else if i < t {
            assert(teams[i].id < teams[t].id);
        }
    }
}

/// A snapshot is stored in full and under the next number: itself, an entry with
/// the values of each row, an empty entry for each dropped team, and each event
/// with its values. All that was stored before stays in front.
pub proof fn snapshot_is_stored_in_full(
    s: StoreView,
    date: Option<Seq<char>>,
    rows: Seq<RowView>,
    diff: DiffView,
    time: Seq<char>,
)
    requires
        laws::valid(s),
        insert::snapshot_inserted(s, date, rows, diff, time) is Ok,
    ensures
        ({
            let t = insert::snapshot_inserted(s, date, rows, diff, time)->Ok_0;
            let id = t.snapshot_seq;
            let a = s.entries.len() as int;
            let b = s.events.len() as int;
            let dropped = diff.dropped_team_ids;
            &&& id == s.snapshot_seq + 1
            &&& t.event_seq == s.event_seq + diff.events.len()
            &&& t.snapshots.len() == s.snapshots.len() + 1
            &&& t.snapshots.take(s.snapshots.len() as int) == s.snapshots
            &&& t.snapshots[s.snapshots.len() as int] == (SnapshotView {
                id,
                fetched_at: time,
                source_updated_at: date,
                content_hash: diff.content_hash,
                row_count: rows.len() as i64,
            })
            &&& t.entries.len() == a + rows.len() + dropped.len()
            &&& t.entries.take(a) == s.entries
            &&& forall|i: int|
                0 <= i < rows.len() ==> {
                    let row = #[trigger] rows[i];
                    let entry = t.entries[a + i];
                    &&& entry.snapshot_id == id
                    &&& is_number_of(t.teams, entry.team_id, row.team_id)
                    &&& entry.rank == Some(row.rank)
                    &&& is_kept(Some(row.score), entry.score)
                    &&& entry.version == Some(row.version)
                    &&& entry.present
                }
            &&& forall|i: int|
                0 <= i < dropped.len() ==> {
                    let name = #[trigger] dropped[i];
                    let entry = t.entries[a + rows.len() + i];
                    &&& entry.snapshot_id == id
                    &&& is_number_of(t.teams, entry.team_id, name)
                    &&& entry.rank is None
                    &&& entry.score is None
                    &&& entry.version is None
                    &&& !entry.present
                }
            &&& t.events.len() == b + diff.events.len()
            &&& t.events.take(b) == s.events
            &&& forall|i: int|
                0 <= i < diff.events.len() ==> {
                    let event = #[trigger] diff.events[i];
                    let stored = t.events[b + i];
                    &&& stored.id == s.event_seq + 1 + i
                    &&& stored.snapshot_id == id
                    &&& is_number_of(t.teams, stored.team_id, event.team_id)
                    &&& stored.event_type == diff::event_name(event.event_type)
                    &&& stored.old_rank == event.old_rank
                    &&& stored.new_rank == event.new_rank
                    &&& is_kept(event.old_score, stored.old_score)
                    &&& is_kept(event.new_score, stored.new_score)
                    &&& stored.old_version == event.old_version
                    &&& stored.new_version == event.new_version
                }
        }),
{
    laws::insertion_appends(s, date, rows, diff, time);
    let t = insert::snapshot_inserted(s, date, rows, diff, time)->Ok_0;
    let id = t.snapshot_seq;
    let a = s.entries.len() as int;
    let b = s.events.len() as int;
    let dropped = diff.dropped_team_ids;
    let listed = laws::entries_of_rows(t.teams, rows, id);
    let lost = laws::entries_of_drops(t.teams, dropped, id);
    let stored = laws::stored_events(t.teams, diff.events, s.event_seq + 1, id);
    assert(t.snapshots.take(s.snapshots.len() as int) =~= s.snapshots);
    assert(t.entries.take(a) =~= s.entries);
    assert(t.events.take(b) =~= s.events);
    assert forall|i: int| 0 <= i < rows.len() implies t.entries[a + i] == insert::listed_entry(
        #[trigger] rows[i],
        id,
        insert::id_named(t.teams, rows[i].team_id).unwrap(),
    ) && is_number_of(t.teams, t.entries[a + i].team_id, rows[i].team_id) by {
        assert(t.entries[a + i] == listed[i]);
        assert(insert::id_named(t.teams, rows[i].team_id) is Some);
        lemma_number_of(t.teams, t.team_seq, rows[i].team_id);
    }
    assert forall|i: int| 0 <= i < dropped.len() implies t.entries[a + rows.len() + i]
        == insert::dropped_entry(id, insert::id_named(t.teams, #[trigger] dropped[i]).unwrap())
        && is_number_of(t.teams, t.entries[a + rows.len() + i].team_id, dropped[i]) by {
        assert(t.entries[a + rows.len() + i] == lost[i]);
        assert(insert::id_named(t.teams, dropped[i]) is Some);
        lemma_number_of(t.teams, t.team_seq, dropped[i]);
    }
    assert forall|i: int| 0 <= i < diff.events.len() implies t.events[b + i]
        == insert::stored_event(
        #[trigger] diff.events[i],
        (s.event_seq + 1 + i) as i64,
        id,
        insert::id_named(t.teams, diff.events[i].team_id).unwrap(),
    ) && is_number_of(t.teams, t.events[b + i].team_id, diff.events[i].team_id) by {
        assert(t.events[b + i] == stored[i]);
        assert(insert::id_named(t.teams, diff.events[i].team_id) is Some);
        lemma_number_of(t.teams, t.team_seq, diff.events[i].team_id);
    }
}

/// Whether `later` are the teams after those of the set were seen at that time:
/// these have the time as that of their last occurrence, new ones also as that of
/// their first; the others stay as they are.
pub open spec fn were_seen(
    earlier: Seq<TeamView>,
    later: Seq<TeamView>,
    names: Set<Seq<char>>,
    time: Seq<char>,
) -> bool {
    &&& earlier.len() <= later.len()
    &&& forall|i: int|
        0 <= i < earlier.len() ==> {
            let team = #[trigger] later[i];
            &&& team.id == earlier[i].id
            &&& team.name == earlier[i].name
            &&& team.first_seen_at == earlier[i].first_seen_at
            &&& names.contains(team.name) ==> team.last_seen_at == time
            &&& !names.contains(team.name) ==> team.last_seen_at == earlier[i].last_seen_at
        }
    &&& forall|i: int|
        earlier.len() <= i < later.len() ==> {
            let team = #[trigger] later[i];
            names.contains(team.name) && team.first_seen_at == time && team.last_seen_at == time
        }
    &&& forall|name: Seq<char>| #[trigger]
        names.contains(name) ==> exists|i: int|
            0 <= i < later.len() && (#[trigger] later[i]).name == name
}

proof fn lemma_seen_both(
    a: Seq<TeamView>,
    b: Seq<TeamView>,
    c: Seq<TeamView>,
    first: Set<Seq<char>>,
    second: Set<Seq<char>>,
    time: Seq<char>,
)
    requires
        were_seen(a, b, first, time),
        were_seen(b, c, second, time),
    ensures
        were_seen(a, c, first.union(second), time),
{
    let names = first.union(second);
    assert forall|i: int| 0 <= i < a.len() implies ({
        let team = #[trigger] c[i];
        &&& team.id == a[i].id
        &&& team.name == a[i].name
        &&& team.first_seen_at == a[i].first_seen_at
        &&& names.contains(team.name) ==> team.last_seen_at == time
        &&& !names.contains(team.name) ==> team.last_seen_at == a[i].last_seen_at
    }) by {
        assert(b[i].id == a[i].id);
    }
    assert forall|i: int| a.len() <= i < c.len() implies ({
        let team = #[trigger] c[i];
        names.contains(team.name) && team.first_seen_at == time && team.last_seen_at == time
    }) by {
        if i < b.len() {
            assert(first.contains(b[i].name));
        }
    }
    assert forall|name: Seq<char>| #[trigger] names.contains(name) implies exists|i: int|
        0 <= i < c.len() && (#[trigger] c[i]).name == name by {
        if first.contains(name) {
            let i = choose|i: int| 0 <= i < b.len() && (#[trigger] b[i]).name == name;
            assert(c[i].name == name);
        }
    }
}

proof fn lemma_team_seen(s: StoreView, name: Seq<char>, time: Seq<char>)
    requires
        insert::team_seen(s, name, time) is Ok,
    ensures
        were_seen(
            s.teams,
            insert::team_seen(s, name, time)->Ok_0.teams,
            Set::empty().insert(name),
            time,
        ),
{
    let t = insert::team_seen(s, name, time)->Ok_0;
    if insert::id_named(s.teams, name) is Some {
        let i = laws::lemma_id_index(s.teams, name);
        assert(t.teams[i].name == name);
    } else {
        assert(t.teams[s.teams.len() as int].name == name);
        assert forall|i: int| 0 <= i < s.teams.len() implies (#[trigger] t.teams[i]).name != name
            && t.teams[i] == s.teams[i] by {
            lemma_not_named(s.teams, name, i);
        }
    }
}

proof fn lemma_not_named(teams: Seq<TeamView>, name: Seq<char>, i: int)
    requires
        insert::id_named(teams, name) is None,
        0 <= i < teams.len(),
    ensures
        teams[i].name != name,
    decreases teams.len(),
{
    if i < teams.len() - 1 {
        lemma_not_named(teams.drop_last(), name, i);
    }
}

/// The names of the rows.
pub open spec fn names_listed(rows: Seq<RowView>) -> Set<Seq<char>> {
    Set::new(|name: Seq<char>| exists|i: int| 0 <= i < rows.len() && (#[trigger] rows[i]).team_id == name)
}

/// The names of the events.
pub open spec fn names_told(events: Seq<EventView>) -> Set<Seq<char>> {
    Set::new(
        |name: Seq<char>|
            exists|i: int| 0 <= i < events.len() && (#[trigger] events[i]).team_id == name,
    )
}

proof fn lemma_rows_seen(s: StoreView, rows: Seq<RowView>, id: i64, time: Seq<char>)
    requires
        insert::rows_added(s, rows, id, time) is Ok,
    ensures
        were_seen(
            s.teams,
            insert::rows_added(s, rows, id, time)->Ok_0.teams,
            names_listed(rows),
            time,
        ),
    decreases rows.len(),
{
    if rows.len() > 0 {
        let rest = rows.drop_last();
        let last = rows.len() - 1;
        lemma_rows_seen(s, rest, id, time);
        let m = insert::rows_added(s, rest, id, time)->Ok_0;
        lemma_team_seen(m, rows.last().team_id, time);
        let u = insert::team_seen(m, rows.last().team_id, time)->Ok_0;
        let one = Set::empty().insert(rows.last().team_id);
        lemma_seen_both(s.teams, m.teams, u.teams, names_listed(rest), one, time);
        assert forall|name: Seq<char>| names_listed(rows).contains(name) <==> names_listed(
            rest,
        ).union(one).contains(name) by {
            if names_listed(rest).contains(name) {
                let i = choose|i: int| 0 <= i < rest.len() && (#[trigger] rest[i]).team_id == name;
                assert(rows[i].team_id == name);
            }
            assert(rows[last].team_id == rows.last().team_id);
            if names_listed(rows).contains(name) && name != rows.last().team_id {
                let i = choose|i: int| 0 <= i < rows.len() && (#[trigger] rows[i]).team_id == name;
                assert(rest[i].team_id == name);
            }
        }
        assert(names_listed(rows) =~= names_listed(rest).union(one));
    }
}

proof fn lemma_drops_seen(s: StoreView, names: Seq<Seq<char>>, id: i64, time: Seq<char>)
    requires
        insert::drops_added(s, names, id, time) is Ok,
    ensures
        were_seen(
            s.teams,
            insert::drops_added(s, names, id, time)->Ok_0.teams,
            names.to_set(),
            time,
        ),
    decreases names.len(),
{
    if names.len() > 0 {
        let rest = names.drop_last();
        let last = names.len() - 1;
        lemma_drops_seen(s, rest, id, time);
        let m = insert::drops_added(s, rest, id, time)->Ok_0;
        lemma_team_seen(m, names.last(), time);
        let u = insert::team_seen(m, names.last(), time)->Ok_0;
        let one = Set::empty().insert(names.last());
        lemma_seen_both(s.teams, m.teams, u.teams, rest.to_set(), one, time);
        assert forall|name: Seq<char>| names.to_set().contains(name) <==> rest.to_set().union(
            one,
        ).contains(name) by {
            if rest.contains(name) {
                let i = choose|i: int| 0 <= i < rest.len() && rest[i] == name;
                assert(names[i] == name);
            }
            assert(names[last] == names.last());
            if names.contains(name) && name != names.last() {
                let i = choose|i: int| 0 <= i < names.len() && names[i] == name;
                assert(rest[i] == name);
            }
        }
        assert(names.to_set() =~= rest.to_set().union(one));
    }
}

proof fn lemma_events_seen(
    s: StoreView,
    events: Seq<EventView>,
    rows: Seq<RowView>,
    id: i64,
    time: Seq<char>,
)
    requires
        insert::events_added(s, events, rows, id, time) is Ok,
    ensures
        were_seen(
            s.teams,
            insert::events_added(s, events, rows, id, time)->Ok_0.teams,
            names_told(events).difference(names_listed(rows)),
            time,
        ),
    decreases events.len(),
{
    let listed = names_listed(rows);
    if events.len() > 0 {
        let rest = events.drop_last();
        let last = events.len() - 1;
        let name = events.last().team_id;
        lemma_events_seen(s, rest, rows, id, time);
        let m = insert::events_added(s, rest, rows, id, time)->Ok_0;
        let before = names_told(rest).difference(listed);
        let all = names_told(events).difference(listed);
        assert forall|n: Seq<char>| names_told(events).contains(n) <==> names_told(rest).contains(n)
            || n == name by {
            if names_told(rest).contains(n) {
                let i = choose|i: int| 0 <= i < rest.len() && (#[trigger] rest[i]).team_id == n;
                assert(events[i].team_id == n);
            }
            assert(events[last].team_id == name);
            if names_told(events).contains(n) && n != name {
                let i = choose|i: int| 0 <= i < events.len() && (#[trigger] events[i]).team_id == n;
                assert(rest[i].team_id == n);
            }
        }
        if diff::lists_team(rows, name) {
            let i = choose|i: int| 0 <= i < rows.len() && #[trigger] rows[i].team_id == name;
            assert(rows[i].team_id == name);
            assert(listed.contains(name));
            assert(all =~= before);
        } else {
            assert(!listed.contains(name));
            lemma_team_seen(m, name, time);
            let u = insert::team_seen(m, name, time)->Ok_0;
            let one = Set::empty().insert(name);
            lemma_seen_both(s.teams, m.teams, u.teams, before, one, time);
            assert(all =~= before.union(one));
        }
    } else {
        assert(names_told(events).difference(listed) =~= Set::empty());
    }
}

/// When a snapshot is added, exactly the listed teams, the dropped teams and the
/// teams of the events are seen at its time.
pub proof fn teams_of_a_snapshot_are_seen(
    s: StoreView,
    date: Option<Seq<char>>,
    rows: Seq<RowView>,
    diff: DiffView,
    time: Seq<char>,
)
    requires
        insert::snapshot_inserted(s, date, rows, diff, time) is Ok,
    ensures
        were_seen(
            s.teams,
            insert::snapshot_inserted(s, date, rows, diff, time)->Ok_0.teams,
            names_listed(rows).union(diff.dropped_team_ids.to_set()).union(
                names_told(diff.events),
            ),
            time,
        ),
{
    let opened = insert::snapshot_opened(s, date, diff.content_hash, rows.len(), time)->Ok_0;
    let id = opened.snapshot_seq;
    let names = diff.dropped_team_ids;
    lemma_rows_seen(opened, rows, id, time);
    let listed = insert::rows_added(opened, rows, id, time)->Ok_0;
    lemma_drops_seen(listed, names, id, time);
    let dropped = insert::drops_added(listed, names, id, time)->Ok_0;
    lemma_events_seen(dropped, diff.events, rows, id, time);
    let t = insert::events_added(dropped, diff.events, rows, id, time)->Ok_0;
    let first = names_listed(rows);
    let second = names.to_set();
    let third = names_told(diff.events).difference(first);
    lemma_seen_both(s.teams, listed.teams, dropped.teams, first, second, time);
    lemma_seen_both(s.teams, dropped.teams, t.teams, first.union(second), third, time);
    assert(first.union(second).union(third) =~= first.union(second).union(
        names_told(diff.events),
    ));
}

/// The kinds of events are stored under these words.
pub proof fn events_are_stored_under_their_names()
    ensures
        diff::event_name(EventType::NewTeam) == "new_team"@,
        diff::event_name(EventType::DroppedTeam) == "dropped_team"@,
        diff::event_name(EventType::RankChanged) == "rank_changed"@,
        diff::event_name(EventType::ScoreChanged) == "score_changed"@,
        diff::event_name(EventType::VersionChanged) == "version_changed"@,
        diff::event_name(EventType::MultiChanged) == "multi_changed"@,
{
}

}
