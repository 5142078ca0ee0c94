//! Adding a snapshot to the history.
use crate::clock::{self, now};
use crate::db::laws;
use crate::db::{
    EntryRecord, EntryView, EventRecord, SnapshotRecord, SnapshotView, Store, StoreError,
    StoreView, StoredEventView, TeamRecord, TeamView,
};
use crate::diff::{self, DiffResult, DiffView, EventView, TeamEvent};
use crate::parse::{LeaderboardRow, RowView};
use crate::score::{self, bits_are_nan, Score, ScoreView, SIGN_BIT};
use crate::text::same_text;
use vstd::prelude::*;

verus! {

/// The number of the team of that name.
pub open spec fn id_named(teams: Seq<TeamView>, name: Seq<char>) -> Option<i64>
    decreases teams.len(),
{
    if teams.len() == 0 {
        None
    } else if teams.last().name == name {
        Some(teams.last().id)
    } else {
        id_named(teams.drop_last(), name)
    }
}

/// Records that a team was seen: a known team gets the time as that of its last
/// occurrence, an unknown one is added. Either way the numbering of the teams
/// moves on by one.
pub open spec fn team_seen(s: StoreView, name: Seq<char>, time: Seq<char>) -> Result<
    StoreView,
    StoreError,
> {
    if s.team_seq == i64::MAX {
        Err(StoreError::Full)
    } else {
        let number = (s.team_seq + 1) as i64;
        let teams = if id_named(s.teams, name) is Some {
            s.teams.map_values(
                |t: TeamView|
                    if t.name == name {
                        TeamView { last_seen_at: time, ..t }
                    } else {
                        t
                    },
            )
        } else {
            s.teams.push(
                TeamView { id: number, name, first_seen_at: time, last_seen_at: time },
            )
        };
        Ok(StoreView { teams, team_seq: number, ..s })
    }
}

/// Whether the snapshot already holds an entry of the team.
pub open spec fn has_entry(entries: Seq<EntryView>, snapshot_id: i64, team_id: i64) -> bool {
    exists|i: int|
        0 <= i < entries.len() && (#[trigger] entries[i]).snapshot_id == snapshot_id
            && entries[i].team_id == team_id
}

/// A score as the history keeps it: not-a-number is kept as no value, and
/// negative zero as zero.
pub open spec fn kept_score(score: ScoreView) -> Option<ScoreView> {
    if score::is_nan(score.bits) {
        None
    } else if score.bits == SIGN_BIT {
        Some(ScoreView { bits: 0, fixed: "0.0000"@, debug: "0.0"@ })
    } else {
        Some(score)
    }
}

/// A score that may be missing, as the history keeps it.
pub open spec fn kept(score: Option<ScoreView>) -> Option<ScoreView> {
    match score {
        Some(score) => kept_score(score),
        None => None,
    }
}

/// What a snapshot records of a listed team.
pub open spec fn listed_entry(row: RowView, snapshot_id: i64, team_id: i64) -> EntryView {
    EntryView {
        snapshot_id,
        team_id,
        rank: Some(row.rank),
        score: kept_score(row.score),
        version: Some(row.version),
        present: true,
    }
}

/// What a snapshot records of a team that was dropped.
pub open spec fn dropped_entry(snapshot_id: i64, team_id: i64) -> EntryView {
    EntryView { snapshot_id, team_id, rank: None, score: None, version: None, present: false }
}

/// Adds an entry, unless the snapshot already holds one of the team.
pub open spec fn entry_added(s: StoreView, entry: EntryView) -> Result<StoreView, StoreError> {
    if has_entry(s.entries, entry.snapshot_id, entry.team_id) {
        Err(StoreError::DuplicateEntry)
    } else {
        Ok(StoreView { entries: s.entries.push(entry), ..s })
    }
}

/// Adds the entry of one listed team.
pub open spec fn row_added(s: StoreView, row: RowView, snapshot_id: i64, time: Seq<char>) -> Result<
    StoreView,
    StoreError,
> {
    match team_seen(s, row.team_id, time) {
        Ok(t) => entry_added(
            t,
            listed_entry(row, snapshot_id, id_named(t.teams, row.team_id).unwrap()),
        ),
        Err(e) => Err(e),
    }
}

/// Adds the entries of the listed teams, in order.
pub open spec fn rows_added(
    s: StoreView,
    rows: Seq<RowView>,
    snapshot_id: i64,
    time: Seq<char>,
) -> Result<StoreView, StoreError>
    decreases rows.len(),
{
    if rows.len() == 0 {
        Ok(s)
    } else {
        match rows_added(s, rows.drop_last(), snapshot_id, time) {
            Ok(t) => row_added(t, rows.last(), snapshot_id, time),
            Err(e) => Err(e),
        }
    }
}

/// Adds the entry of one team that was dropped.
pub open spec fn drop_added(s: StoreView, name: Seq<char>, snapshot_id: i64, time: Seq<char>) -> Result<
    StoreView,
    StoreError,
> {
    match team_seen(s, name, time) {
        Ok(t) => entry_added(t, dropped_entry(snapshot_id, id_named(t.teams, name).unwrap())),
        Err(e) => Err(e),
    }
}

/// Adds the entries of the teams that were dropped, in order.
pub open spec fn drops_added(
    s: StoreView,
    names: Seq<Seq<char>>,
    snapshot_id: i64,
    time: Seq<char>,
) -> Result<StoreView, StoreError>
    decreases names.len(),
{
    if names.len() == 0 {
        Ok(s)
    } else {
        match drops_added(s, names.drop_last(), snapshot_id, time) {
            Ok(t) => drop_added(t, names.last(), snapshot_id, time),
            Err(e) => Err(e),
        }
    }
}

/// An event as the history keeps it.
pub open spec fn stored_event(event: EventView, id: i64, snapshot_id: i64, team_id: i64) -> StoredEventView {
    StoredEventView {
        id,
        snapshot_id,
        team_id,
        event_type: diff::event_name(event.event_type),
        old_rank: event.old_rank,
        new_rank: event.new_rank,
        old_score: kept(event.old_score),
        new_score: kept(event.new_score),
        old_version: event.old_version,
        new_version: event.new_version,
    }
}

/// Adds one event. The time of a team that no row lists is recorded anew.
pub open spec fn event_added(
    s: StoreView,
    event: EventView,
    rows: Seq<RowView>,
    snapshot_id: i64,
    time: Seq<char>,
) -> Result<StoreView, StoreError> {
    let seen = if diff::lists_team(rows, event.team_id) {
        Ok(s)
    } else {
        team_seen(s, event.team_id, time)
    };
    match seen {
        Ok(t) => if t.event_seq == i64::MAX {
            Err(StoreError::Full)
        } else {
            let number = (t.event_seq + 1) as i64;
            let team_id = id_named(t.teams, event.team_id).unwrap();
            Ok(
                StoreView {
                    events: t.events.push(stored_event(event, number, snapshot_id, team_id)),
                    event_seq: number,
                    ..t
                },
            )
        },
        Err(e) => Err(e),
    }
}

/// Adds the events, in order.
pub open spec fn events_added(
    s: StoreView,
    events: Seq<EventView>,
    rows: Seq<RowView>,
    snapshot_id: i64,
    time: Seq<char>,
) -> Result<StoreView, StoreError>
    decreases events.len(),
{
    if events.len() == 0 {
        Ok(s)
    } else {
        match events_added(s, events.drop_last(), rows, snapshot_id, time) {
            Ok(t) => event_added(t, events.last(), rows, snapshot_id, time),
            Err(e) => Err(e),
        }
    }
}

/// Opens a new snapshot under the next number.
pub open spec fn snapshot_opened(
    s: StoreView,
    source_updated_at: Option<Seq<char>>,
    content_hash: Seq<char>,
    row_count: nat,
    time: Seq<char>,
) -> Result<StoreView, StoreError> {
    if s.snapshot_seq == i64::MAX {
        Err(StoreError::Full)
    } else {
        let number = (s.snapshot_seq + 1) as i64;
        Ok(
            StoreView {
                snapshots: s.snapshots.push(
                    SnapshotView {
                        id: number,
                        fetched_at: time,
                        source_updated_at,
                        content_hash,
                        row_count: row_count as i64,
                    },
                ),
                snapshot_seq: number,
                ..s
            },
        )
    }
}

/// The history with one snapshot more: the snapshot itself, the entries of the
/// listed teams, those of the dropped teams, and the events.
pub open spec fn snapshot_inserted(
    s: StoreView,
    source_updated_at: Option<Seq<char>>,
    rows: Seq<RowView>,
    diff: DiffView,
    time: Seq<char>,
) -> Result<StoreView, StoreError> {
    match snapshot_opened(s, source_updated_at, diff.content_hash, rows.len(), time) {
        Err(e) => Err(e),
        Ok(opened) => {
            let id = opened.snapshot_seq;
            match rows_added(opened, rows, id, time) {
                Err(e) => Err(e),
                Ok(listed) => match drops_added(listed, diff.dropped_team_ids, id, time) {
                    Err(e) => Err(e),
                    Ok(dropped) => events_added(dropped, diff.events, rows, id, time),
                },
            }
        },
    }
}

/// Finds the number of the team of that name.
pub fn team_number(teams: &Vec<TeamRecord>, name: &str) -> (id: Option<i64>)
    ensures
        id == id_named(teams.deep_view(), name@),
{
    let ghost all = teams.deep_view();
    let mut i: usize = teams.len();
    assert(all.take(i as int) =~= all);
    while i > 0
        invariant
            i <= teams@.len(),
            all == teams.deep_view(),
            id_named(all.take(i as int), name@) == id_named(all, name@),
        decreases i,
    {
        proof {
            assert(all.take(i as int).last() == teams@[i - 1].deep_view());
            assert(all.take(i as int).drop_last() =~= all.take(i - 1));
        }
        i -= 1;
        if same_text(teams[i].external_team_id.as_str(), name) {
            return Some(teams[i].id);
        }
    }
    None
}

proof fn lemma_seen_is_named(s: StoreView, name: Seq<char>, time: Seq<char>)
    requires
        team_seen(s, name, time) is Ok,
    ensures
        id_named(team_seen(s, name, time)->Ok_0.teams, name) is Some,
        id_named(s.teams, name) is Some ==> id_named(team_seen(s, name, time)->Ok_0.teams, name)
            == id_named(s.teams, name),
        id_named(s.teams, name) is None ==> id_named(team_seen(s, name, time)->Ok_0.teams, name)
            == Some((s.team_seq + 1) as i64),
{
    let after = team_seen(s, name, time)->Ok_0.teams;
    if id_named(s.teams, name) is Some {
        lemma_same_names(s.teams, after, name);
    } else {
        assert(after.last().name == name);
    }
}

/// Two lists of teams with the same names and numbers name the same teams.
pub proof fn lemma_same_names(a: Seq<TeamView>, b: Seq<TeamView>, name: Seq<char>)
    requires
        a.len() == b.len(),
        forall|i: int|
            0 <= i < a.len() ==> (#[trigger] a[i]).name == b[i].name && a[i].id == b[i].id,
    ensures
        id_named(a, name) == id_named(b, name),
    decreases a.len(),
{
    if a.len() > 0 {
        assert(a[a.len() - 1].name == b[a.len() - 1].name);
        assert forall|i: int| 0 <= i < a.drop_last().len() implies (#[trigger] a.drop_last()[i]).name
            == b.drop_last()[i].name && a.drop_last()[i].id == b.drop_last()[i].id by {
            assert(a[i].name == b[i].name);
        }
        lemma_same_names(a.drop_last(), b.drop_last(), name);
    }
}

/// Records that a team was seen, and gives its number.
pub fn upsert_team(store: &mut Store, team_id: &str, timestamp: &str) -> (number: Result<
    i64,
    StoreError,
>)
    ensures
        match (number, team_seen(old(store).deep_view(), team_id@, timestamp@)) {
            (Ok(id), Ok(after)) => final(store).deep_view() == after && id_named(
                after.teams,
                team_id@,
            ) == Some(id),
            (Err(e), Err(expected)) => e == expected && *final(store) == *old(store),
            _ => false,
        },
{
    if store.team_seq == i64::MAX {
        return Err(StoreError::Full);
    }
    let ghost before = store.deep_view();
    proof {
        lemma_seen_is_named(before, team_id@, timestamp@);
    }
    let known = team_number(&store.teams, team_id);
    let next: i64 = store.team_seq + 1;
    let number = match known {
        Some(id) => {
            let ghost touch = |t: TeamView|
                if t.name == team_id@ {
                    TeamView { last_seen_at: timestamp@, ..t }
                } else {
                    t
                };
            let mut teams: Vec<TeamRecord> = Vec::new();
            let mut i: usize = 0;
            while i < store.teams.len()
                invariant
                    i <= store.teams@.len(),
                    before == store.deep_view(),
                    touch == (|t: TeamView|
                        if t.name == team_id@ {
                            TeamView { last_seen_at: timestamp@, ..t }
                        } else {
                            t
                        }),
                    teams.deep_view() =~= before.teams.take(i as int).map_values(touch),
                decreases store.teams@.len() - i,
            {
                let team = &store.teams[i];
                let ghost done = teams.deep_view();
                let seen = same_text(team.external_team_id.as_str(), team_id);
                let record = TeamRecord {
                    id: team.id,
                    external_team_id: team.external_team_id.clone(),
                    first_seen_at: team.first_seen_at.clone(),
                    last_seen_at: if seen {
                        timestamp.to_owned()
                    } else {
                        team.last_seen_at.clone()
                    },
                };
                let ghost view = record.deep_view();
                teams.push(record);
                proof {
                    assert(before.teams[i as int] == team.deep_view());
                    assert(view == touch(before.teams[i as int]));
                    assert(teams.deep_view() =~= done.push(view));
                }
                i += 1;
            }
            assert(before.teams.take(i as int) =~= before.teams);
            store.teams = teams;
            id
        },
        None => {
            let record = TeamRecord {
                id: next,
                external_team_id: team_id.to_owned(),
                first_seen_at: timestamp.to_owned(),
                last_seen_at: timestamp.to_owned(),
            };
            let ghost view = record.deep_view();
            store.teams.push(record);
            assert(store.teams.deep_view() =~= before.teams.push(view));
            next
        },
    };
    store.team_seq = next;
    assert(store.deep_view() =~~= team_seen(before, team_id@, timestamp@)->Ok_0);
    Ok(number)
}

/// Recording a team leaves the numbers of the known teams as they are.
pub proof fn lemma_seen_keeps_numbers(s: StoreView, name: Seq<char>, time: Seq<char>, other: Seq<char>)
    requires
        team_seen(s, name, time) is Ok,
        id_named(s.teams, other) is Some,
    ensures
        id_named(team_seen(s, name, time)->Ok_0.teams, other) == id_named(s.teams, other),
{
    let after = team_seen(s, name, time)->Ok_0.teams;
    if id_named(s.teams, name) is Some {
        lemma_same_names(s.teams, after, other);
    } else {
        assert(after.drop_last() =~= s.teams);
    }
}

/// Whether every listed team is known.
pub open spec fn all_named(teams: Seq<TeamView>, rows: Seq<RowView>) -> bool {
    forall|i: int| 0 <= i < rows.len() ==> id_named(teams, (#[trigger] rows[i]).team_id) is Some
}

proof fn lemma_seen_keeps_all(s: StoreView, name: Seq<char>, time: Seq<char>, rows: Seq<RowView>)
    requires
        team_seen(s, name, time) is Ok,
        all_named(s.teams, rows),
    ensures
        all_named(team_seen(s, name, time)->Ok_0.teams, rows),
{
    assert forall|i: int| 0 <= i < rows.len() implies id_named(
        team_seen(s, name, time)->Ok_0.teams,
        (#[trigger] rows[i]).team_id,
    ) is Some by {
        lemma_seen_keeps_numbers(s, name, time, rows[i].team_id);
    }
}

/// A score as the history keeps it.
pub fn keep_score(score: &Score) -> (out: Option<Score>)
    ensures
        out.deep_view() == kept_score(score.deep_view()),
{
    if bits_are_nan(score.bits) {
        None
    } else if score.bits == SIGN_BIT {
        Some(Score { bits: 0, fixed: "0.0000".to_owned(), debug: "0.0".to_owned() })
    } else {
        Some(score.clone())
    }
}

fn keep(score: &Option<Score>) -> (out: Option<Score>)
    ensures
        out.deep_view() == kept(score.deep_view()),
{
    match score {
        Some(score) => keep_score(score),
        None => None,
    }
}

fn entry_exists(store: &Store, snapshot_id: i64, team_id: i64) -> (found: bool)
    ensures
        found == has_entry(store.deep_view().entries, snapshot_id, team_id),
{
    let ghost all = store.deep_view().entries;
    let mut i: usize = 0;
    while i < store.entries.len()
        invariant
            i <= store.entries@.len(),
            all == store.deep_view().entries,
            forall|k: int|
                0 <= k < i ==> !((#[trigger] all[k]).snapshot_id == snapshot_id && all[k].team_id
                    == team_id),
        decreases store.entries@.len() - i,
    {
        assert(all[i as int] == store.entries@[i as int].deep_view());
        if store.entries[i].snapshot_id == snapshot_id && store.entries[i].team_id == team_id {
            return true;
        }
        i += 1;
    }
    false
}

fn add_entry(store: &mut Store, entry: EntryRecord) -> (result: Result<(), StoreError>)
    ensures
        match (result, entry_added(old(store).deep_view(), entry.deep_view())) {
            (Ok(_), Ok(after)) => final(store).deep_view() == after,
            (Err(e), Err(expected)) => e == expected,
            _ => false,
        },
{
    if entry_exists(store, entry.snapshot_id, entry.team_id) {
        return Err(StoreError::DuplicateEntry);
    }
    let ghost before = store.deep_view();
    let ghost view = entry.deep_view();
    store.entries.push(entry);
    proof {
        assert(store.entries.deep_view() =~= before.entries.push(view));
        assert(store.deep_view() =~~= entry_added(before, view)->Ok_0);
    }
    Ok(())
}

fn add_row(store: &mut Store, row: &LeaderboardRow, snapshot_id: i64, fetched_at: &str) -> (result: Result<
    (),
    StoreError,
>)
    ensures
        match (result, row_added(old(store).deep_view(), row.deep_view(), snapshot_id, fetched_at@)) {
            (Ok(_), Ok(after)) => final(store).deep_view() == after,
            (Err(e), Err(expected)) => e == expected,
            _ => false,
        },
{
    match upsert_team(store, row.team_id.as_str(), fetched_at) {
        Ok(team_id) => {
            let entry = EntryRecord {
                snapshot_id,
                team_id,
                rank: Some(row.rank),
                score: keep_score(&row.score),
                version: Some(row.version.clone()),
                present: true,
            };
            assert(entry.deep_view() == listed_entry(row.deep_view(), snapshot_id, team_id));
            add_entry(store, entry)
        },
        Err(e) => Err(e),
    }
}

fn add_rows(store: &mut Store, rows: &Vec<LeaderboardRow>, snapshot_id: i64, fetched_at: &str) -> (result: Result<
    (),
    StoreError,
>)
    ensures
        match (
            result,
            rows_added(old(store).deep_view(), rows.deep_view(), snapshot_id, fetched_at@),
        ) {
            (Ok(_), Ok(after)) => final(store).deep_view() == after && all_named(
                after.teams,
                rows.deep_view(),
            ),
            (Err(e), Err(expected)) => e == expected,
            _ => false,
        },
{
    let ghost start = store.deep_view();
    let ghost all = rows.deep_view();
    let mut i: usize = 0;
    assert(all.take(0) =~= Seq::<RowView>::empty());
    while i < rows.len()
        invariant
            i <= rows@.len(),
            start == old(store).deep_view(),
            all == rows.deep_view(),
            rows_added(start, all.take(i as int), snapshot_id, fetched_at@) == Ok::<
                StoreView,
                StoreError,
            >(store.deep_view()),
            all_named(store.deep_view().teams, all.take(i as int)),
        decreases rows@.len() - i,
    {
        let ghost before = store.deep_view();
        proof {
            assert(all.take(i + 1).drop_last() =~= all.take(i as int));
            assert(all.take(i + 1).last() == rows@[i as int].deep_view());
        }
        let added = add_row(store, &rows[i], snapshot_id, fetched_at);
        if let Err(e) = added {
            proof {
                lemma_rows_fail_early(start, all, i + 1, snapshot_id, fetched_at@);
            }
            return Err(e);
        }
        proof {
            let name = all[i as int].team_id;
            lemma_seen_keeps_all(before, name, fetched_at@, all.take(i as int));
            lemma_seen_is_named(before, name, fetched_at@);
            let teams = store.deep_view().teams;
            assert forall|k: int| 0 <= k < i + 1 implies id_named(
                teams,
                (#[trigger] all.take(i + 1)[k]).team_id,
            ) is Some by {
                if k < i {
                    assert(all.take(i + 1)[k] == all.take(i as int)[k]);
                }
            }
        }
        i += 1;
    }
    assert(all.take(i as int) =~= all);
    Ok(())
}

proof fn lemma_rows_fail_early(s: StoreView, rows: Seq<RowView>, k: int, snapshot_id: i64, time: Seq<char>)
    requires
        0 <= k <= rows.len(),
        rows_added(s, rows.take(k), snapshot_id, time) is Err,
    ensures
        rows_added(s, rows, snapshot_id, time) == rows_added(s, rows.take(k), snapshot_id, time),
    decreases rows.len(),
{
    if k < rows.len() {
        assert(rows.drop_last().take(k) =~= rows.take(k));
        lemma_rows_fail_early(s, rows.drop_last(), k, snapshot_id, time);
    } else {
        assert(rows.take(k) =~= rows);
    }
}

proof fn lemma_drops_fail_early(s: StoreView, names: Seq<Seq<char>>, k: int, snapshot_id: i64, time: Seq<char>)
    requires
        0 <= k <= names.len(),
        drops_added(s, names.take(k), snapshot_id, time) is Err,
    ensures
        drops_added(s, names, snapshot_id, time) == drops_added(s, names.take(k), snapshot_id, time),
    decreases names.len(),
{
    if k < names.len() {
        assert(names.drop_last().take(k) =~= names.take(k));
        lemma_drops_fail_early(s, names.drop_last(), k, snapshot_id, time);
    } else {
        assert(names.take(k) =~= names);
    }
}

proof fn lemma_events_fail_early(
    s: StoreView,
    events: Seq<EventView>,
    k: int,
    rows: Seq<RowView>,
    snapshot_id: i64,
    time: Seq<char>,
)
    requires
        0 <= k <= events.len(),
        events_added(s, events.take(k), rows, snapshot_id, time) is Err,
    ensures
        events_added(s, events, rows, snapshot_id, time) == events_added(
            s,
            events.take(k),
            rows,
            snapshot_id,
            time,
        ),
    decreases events.len(),
{
    if k < events.len() {
        assert(events.drop_last().take(k) =~= events.take(k));
        lemma_events_fail_early(s, events.drop_last(), k, rows, snapshot_id, time);
    } else {
        assert(events.take(k) =~= events);
    }
}

fn add_drops(
    store: &mut Store,
    names: &Vec<String>,
    snapshot_id: i64,
    fetched_at: &str,
    rows: &Vec<LeaderboardRow>,
) -> (result: Result<(), StoreError>)
    requires
        all_named(old(store).deep_view().teams, rows.deep_view()),
    ensures
        match (
            result,
            drops_added(old(store).deep_view(), names.deep_view(), snapshot_id, fetched_at@),
        ) {
            (Ok(_), Ok(after)) => final(store).deep_view() == after && all_named(
                after.teams,
                rows.deep_view(),
            ),
            (Err(e), Err(expected)) => e == expected,
            _ => false,
        },
{
    let ghost start = store.deep_view();
    let ghost all = names.deep_view();
    let mut i: usize = 0;
    assert(all.take(0) =~= Seq::<Seq<char>>::empty());
    while i < names.len()
        invariant
            i <= names@.len(),
            start == old(store).deep_view(),
            all == names.deep_view(),
            drops_added(start, all.take(i as int), snapshot_id, fetched_at@) == Ok::<
                StoreView,
                StoreError,
            >(store.deep_view()),
            all_named(store.deep_view().teams, rows.deep_view()),
        decreases names@.len() - i,
    {
        let ghost before = store.deep_view();
        proof {
            assert(all.take(i + 1).drop_last() =~= all.take(i as int));
            assert(all.take(i + 1).last() == names@[i as int]@);
        }
        let added = match upsert_team(store, names[i].as_str(), fetched_at) {
            Ok(team_id) => {
                proof {
                    lemma_seen_keeps_all(before, names@[i as int]@, fetched_at@, rows.deep_view());
                }
                let entry = EntryRecord {
                    snapshot_id,
                    team_id,
                    rank: None,
                    score: None,
                    version: None,
                    present: false,
                };
                assert(entry.deep_view() == dropped_entry(snapshot_id, team_id));
                add_entry(store, entry)
            },
            Err(e) => Err(e),
        };
        if let Err(e) = added {
            proof {
                lemma_drops_fail_early(start, all, i + 1, snapshot_id, fetched_at@);
            }
            return Err(e);
        }
        i += 1;
    }
    assert(all.take(i as int) =~= all);
    Ok(())
}

fn add_event(
    store: &mut Store,
    event: &TeamEvent,
    rows: &Vec<LeaderboardRow>,
    snapshot_id: i64,
    fetched_at: &str,
) -> (result: Result<(), StoreError>)
    requires
        all_named(old(store).deep_view().teams, rows.deep_view()),
    ensures
        match (
            result,
            event_added(
                old(store).deep_view(),
                event.deep_view(),
                rows.deep_view(),
                snapshot_id,
                fetched_at@,
            ),
        ) {
            (Ok(_), Ok(after)) => final(store).deep_view() == after && all_named(
                after.teams,
                rows.deep_view(),
            ),
            (Err(e), Err(expected)) => e == expected,
            _ => false,
        },
{
    let ghost start = store.deep_view();
    let ghost all = rows.deep_view();
    let team_id = if diff::has_row(rows, event.team_id.as_str()) {
        proof {
            let i = choose|i: int|
                0 <= i < all.len() && #[trigger] all[i].team_id == event.team_id@;
            assert(id_named(start.teams, all[i].team_id) is Some);
        }
        team_number(&store.teams, event.team_id.as_str()).unwrap()
    } else {
        match upsert_team(store, event.team_id.as_str(), fetched_at) {
            Ok(team_id) => {
                proof {
                    lemma_seen_keeps_all(start, event.team_id@, fetched_at@, all);
                }
                team_id
            },
            Err(e) => {
                return Err(e);
            },
        }
    };
    if store.event_seq == i64::MAX {
        return Err(StoreError::Full);
    }
    let ghost before = store.deep_view();
    let number: i64 = store.event_seq + 1;
    let record = EventRecord {
        id: number,
        snapshot_id,
        team_id,
        event_type: event.event_type.as_str().to_owned(),
        old_rank: event.old_rank,
        new_rank: event.new_rank,
        old_score: keep(&event.old_score),
        new_score: keep(&event.new_score),
        old_version: event.old_version.clone(),
        new_version: event.new_version.clone(),
    };
    let ghost view = record.deep_view();
    assert(view =~= stored_event(event.deep_view(), number, snapshot_id, team_id));
    store.events.push(record);
    store.event_seq = number;
    proof {
        assert(store.events.deep_view() =~= before.events.push(view));
        assert(store.deep_view() =~~= event_added(start, event.deep_view(), all, snapshot_id, fetched_at@)->Ok_0);
    }
    Ok(())
}

fn add_events(
    store: &mut Store,
    events: &Vec<TeamEvent>,
    rows: &Vec<LeaderboardRow>,
    snapshot_id: i64,
    fetched_at: &str,
) -> (result: Result<(), StoreError>)
    requires
        all_named(old(store).deep_view().teams, rows.deep_view()),
    ensures
        match (
            result,
            events_added(
                old(store).deep_view(),
                events.deep_view(),
                rows.deep_view(),
                snapshot_id,
                fetched_at@,
            ),
        ) {
            (Ok(_), Ok(after)) => final(store).deep_view() == after,
            (Err(e), Err(expected)) => e == expected,
            _ => false,
        },
{
    let ghost start = store.deep_view();
    let ghost all = events.deep_view();
    let mut i: usize = 0;
    assert(all.take(0) =~= Seq::<EventView>::empty());
    while i < events.len()
        invariant
            i <= events@.len(),
            start == old(store).deep_view(),
            all == events.deep_view(),
            events_added(start, all.take(i as int), rows.deep_view(), snapshot_id, fetched_at@)
                == Ok::<StoreView, StoreError>(store.deep_view()),
            all_named(store.deep_view().teams, rows.deep_view()),
        decreases events@.len() - i,
    {
        proof {
            assert(all.take(i + 1).drop_last() =~= all.take(i as int));
            assert(all.take(i + 1).last() == events@[i as int].deep_view());
        }
        if let Err(e) = add_event(store, &events[i], rows, snapshot_id, fetched_at) {
            proof {
                lemma_events_fail_early(
                    start,
                    all,
                    i + 1,
                    rows.deep_view(),
                    snapshot_id,
                    fetched_at@,
                );
            }
            return Err(e);
        }
        i += 1;
    }
    assert(all.take(i as int) =~= all);
    Ok(())
}

/// Adds a snapshot that was fetched at the given time. Where a part of it cannot
/// be added the history stays as it was.
pub fn insert_snapshot_at(
    store: &mut Store,
    source_updated_at: Option<&str>,
    rows: &Vec<LeaderboardRow>,
    diff: &DiffResult,
    fetched_at: &str,
) -> (result: Result<String, StoreError>)
    ensures
        match (
            result,
            snapshot_inserted(
                old(store).deep_view(),
                source_updated_at.deep_view(),
                rows.deep_view(),
                diff.deep_view(),
                fetched_at@,
            ),
        ) {
            (Ok(time), Ok(after)) => final(store).deep_view() == after && time@ == fetched_at@,
            (Err(e), Err(expected)) => e == expected && *final(store) == *old(store),
            _ => false,
        },
{
    if store.snapshot_seq == i64::MAX {
        return Err(StoreError::Full);
    }
    let ghost start = store.deep_view();
    let mut work = store.clone();
    let snapshot_id: i64 = work.snapshot_seq + 1;
    let record = SnapshotRecord {
        id: snapshot_id,
        fetched_at: fetched_at.to_owned(),
        source_updated_at: match source_updated_at {
            Some(date) => Some(date.to_owned()),
            None => None,
        },
        content_hash: diff.content_hash.clone(),
        row_count: rows.len() as i64,
    };
    let ghost view = record.deep_view();
    work.snapshots.push(record);
    work.snapshot_seq = snapshot_id;
    proof {
        assert(work.snapshots.deep_view() =~= start.snapshots.push(view));
        assert(work.deep_view() =~~= snapshot_opened(
            start,
            source_updated_at.deep_view(),
            diff.content_hash@,
            rows.deep_view().len(),
            fetched_at@,
        )->Ok_0);
    }
    if let Err(e) = add_rows(&mut work, rows, snapshot_id, fetched_at) {
        return Err(e);
    }
    if let Err(e) = add_drops(&mut work, &diff.dropped_team_ids, snapshot_id, fetched_at, rows) {
        return Err(e);
    }
    if let Err(e) = add_events(&mut work, &diff.events, rows, snapshot_id, fetched_at) {
        return Err(e);
    }
    *store = work;
    Ok(fetched_at.to_owned())
}

/// Adds a snapshot that is fetched now, and gives the time that was recorded.
pub fn insert_snapshot(
    store: &mut Store,
    source_updated_at: Option<&str>,
    rows: &Vec<LeaderboardRow>,
    diff: &DiffResult,
) -> (result: Result<String, StoreError>)
    ensures
        match result {
            Ok(time) => {
                &&& clock::is_now(time@)
                &&& snapshot_inserted(
                    old(store).deep_view(),
                    source_updated_at.deep_view(),
                    rows.deep_view(),
                    diff.deep_view(),
                    time@,
                ) == Ok::<StoreView, StoreError>(final(store).deep_view())
            },
            Err(e) => *final(store) == *old(store) && exists|time: Seq<char>|
                clock::is_now(time) && #[trigger] snapshot_inserted(
                    old(store).deep_view(),
                    source_updated_at.deep_view(),
                    rows.deep_view(),
                    diff.deep_view(),
                    time,
                ) == Err::<StoreView, StoreError>(e),
        },
        laws::valid(old(store).deep_view()) ==> (result is Ok <==> laws::fits(
            old(store).deep_view(),
            rows.deep_view(),
            diff.deep_view(),
        )),
{
    let fetched_at = now();
    proof {
        if laws::valid(store.deep_view()) {
            laws::insertion_succeeds_iff_it_fits(
                store.deep_view(),
                source_updated_at.deep_view(),
                rows.deep_view(),
                diff.deep_view(),
                fetched_at@,
            );
        }
    }
    insert_snapshot_at(store, source_updated_at, rows, diff, fetched_at.as_str())
}

}
