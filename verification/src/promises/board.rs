//! What is shown of a snapshot: its place among the others, its leaderboard and
//! its events.
use crate::db::history::{self, ShownEventView};
use crate::db::laws;
use crate::db::read::{self, BoardRowView, ListedView, ScoreDeltaView};
use crate::db::{self, EntryView, SnapshotView, StoreView, StoredEventView};
use crate::diff::{PreviousTeamView, PreviousView};
use crate::seqs;
use crate::text;
use vstd::prelude::*;

verus! {

/// Whether a snapshot of that number is stored.
pub open spec fn is_stored(s: StoreView, id: i64) -> bool {
    exists|x: int| 0 <= x < s.snapshots.len() && (#[trigger] s.snapshots[x]).id == id
}

proof fn lemma_stored(s: StoreView, id: i64)
    ensures
        db::snapshot_ids(s).contains(id) <==> is_stored(s, id),
{
    let ids = db::snapshot_ids(s);
    if ids.contains(id) {
        let x = choose|x: int| 0 <= x < ids.len() && ids[x] == id;
        assert(s.snapshots[x].id == id);
    }
    if is_stored(s, id) {
        let x = choose|x: int| 0 <= x < s.snapshots.len() && (#[trigger] s.snapshots[x]).id == id;
        assert(ids[x] == id);
    }
}

/// Where a snapshot stands: the latest one has the greatest number; a request means
/// the snapshot of its number where there is one, else the latest; before it comes
/// the nearest smaller number, behind it the nearest greater one.
pub proof fn snapshots_are_found_by_number(s: StoreView, requested: Option<i64>)
    ensures
        ({
            let meta = db::meta_of(s, requested);
            &&& s.snapshots.len() == 0 ==> meta.latest_snapshot_id is None
                && meta.current_snapshot_id is None && meta.previous_snapshot_id is None
                && meta.next_snapshot_id is None
            &&& s.snapshots.len() > 0 ==> (meta.latest_snapshot_id matches Some(latest) && is_stored(
                s,
                latest,
            ) && forall|x: int|
                0 <= x < s.snapshots.len() ==> (#[trigger] s.snapshots[x]).id <= latest)
            &&& requested matches Some(id) ==> (is_stored(s, id) ==> meta.current_snapshot_id == Some(
                id,
            ))
            &&& requested matches Some(id) ==> (!is_stored(s, id) ==> meta.current_snapshot_id
                == meta.latest_snapshot_id)
            &&& requested is None ==> meta.current_snapshot_id == meta.latest_snapshot_id
            &&& meta.current_snapshot_id matches Some(id) ==> {
                &&& meta.previous_snapshot_id matches Some(before) ==> is_stored(s, before) && before
                    < id && forall|x: int|
                    0 <= x < s.snapshots.len() && (#[trigger] s.snapshots[x]).id < id
                        ==> s.snapshots[x].id <= before
                &&& meta.previous_snapshot_id is None ==> forall|x: int|
                    0 <= x < s.snapshots.len() ==> (#[trigger] s.snapshots[x]).id >= id
                &&& meta.next_snapshot_id matches Some(after) ==> is_stored(s, after) && after > id
                    && forall|x: int|
                    0 <= x < s.snapshots.len() && (#[trigger] s.snapshots[x]).id > id
                        ==> s.snapshots[x].id >= after
                &&& meta.next_snapshot_id is None ==> forall|x: int|
                    0 <= x < s.snapshots.len() ==> (#[trigger] s.snapshots[x]).id <= id
            }
            &&& db::resolved(s, requested) == meta.current_snapshot_id
            &&& db::greatest(db::snapshot_ids(s)) == meta.latest_snapshot_id
        }),
{
    let ids = db::snapshot_ids(s);
    let meta = db::meta_of(s, requested);
    db::greatest_below_is_greatest(ids, i64::MAX + 1);
    assert forall|x: int| 0 <= x < s.snapshots.len() implies ids.contains(
        (#[trigger] s.snapshots[x]).id,
    ) by {
        assert(ids[x] == s.snapshots[x].id);
    }
    assert forall|id: i64| #[trigger] ids.contains(id) <==> is_stored(s, id) by {
        lemma_stored(s, id);
    }
    if s.snapshots.len() > 0 {
        assert(ids.contains(s.snapshots[0].id));
    }
    if let Some(id) = requested {
        lemma_stored(s, id);
    }
    if let Some(id) = meta.current_snapshot_id {
        db::greatest_below_is_greatest(ids, id as int);
        db::least_above_is_least(ids, id as int);
    }
}

/// The time of a stored snapshot is the one it was stored with.
pub proof fn time_is_that_of_the_snapshot(s: StoreView, x: int)
    requires
        laws::valid(s),
        0 <= x < s.snapshots.len(),
    ensures
        read::fetched_at_of(s.snapshots, s.snapshots[x].id) == Some(s.snapshots[x].fetched_at),
{
    lemma_time(s.snapshots, x);
}

proof fn lemma_time(snapshots: Seq<SnapshotView>, x: int)
    requires
        forall|i: int, j: int|
            0 <= i < j < snapshots.len() ==> (#[trigger] snapshots[i]).id < (
            #[trigger] snapshots[j]).id,
        0 <= x < snapshots.len(),
    ensures
        read::fetched_at_of(snapshots, snapshots[x].id) == Some(snapshots[x].fetched_at),
    decreases snapshots.len(),
{
    let last = snapshots.len() - 1;
    if x < last {
        let rest = snapshots.drop_last();
        assert(snapshots[x].id < snapshots[last].id);
        assert forall|i: int, j: int| 0 <= i < j < rest.len() implies (#[trigger] rest[i]).id < (
        #[trigger] rest[j]).id by {
            assert(snapshots[i].id < snapshots[j].id);
        }
        assert(rest[x] == snapshots[x]);
        lemma_time(rest, x);
    }
}

/// Whether the entry is the team's in the snapshot, and present.
pub open spec fn is_listed(s: StoreView, e: int, id: i64, t: int) -> bool {
    &&& 0 <= e < s.entries.len()
    &&& 0 <= t < s.teams.len()
    &&& s.entries[e].snapshot_id == id
    &&& s.entries[e].team_id == s.teams[t].id
    &&& s.entries[e].present
}

/// Whether the team is not present in the snapshot.
pub open spec fn is_absent(s: StoreView, id: i64, t: int) -> bool {
    forall|e: int| !#[trigger] is_listed(s, e, id, t)
}

proof fn lemma_listed(s: StoreView, e: int, id: i64, t: int) -> (k: int)
    requires
        laws::valid(s),
        is_listed(s, e, id, t),
    ensures
        0 <= k < read::listed_teams(s, id).len(),
        read::listed_teams(s, id)[k] == (ListedView {
            name: s.teams[t].name,
            rank: s.entries[e].rank,
            score: s.entries[e].score,
            version: s.entries[e].version,
        }),
{
    let f = |x: EntryView| read::listed_team(s.teams, x, id);
    let places = seqs::lemma_filter_map_places(s.entries, f);
    laws::lemma_name_at(s.teams, s.team_seq, t);
    assert(places.contains(e) <==> f(s.entries[e]) is Some);
    let k = choose|k: int| 0 <= k < places.len() && places[k] == e;
    assert(f(s.entries[places[k]]) == Some(read::listed_teams(s, id)[k]));
    k
}

proof fn lemma_listed_from(s: StoreView, id: i64, k: int) -> (from: (int, int))
    requires
        laws::valid(s),
        0 <= k < read::listed_teams(s, id).len(),
    ensures
        is_listed(s, from.0, id, from.1),
        read::listed_teams(s, id)[k] == (ListedView {
            name: s.teams[from.1].name,
            rank: s.entries[from.0].rank,
            score: s.entries[from.0].score,
            version: s.entries[from.0].version,
        }),
{
    let f = |x: EntryView| read::listed_team(s.teams, x, id);
    let places = seqs::lemma_filter_map_places(s.entries, f);
    let e = places[k];
    assert(f(s.entries[places[k]]) == Some(read::listed_teams(s, id)[k]));
    let t = laws::lemma_name_index(s.teams, s.entries[e].team_id);
    (e, t)
}

/// In a snapshot a team has one entry.
proof fn lemma_one_entry(s: StoreView, a: int, b: int, id: i64, t: int, u: int)
    requires
        laws::valid(s),
        is_listed(s, a, id, t),
        is_listed(s, b, id, u),
        s.teams[t].name == s.teams[u].name,
    ensures
        a == b,
        t == u,
{
    if t < u {
        assert(s.teams[t].name != s.teams[u].name);
    } else if u < t {
        assert(s.teams[u].name != s.teams[t].name);
    }
    if a < b {
        assert(s.entries[a].snapshot_id == s.entries[b].snapshot_id);
    } else if b < a {
        assert(s.entries[b].snapshot_id == s.entries[a].snapshot_id);
    }
}

proof fn lemma_found(teams: Seq<ListedView>, name: Seq<char>) -> (k: int)
    ensures
        read::listed_named(teams, name) matches Some(found) ==> 0 <= k < teams.len() && teams[k]
            == found && found.name == name,
        read::listed_named(teams, name) is None ==> forall|i: int|
            0 <= i < teams.len() ==> (#[trigger] teams[i]).name != name,
    decreases teams.len(),
{
    if teams.len() == 0 {
        0
    } else if teams.last().name == name {
        teams.len() - 1
    } else {
        let rest = teams.drop_last();
        let k = lemma_found(rest, name);
        assert forall|i: int| read::listed_named(teams, name) is None && 0 <= i
            < teams.len() implies (#[trigger] teams[i]).name != name by {
            if i < rest.len() {
                assert(rest[i] == teams[i]);
            }
        }
        k
    }
}

/// Whether the number is the difference of the two, wrapped to 64 bits where it does
/// not fit.
pub open spec fn is_difference(a: i64, b: i64, d: i64) -> bool {
    d == a - b || (!(i64::MIN <= a - b <= i64::MAX) && (d == a - b + 18_446_744_073_709_551_616
        || d == a - b - 18_446_744_073_709_551_616))
}

/// Whether the line is that of the team in the snapshot `id`, compared with the
/// snapshot `before`.
pub open spec fn is_line_of(
    s: StoreView,
    line: BoardRowView,
    id: i64,
    before: Option<i64>,
    e: int,
    t: int,
) -> bool {
    let entry = s.entries[e];
    &&& line.team_id == s.teams[t].name
    &&& entry.rank == Some(line.rank)
    &&& entry.score == Some(line.score)
    &&& entry.version == Some(line.version)
    &&& forall|x: int|
        0 <= x < s.snapshots.len() && (#[trigger] s.snapshots[x]).id == id ==> line.fetched_at
            == s.snapshots[x].fetched_at
    &&& before is None ==> line.is_new && line.rank_delta is None && line.score_delta is None
    &&& before matches Some(earlier) ==> {
        &&& is_absent(s, earlier, t) ==> line.is_new && line.rank_delta is None
            && line.score_delta is None
        &&& forall|p: int| #[trigger]
            is_listed(s, p, earlier, t) ==> {
                let old = s.entries[p];
                &&& !line.is_new
                &&& old.score matches Some(score) && line.score_delta == Some(
                    ScoreDeltaView { old: score, new: line.score },
                )
                &&& old.rank matches Some(rank) && line.rank_delta matches Some(gained)
                    && is_difference(rank, line.rank, gained)
            }
    }
}

proof fn lemma_line(s: StoreView, id: i64, before: Option<i64>, e: int, t: int, line: BoardRowView)
    requires
        laws::valid(s),
        is_listed(s, e, id, t),
        s.entries[e].rank is Some,
        s.entries[e].score is Some,
        s.entries[e].version is Some,
        read::all_ranked(read::compared_teams(s, before)),
        line == read::board_row(
            read::compared_teams(s, before),
            ListedView {
                name: s.teams[t].name,
                rank: s.entries[e].rank,
                score: s.entries[e].score,
                version: s.entries[e].version,
            },
            read::fetched_at_of(s.snapshots, id).unwrap(),
        ),
    ensures
        is_line_of(s, line, id, before, e, t),
{
    let compared = read::compared_teams(s, before);
    let name = s.teams[t].name;
    let k = lemma_found(compared, name);
    assert forall|x: int| 0 <= x < s.snapshots.len() && (#[trigger] s.snapshots[x]).id
        == id implies line.fetched_at == s.snapshots[x].fetched_at by {
        lemma_time(s.snapshots, x);
    }
    if let Some(earlier) = before {
        if read::listed_named(compared, name) is Some {
            let (p, u) = lemma_listed_from(s, earlier, k);
            lemma_one_entry_of(s, p, earlier, u, t);
            assert(is_listed(s, p, earlier, t));
        }
        assert forall|p: int| #[trigger] is_listed(s, p, earlier, t) implies {
            let old = s.entries[p];
            &&& !line.is_new
            &&& old.score matches Some(score) && line.score_delta == Some(
                ScoreDeltaView { old: score, new: line.score },
            )
            &&& old.rank matches Some(rank) && line.rank_delta matches Some(gained)
                && is_difference(rank, line.rank, gained)
        } by {
            let j = lemma_listed(s, p, earlier, t);
            assert(compared[j].name == name);
            let (q, u) = lemma_listed_from(s, earlier, k);
            lemma_one_entry(s, p, q, earlier, t, u);
            assert(compared[k].rank is Some && compared[k].score is Some);
        }
    }
}

proof fn lemma_one_entry_of(s: StoreView, p: int, id: i64, u: int, t: int)
    requires
        laws::valid(s),
        is_listed(s, p, id, u),
        0 <= t < s.teams.len(),
        s.teams[t].name == s.teams[u].name,
    ensures
        t == u,
{
    if t < u {
        assert(s.teams[t].name != s.teams[u].name);
    } else if u < t {
        assert(s.teams[u].name != s.teams[t].name);
    }
}

/// A leaderboard has one line for each present entry of its snapshot. The line has
/// the entry's values; where the team was present in the snapshot before, whatever
/// its rank was, it has the places gained and both scores, else it is marked as
/// new.
pub proof fn leaderboard_has_every_present_team(
    s: StoreView,
    requested: Option<i64>,
    lines: Seq<BoardRowView>,
    id: i64,
    e: int,
    t: int,
)
    requires
        laws::valid(s),
        read::board_complete(s, requested),
        read::is_leaderboard(s, requested, lines),
        db::meta_of(s, requested).current_snapshot_id == Some(id),
        is_listed(s, e, id, t),
    ensures
        exists|k: int|
            0 <= k < lines.len() && is_line_of(
                s,
                #[trigger] lines[k],
                id,
                db::meta_of(s, requested).previous_snapshot_id,
                e,
                t,
            ),
{
    let before = db::meta_of(s, requested).previous_snapshot_id;
    let rows = read::board_rows(s, id, before);
    let k = lemma_listed(s, e, id, t);
    let team = read::listed_teams(s, id)[k];
    assert(team.rank is Some && team.score is Some && team.version is Some);
    lemma_line(s, id, before, e, t, rows[k]);
    rows.to_multiset_ensures();
    lines.to_multiset_ensures();
    assert(rows.contains(rows[k]));
    assert(rows.to_multiset().count(rows[k]) > 0);
    assert(lines.to_multiset().count(rows[k]) > 0);
    assert(lines.contains(rows[k]));
    let j = choose|j: int| 0 <= j < lines.len() && lines[j] == rows[k];
    assert(is_line_of(s, lines[j], id, before, e, t));
}

/// Every line of a leaderboard is that of a present entry of its snapshot.
pub proof fn leaderboard_has_present_teams_only(
    s: StoreView,
    requested: Option<i64>,
    lines: Seq<BoardRowView>,
    id: i64,
    k: int,
) -> (from: (int, int))
    requires
        laws::valid(s),
        read::board_complete(s, requested),
        read::is_leaderboard(s, requested, lines),
        db::meta_of(s, requested).current_snapshot_id == Some(id),
        0 <= k < lines.len(),
    ensures
        is_listed(s, from.0, id, from.1),
        is_line_of(
            s,
            lines[k],
            id,
            db::meta_of(s, requested).previous_snapshot_id,
            from.0,
            from.1,
        ),
{
    let before = db::meta_of(s, requested).previous_snapshot_id;
    let rows = read::board_rows(s, id, before);
    rows.to_multiset_ensures();
    lines.to_multiset_ensures();
    assert(lines.contains(lines[k]));
    assert(lines.to_multiset().count(lines[k]) > 0);
    assert(rows.to_multiset().count(lines[k]) > 0);
    assert(rows.contains(lines[k]));
    let j = choose|j: int| 0 <= j < rows.len() && rows[j] == lines[k];
    let (e, t) = lemma_listed_from(s, id, j);
    let team = read::listed_teams(s, id)[j];
    assert(team.rank is Some && team.score is Some && team.version is Some);
    lemma_line(s, id, before, e, t, rows[j]);
    (e, t)
}

/// A leaderboard has as many lines as its snapshot has present entries. The lines
/// are in the order of their ranks, and of the teams' names where the ranks are
/// equal. Where there is no snapshot there is no line.
pub proof fn leaderboard_is_counted_and_ordered(
    s: StoreView,
    requested: Option<i64>,
    lines: Seq<BoardRowView>,
) -> (places: Seq<int>)
    requires
        laws::valid(s),
        read::is_leaderboard(s, requested, lines),
    ensures
        db::meta_of(s, requested).current_snapshot_id is None ==> lines.len() == 0,
        db::meta_of(s, requested).current_snapshot_id matches Some(id) ==> {
            &&& seqs::are_places(places, s.entries.len())
            &&& lines.len() == places.len()
            &&& forall|e: int|
                0 <= e < s.entries.len() ==> (#[trigger] places.contains(e)
                    <==> s.entries[e].snapshot_id == id && s.entries[e].present)
            &&& forall|i: int, j: int|
                0 <= i < j < lines.len() ==> {
                    let a = #[trigger] lines[i];
                    let b = #[trigger] lines[j];
                    a.rank < b.rank || (a.rank == b.rank && (a.team_id == b.team_id
                        || text::text_less(a.team_id, b.team_id)))
                }
        },
{
    if let Some(id) = db::meta_of(s, requested).current_snapshot_id {
        let f = |x: EntryView| read::listed_team(s.teams, x, id);
        let places = seqs::lemma_filter_map_places(s.entries, f);
        let rows = read::board_rows(s, id, db::meta_of(s, requested).previous_snapshot_id);
        rows.to_multiset_ensures();
        lines.to_multiset_ensures();
        assert forall|e: int| 0 <= e < s.entries.len() implies (#[trigger] places.contains(e)
            <==> s.entries[e].snapshot_id == id && s.entries[e].present) by {
            assert(places.contains(e) <==> f(s.entries[e]) is Some);
            assert(read::name_of(s.teams, s.entries[e].team_id) is Some);
        }
        assert forall|i: int, j: int| 0 <= i < j < lines.len() implies ({
            let a = #[trigger] lines[i];
            let b = #[trigger] lines[j];
            a.rank < b.rank || (a.rank == b.rank && (a.team_id == b.team_id || text::text_less(
                a.team_id,
                b.team_id,
            )))
        }) by {
            assert(read::row_le(lines[i], lines[j]));
            text::text_order_is_total(lines[i].team_id, lines[j].team_id);
        }
        places
    } else {
        Seq::empty()
    }
}

/// A leaderboard can be shown exactly where every present entry of its snapshot has
/// a rank, a score and a version, and every present entry of the snapshot before a
/// rank and a score.
pub proof fn leaderboard_needs_its_values(s: StoreView, requested: Option<i64>)
    requires
        laws::valid(s),
    ensures
        ({
            let meta = db::meta_of(s, requested);
            read::board_complete(s, requested) <==> {
                &&& meta.current_snapshot_id matches Some(id) ==> forall|e: int, t: int| #[trigger]
                    is_listed(s, e, id, t) ==> s.entries[e].rank is Some && s.entries[e].score is Some
                        && s.entries[e].version is Some
                &&& meta.current_snapshot_id is Some ==> (meta.previous_snapshot_id matches Some(
                    before,
                ) ==> forall|e: int, t: int| #[trigger]
                    is_listed(s, e, before, t) ==> s.entries[e].rank is Some
                        && s.entries[e].score is Some)
            }
        }),
{
    let meta = db::meta_of(s, requested);
    if let Some(id) = meta.current_snapshot_id {
        let teams = read::listed_teams(s, id);
        assert forall|e: int, t: int| #[trigger] is_listed(s, e, id, t) && read::all_ranked(teams)
            && read::all_versioned(teams) implies s.entries[e].rank is Some
            && s.entries[e].score is Some && s.entries[e].version is Some by {
            let k = lemma_listed(s, e, id, t);
            assert(teams[k].rank is Some);
        }
        if forall|e: int, t: int| #[trigger]
            is_listed(s, e, id, t) ==> s.entries[e].rank is Some && s.entries[e].score is Some
                && s.entries[e].version is Some {
            assert forall|k: int| 0 <= k < teams.len() implies (#[trigger] teams[k]).rank is Some
                && teams[k].score is Some && teams[k].version is Some by {
                let (e, t) = lemma_listed_from(s, id, k);
            }
        }
        if let Some(before) = meta.previous_snapshot_id {
            let compared = read::listed_teams(s, before);
            assert forall|e: int, t: int| #[trigger]
                is_listed(s, e, before, t) && read::all_ranked(compared) implies s.entries[e].rank is Some
                && s.entries[e].score is Some by {
                let k = lemma_listed(s, e, before, t);
                assert(compared[k].rank is Some);
            }
            if forall|e: int, t: int| #[trigger]
                is_listed(s, e, before, t) ==> s.entries[e].rank is Some && s.entries[e].score is Some {
                assert forall|k: int| 0 <= k < compared.len() implies (
                #[trigger] compared[k]).rank is Some && compared[k].score is Some by {
                    let (e, t) = lemma_listed_from(s, before, k);
                }
            }
        }
    }
}

/// What the latest snapshot recorded: one record for each of its entries, present
/// or not, in order, with the entry's values under the team's name.
pub proof fn record_has_every_entry_of_the_latest_snapshot(s: StoreView) -> (places: Seq<int>)
    requires
        laws::valid(s),
    ensures
        s.snapshots.len() == 0 ==> read::previous_rows_of(s).len() == 0,
        db::meta_of(s, None).latest_snapshot_id matches Some(id) ==> {
            let record = read::previous_rows_of(s);
            &&& seqs::are_places(places, s.entries.len())
            &&& record.len() == places.len()
            &&& forall|e: int|
                0 <= e < s.entries.len() ==> (#[trigger] places.contains(e)
                    <==> s.entries[e].snapshot_id == id)
            &&& forall|k: int, t: int|
                0 <= k < places.len() && 0 <= t < s.teams.len() && s.entries[#[trigger]
                places[k]].team_id == (#[trigger] s.teams[t]).id ==> record[k] == (
                PreviousTeamView {
                    team_id: s.teams[t].name,
                    entry: PreviousView {
                        rank: s.entries[places[k]].rank,
                        score: s.entries[places[k]].score,
                        version: s.entries[places[k]].version,
                        present: s.entries[places[k]].present,
                    },
                })
        },
{
    snapshots_are_found_by_number(s, None);
    if let Some(id) = db::meta_of(s, None).latest_snapshot_id {
        let f = |x: EntryView| read::recorded_team(s.teams, x, id);
        let places = seqs::lemma_filter_map_places(s.entries, f);
        let record = read::previous_rows_of(s);
        assert forall|e: int| 0 <= e < s.entries.len() implies (#[trigger] places.contains(e)
            <==> s.entries[e].snapshot_id == id) by {
            assert(places.contains(e) <==> f(s.entries[e]) is Some);
            assert(read::name_of(s.teams, s.entries[e].team_id) is Some);
        }
        assert forall|k: int, t: int|
            0 <= k < places.len() && 0 <= t < s.teams.len() && s.entries[#[trigger] places[k]].team_id
                == (#[trigger] s.teams[t]).id implies record[k] == (PreviousTeamView {
            team_id: s.teams[t].name,
            entry: PreviousView {
                rank: s.entries[places[k]].rank,
                score: s.entries[places[k]].score,
                version: s.entries[places[k]].version,
                present: s.entries[places[k]].present,
            },
        }) by {
            laws::lemma_name_at(s.teams, s.team_seq, t);
            assert(f(s.entries[places[k]]) == Some(record[k]));
        }
        places
    } else {
        Seq::empty()
    }
}

/// Whether the event is asked for: of that snapshot and of that team, where one is
/// given.
pub open spec fn is_asked_for(
    s: StoreView,
    event: StoredEventView,
    id: Option<i64>,
    team: Option<Seq<char>>,
) -> bool {
    &&& id matches Some(id) ==> event.snapshot_id == id
    &&& team matches Some(name) ==> exists|t: int|
        0 <= t < s.teams.len() && (#[trigger] s.teams[t]).id == event.team_id && s.teams[t].name
            == name
}

/// The events that are shown are all that are asked for, the newest first, each
/// with the values it was stored with, its team's name and its snapshot's time.
pub proof fn every_event_asked_for_is_shown(
    s: StoreView,
    id: Option<i64>,
    team: Option<Seq<char>>,
) -> (places: Seq<int>)
    requires
        laws::valid(s),
    ensures
        seqs::are_places(places, s.events.len()),
        history::shown_events(s, id, team).len() == places.len(),
        forall|i: int|
            0 <= i < s.events.len() ==> (#[trigger] places.contains(i) <==> is_asked_for(
                s,
                s.events[i],
                id,
                team,
            )),
        forall|k: int, t: int, x: int|
            0 <= k < places.len() && 0 <= t < s.teams.len() && 0 <= x < s.snapshots.len()
                && s.events[#[trigger] places[k]].team_id == (#[trigger] s.teams[t]).id
                && s.events[places[k]].snapshot_id == (#[trigger] s.snapshots[x]).id ==> {
                let event = s.events[places[k]];
                history::shown_events(s, id, team)[places.len() - 1 - k] == (ShownEventView {
                    fetched_at: s.snapshots[x].fetched_at,
                    team_id: s.teams[t].name,
                    event_type: event.event_type,
                    old_rank: event.old_rank,
                    new_rank: event.new_rank,
                    old_score: event.old_score,
                    new_score: event.new_score,
                    old_version: event.old_version,
                    new_version: event.new_version,
                })
            },
{
    let f = |e: StoredEventView| history::shown_event(s, e, id, team);
    let places = seqs::lemma_filter_map_places(s.events, f);
    let kept = s.events.filter_map(f);
    assert forall|i: int| 0 <= i < s.events.len() implies (#[trigger] places.contains(i)
        <==> is_asked_for(s, s.events[i], id, team)) by {
        let event = s.events[i];
        assert(places.contains(i) <==> f(event) is Some);
        assert(db::snapshot_ids(s).contains(event.snapshot_id));
        lemma_stored(s, event.snapshot_id);
        let x = choose|x: int|
            0 <= x < s.snapshots.len() && (#[trigger] s.snapshots[x]).id == event.snapshot_id;
        lemma_time(s.snapshots, x);
        let u = laws::lemma_name_index(s.teams, event.team_id);
        if let Some(name) = team {
            if is_asked_for(s, event, id, team) {
                let t = choose|t: int|
                    0 <= t < s.teams.len() && (#[trigger] s.teams[t]).id == event.team_id
                        && s.teams[t].name == name;
                laws::lemma_name_at(s.teams, s.team_seq, t);
            }
        }
    }
    assert forall|k: int, t: int, x: int|
        0 <= k < places.len() && 0 <= t < s.teams.len() && 0 <= x < s.snapshots.len()
            && s.events[#[trigger] places[k]].team_id == (#[trigger] s.teams[t]).id
            && s.events[places[k]].snapshot_id == (#[trigger] s.snapshots[x]).id implies {
        let event = s.events[places[k]];
        history::shown_events(s, id, team)[places.len() - 1 - k] == (ShownEventView {
            fetched_at: s.snapshots[x].fetched_at,
            team_id: s.teams[t].name,
            event_type: event.event_type,
            old_rank: event.old_rank,
            new_rank: event.new_rank,
            old_score: event.old_score,
            new_score: event.new_score,
            old_version: event.old_version,
            new_version: event.new_version,
        })
    } by {
        laws::lemma_name_at(s.teams, s.team_seq, t);
        lemma_time(s.snapshots, x);
        assert(f(s.events[places[k]]) == Some(kept[k]));
        assert(history::shown_events(s, id, team)[places.len() - 1 - k] == kept[k]);
    }
    places
}

/// A limit cuts a list behind as many items, and leaves a shorter list whole.
pub proof fn limit_keeps_the_first<A>(items: Seq<A>, limit: nat)
    ensures
        history::at_most(items, limit).len() == if items.len() < limit {
            items.len()
        } else {
            limit
        },
        forall|i: int|
            0 <= i < limit && i < items.len() ==> #[trigger] history::at_most(items, limit)[i]
                == items[i],
{
}

}
