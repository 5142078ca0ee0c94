//! What a made-up history is made of.
use crate::bindings;
use crate::db::dummy::{self, ContenderView, DummyScoreView};
use crate::db::insert;
use crate::db::laws;
use crate::db::StoreView;
use crate::diff::{self, PreviousTeamView, PreviousView};
use crate::parse::{self, RowView};
use crate::score;
use crate::text;
use vstd::prelude::*;

verus! {

/// How many teams a snapshot lists: eight at first and two more each time, as far as
/// there are teams; one less in every fifth snapshot, but for the first one, once
/// more than ten take part.
pub proof fn teams_join_two_by_two(snapshot: nat, teams: nat)
    ensures
        ({
            let n = dummy::listed_teams(snapshot, teams);
            let grown = 8 + 2 * snapshot;
            let missing = snapshot % 5 == 0 && snapshot > 0;
            &&& grown >= teams && (!missing || teams <= 10) ==> n == teams
            &&& grown >= teams && missing && teams > 10 ==> n == teams - 1
            &&& grown < teams && (!missing || grown <= 10) ==> n == grown
            &&& grown < teams && missing && grown > 10 ==> n == grown - 1
        }),
{
}

proof fn lemma_placed_has(list: Seq<ContenderView>, team: ContenderView, x: ContenderView)
    requires
        list.contains(x) || x == team,
    ensures
        dummy::placed(list, team).contains(x),
    decreases list.len(),
{
    let out = dummy::placed(list, team);
    if list.len() > 0 && dummy::stands_before(team, list.last()) {
        let rest = list.drop_last();
        let inner = dummy::placed(rest, team);
        if x == list.last() {
            assert(out[inner.len() as int] == x);
        } else {
            if x != team {
                let k = choose|k: int| 0 <= k < list.len() && list[k] == x;
                assert(rest[k] == x);
            }
            lemma_placed_has(rest, team, x);
            let k = choose|k: int| 0 <= k < inner.len() && inner[k] == x;
            assert(out[k] == x);
        }
    } else if x == team {
        assert(out[list.len() as int] == x);
    } else {
        let k = choose|k: int| 0 <= k < list.len() && list[k] == x;
        assert(out[k] == x);
    }
}

proof fn lemma_ranking_has(list: Seq<ContenderView>, i: int)
    requires
        0 <= i < list.len(),
    ensures
        dummy::ranking(list).contains(list[i]),
    decreases list.len(),
{
    let rest = list.drop_last();
    if i < rest.len() {
        assert(rest[i] == list[i]);
        lemma_ranking_has(rest, i);
    }
    lemma_placed_has(dummy::ranking(rest), list.last(), list[i]);
}

/// Whether the row is that of the team with that number.
pub open spec fn is_row_of(
    row: RowView,
    snapshot: nat,
    team: nat,
    scores: Seq<DummyScoreView>,
) -> bool {
    &&& row.team_id == "dummy-"@ + text::padded(team + 1, 4)
    &&& row.version == "v"@ + text::decimal((1 + (snapshot + team) / 4) as int)
    &&& row.score == scores[team as int].score
}

/// A made-up leaderboard has every listed team once, under its name, with its score
/// and its version, and the ranks count from one. Where all numbers are numbers, a
/// greater number stands before a smaller one, and the names decide between equal
/// ones.
pub proof fn dummy_leaderboard_has_every_listed_team(
    snapshot: nat,
    teams: nat,
    scores: Seq<DummyScoreView>,
) -> (order: Seq<int>)
    ensures
        ({
            let rows = dummy::dummy_rows(snapshot, teams, scores);
            let n = dummy::listed_teams(snapshot, teams) as int;
            &&& rows.len() == n
            &&& order.len() == n
            &&& forall|i: int|
                0 <= i < n ==> 0 <= #[trigger] order[i] < n && is_row_of(
                    rows[i],
                    snapshot,
                    order[i] as nat,
                    scores,
                ) && (i < i64::MAX ==> rows[i].rank == i + 1)
            &&& forall|team: int| 0 <= team < n ==> #[trigger] order.contains(team)
            &&& (forall|team: int| 0 <= team < n ==> !score::is_nan((#[trigger] scores[team]).exact))
                ==> forall|i: int, j: int|
                0 <= i < j < n ==> {
                    let a = scores[#[trigger] order[i]].exact;
                    let b = scores[#[trigger] order[j]].exact;
                    &&& !score::score_lt(a, b)
                    &&& score::score_eq(a, b) ==> !text::text_less(rows[j].team_id, rows[i].team_id)
                }
        }),
{
    let list = dummy::contenders(snapshot, teams, scores);
    let ranked = dummy::ranking(list);
    let rows = dummy::dummy_rows(snapshot, teams, scores);
    let n = dummy::listed_teams(snapshot, teams) as int;
    assert forall|i: int, j: int| 0 <= i < j < list.len() implies (#[trigger] list[i]).team_id != (
    #[trigger] list[j]).team_id by {
        dummy::team_ids_differ(i as nat, j as nat);
    }
    dummy::lemma_ranking_names(list);
    let order = Seq::new(
        ranked.len(),
        |i: int| choose|t: int| 0 <= t < list.len() && list[t] == ranked[i],
    );
    assert forall|i: int| 0 <= i < n implies 0 <= #[trigger] order[i] < n && list[order[i]]
        == ranked[i] && is_row_of(rows[i], snapshot, order[i] as nat, scores) && (i < i64::MAX
        ==> rows[i].rank == i + 1) by {
        assert(list.contains(ranked[i]));
        let t = choose|t: int| 0 <= t < list.len() && list[t] == ranked[i];
        assert(order[i] == t);
    }
    assert forall|team: int| 0 <= team < n implies #[trigger] order.contains(team) by {
        lemma_ranking_has(list, team);
        let i = choose|i: int| 0 <= i < ranked.len() && ranked[i] == list[team];
        let t = order[i];
        assert(list[t] == list[team]);
        if t < team {
            assert(list[t].team_id != list[team].team_id);
        } else if team < t {
            assert(list[team].team_id != list[t].team_id);
        }
        assert(order[i] == team);
    }
    if forall|team: int| 0 <= team < n ==> !score::is_nan((#[trigger] scores[team]).exact) {
        assert forall|i: int| 0 <= i < list.len() implies !score::is_nan(
            (#[trigger] list[i]).exact,
        ) by {
            assert(!score::is_nan(scores[i].exact));
        }
        dummy::ranking_is_ordered(list);
        assert forall|i: int, j: int| 0 <= i < j < n implies {
            let a = scores[#[trigger] order[i]].exact;
            let b = scores[#[trigger] order[j]].exact;
            &&& !score::score_lt(a, b)
            &&& score::score_eq(a, b) ==> !text::text_less(rows[j].team_id, rows[i].team_id)
        } by {
            assert(!dummy::stands_before(ranked[j], ranked[i]));
            assert(list[order[i]] == ranked[i] && list[order[j]] == ranked[j]);
        }
    }
    order
}

/// The snapshots of a made-up history lie six hours apart, from the start of 2026
/// on, and each has its day as its date.
pub proof fn dummy_snapshots_lie_six_hours_apart(
    s: StoreView,
    snapshots: nat,
    teams: nat,
    scores: Seq<Seq<DummyScoreView>>,
    k: int,
)
    requires
        snapshots <= 1_000_000,
        0 <= k < dummy::dummy_history(s, snapshots, teams, scores).0.snapshots.len(),
    ensures
        ({
            let made = dummy::dummy_history(s, snapshots, teams, scores).0.snapshots[k];
            let moment = (1_767_225_600 + 21_600 * k) as i64;
            &&& made.fetched_at == bindings::rfc3339_of(moment)
            &&& made.id == s.snapshot_seq + 1 + k
            &&& made.row_count == dummy::listed_teams(k as nat, teams) as i64
            &&& bindings::clock_found(moment) matches Some(clock) ==> made.source_updated_at == Some(
                parse::day_text(clock.0 as int, clock.1 as int, clock.2 as int),
            )
        }),
{
    lemma_snapshots(s, snapshots, teams, scores);
}

proof fn lemma_snapshots(
    s: StoreView,
    snapshots: nat,
    teams: nat,
    scores: Seq<Seq<DummyScoreView>>,
)
    ensures
        ({
            let (after, failure) = dummy::dummy_history(s, snapshots, teams, scores);
            &&& laws::valid(after)
            &&& after.snapshots.len() <= snapshots
            &&& failure is None ==> after.snapshots.len() == snapshots
            &&& after.snapshot_seq == s.snapshot_seq + after.snapshots.len()
            &&& forall|k: int|
                0 <= k < after.snapshots.len() ==> {
                    let made = #[trigger] after.snapshots[k];
                    &&& made.fetched_at == bindings::rfc3339_of(dummy::moment_of(k as nat))
                    &&& made.source_updated_at == Some(dummy::day_of(dummy::moment_of(k as nat)))
                    &&& made.id == s.snapshot_seq + 1 + k
                    &&& made.row_count == dummy::listed_teams(k as nat, teams) as i64
                }
        }),
    decreases snapshots,
{
    dummy::dummy_history_is_valid(s, snapshots, teams, scores);
    if snapshots > 0 {
        let k = (snapshots - 1) as nat;
        lemma_snapshots(s, k, teams, scores);
        let (before, failure) = dummy::dummy_history(s, k, teams, scores);
        let date = Some(dummy::day_of(dummy::moment_of(k)));
        let rows = dummy::dummy_rows(k, teams, scores[k as int]);
        let diff = dummy::dummy_diff(k, teams, scores);
        let time = bindings::rfc3339_of(dummy::moment_of(k));
        if failure is None && insert::snapshot_inserted(before, date, rows, diff, time) is Ok {
            laws::insertion_appends(before, date, rows, diff, time);
            dummy::dummy_teams_are_distinct(k, teams, scores[k as int]);
            let after = insert::snapshot_inserted(before, date, rows, diff, time)->Ok_0;
            assert forall|i: int| 0 <= i < after.snapshots.len() implies {
                let made = #[trigger] after.snapshots[i];
                &&& made.fetched_at == bindings::rfc3339_of(dummy::moment_of(i as nat))
                &&& made.source_updated_at == Some(dummy::day_of(dummy::moment_of(i as nat)))
                &&& made.id == s.snapshot_seq + 1 + i
                &&& made.row_count == dummy::listed_teams(i as nat, teams) as i64
            } by {
                if i < before.snapshots.len() {
                    assert(after.snapshots[i] == before.snapshots[i]);
                }
            }
        }
    }
}

/// A made-up snapshot is compared with the rows of the one before it, all of them
/// present; the first one with nothing.
pub proof fn dummy_snapshots_are_compared_in_turn(
    snapshot: nat,
    teams: nat,
    scores: Seq<Seq<DummyScoreView>>,
    record: Seq<PreviousTeamView>,
)
    requires
        snapshot > 0,
        ({
            let rows = dummy::dummy_rows((snapshot - 1) as nat, teams, scores[snapshot - 1]);
            &&& record.len() == rows.len()
            &&& forall|i: int|
                0 <= i < rows.len() ==> #[trigger] record[i] == (PreviousTeamView {
                    team_id: rows[i].team_id,
                    entry: PreviousView {
                        rank: Some(rows[i].rank),
                        score: Some(rows[i].score),
                        version: Some(rows[i].version),
                        present: true,
                    },
                })
        }),
    ensures
        dummy::dummy_diff(snapshot, teams, scores) == diff::diff_of(
            record,
            dummy::dummy_rows(snapshot, teams, scores[snapshot as int]),
            Some(dummy::day_of(dummy::moment_of(snapshot))),
        ),
        dummy::dummy_diff(0, teams, scores) == diff::diff_of(
            Seq::empty(),
            dummy::dummy_rows(0, teams, scores[0]),
            Some(dummy::day_of(dummy::moment_of(0))),
        ),
{
    let rows = dummy::dummy_rows((snapshot - 1) as nat, teams, scores[snapshot - 1]);
    assert(record =~= dummy::records_of(rows));
}

/// A made-up history begins without what was there before; the numberings go on. It
/// has at least one snapshot and three teams.
pub proof fn dummy_history_begins_anew(s: StoreView, teams: nat, scores: Seq<Seq<DummyScoreView>>)
    ensures
        ({
            let (begun, failure) = dummy::dummy_history(s, 0, teams, scores);
            &&& failure is None
            &&& begun.snapshots.len() == 0
            &&& begun.teams.len() == 0
            &&& begun.entries.len() == 0
            &&& begun.events.len() == 0
            &&& begun.snapshot_seq == s.snapshot_seq
            &&& begun.team_seq == s.team_seq
            &&& begun.event_seq == s.event_seq
        }),
        dummy::snapshots_made(0) == 1,
        teams >= 1 ==> dummy::snapshots_made(teams) == teams,
        teams <= 3 ==> dummy::teams_made(teams) == 3,
        teams > 3 ==> dummy::teams_made(teams) == teams,
{
}

/// The snapshots of a made-up history are added one after another; the first one
/// that cannot be added ends it, with those before it.
pub proof fn dummy_snapshots_are_added_in_turn(
    s: StoreView,
    k: nat,
    teams: nat,
    scores: Seq<Seq<DummyScoreView>>,
)
    ensures
        ({
            let (before, failure) = dummy::dummy_history(s, k, teams, scores);
            let (after, later) = dummy::dummy_history(s, k + 1, teams, scores);
            &&& failure is Some ==> after == before && later == failure
            &&& failure is None ==> match insert::snapshot_inserted(
                before,
                Some(dummy::day_of((1_767_225_600 + 21_600 * k) as i64)),
                dummy::dummy_rows(k, teams, scores[k as int]),
                dummy::dummy_diff(k, teams, scores),
                bindings::rfc3339_of((1_767_225_600 + 21_600 * k) as i64),
            ) {
                Ok(added) => after == added && later is None,
                Err(e) => after == before && later == Some(e),
            }
        }),
{
}

}
