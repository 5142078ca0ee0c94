//! A made-up history to try the program with.
use crate::bindings::{self, clock_of, write_rfc3339_of};
use crate::db::insert::{self, insert_snapshot_at};
use crate::db::laws;
use crate::db::{Store, StoreError, StoreView};
use crate::diff::{self, diff_rows, PreviousEntry, PreviousTeam, PreviousTeamView, PreviousView};
use crate::parse::{self, write_day, LeaderboardRow, RowView};
use crate::score::{self, bits_less, Score, ScoreView};
use crate::text::{self, natural_text, padded_text, text_before};
use vstd::prelude::*;
use vstd::string::*;

verus! {

/// The first second of 2026, when the made-up history begins.
pub const START_SECONDS: i64 = 1_767_225_600;

/// The time between two of its snapshots: six hours.
pub const STEP_SECONDS: i64 = 21_600;

/// A made-up score: the number that decides the rank, and the rounded number
/// that is shown.
#[derive(Debug)]
pub struct DummyScore {
    pub exact: u64,
    pub score: Score,
}

/// What a [`DummyScore`] holds.
#[verifier::ext_equal]
pub struct DummyScoreView {
    pub exact: u64,
    pub score: ScoreView,
}

impl DeepView for DummyScore {
    type V = DummyScoreView;

    open spec fn deep_view(&self) -> DummyScoreView {
        DummyScoreView { exact: self.exact, score: self.score.deep_view() }
    }
}

/// A made-up team before it has its rank.
struct Contender {
    team_id: String,
    exact: u64,
    score: Score,
    version: String,
}

/// A made-up team before it has its rank.
#[verifier::ext_equal]
pub struct ContenderView {
    pub team_id: Seq<char>,
    pub exact: u64,
    pub score: ScoreView,
    pub version: Seq<char>,
}

impl DeepView for Contender {
    type V = ContenderView;

    closed spec fn deep_view(&self) -> ContenderView {
        ContenderView {
            team_id: self.team_id@,
            exact: self.exact,
            score: self.score.deep_view(),
            version: self.version@,
        }
    }
}

/// The teams that take part in a snapshot: eight at first, two more each time,
/// until all do.
pub open spec fn active_teams(snapshot: nat, teams: nat) -> nat {
    if 8 + snapshot * 2 < teams {
        8 + snapshot * 2
    } else {
        teams
    }
}

/// The teams that are listed in a snapshot: those that take part, but for the
/// last one in every fifth snapshot once more than ten take part.
pub open spec fn listed_teams(snapshot: nat, teams: nat) -> nat {
    let active = active_teams(snapshot, teams);
    if active > 10 && snapshot > 4 && snapshot % 5 == 0 {
        (active - 1) as nat
    } else {
        active
    }
}

/// The name of a made-up team.
pub open spec fn team_id_of(team: nat) -> Seq<char> {
    "dummy-"@ + text::padded(team + 1, 4)
}

/// The version of a made-up team: a new one every fourth snapshot.
pub open spec fn version_of(snapshot: nat, team: nat) -> Seq<char> {
    "v"@ + text::decimal((1 + (snapshot + team) / 4) as int)
}

/// The listed teams in the order of their numbers.
pub open spec fn contenders(snapshot: nat, teams: nat, scores: Seq<DummyScoreView>) -> Seq<
    ContenderView,
> {
    Seq::new(
        listed_teams(snapshot, teams),
        |team: int|
            ContenderView {
                team_id: team_id_of(team as nat),
                exact: scores[team].exact,
                score: scores[team].score,
                version: version_of(snapshot, team as nat),
            },
    )
}

/// Whether `a` stands before `b`: by a greater number, and by its name where the
/// numbers are equal.
pub open spec fn stands_before(a: ContenderView, b: ContenderView) -> bool {
    if score::score_lt(b.exact, a.exact) {
        true
    } else if score::score_lt(a.exact, b.exact) {
        false
    } else {
        text::text_less(a.team_id, b.team_id)
    }
}

/// The list with one team more, behind the last one that it does not stand
/// before.
pub open spec fn placed(list: Seq<ContenderView>, team: ContenderView) -> Seq<ContenderView>
    decreases list.len(),
{
    if list.len() > 0 && stands_before(team, list.last()) {
        placed(list.drop_last(), team).push(list.last())
    } else {
        list.push(team)
    }
}

/// The teams in the order of their ranks.
pub open spec fn ranking(teams: Seq<ContenderView>) -> Seq<ContenderView>
    decreases teams.len(),
{
    if teams.len() == 0 {
        Seq::empty()
    } else {
        placed(ranking(teams.drop_last()), teams.last())
    }
}

/// The rows of a ranking: the ranks count from one.
pub open spec fn rows_of(ranking: Seq<ContenderView>) -> Seq<RowView> {
    ranking.map(
        |i: int, team: ContenderView|
            RowView {
                rank: (i + 1) as i64,
                team_id: team.team_id,
                score: team.score,
                version: team.version,
            },
    )
}

/// The leaderboard of a snapshot.
pub open spec fn dummy_rows(snapshot: nat, teams: nat, scores: Seq<DummyScoreView>) -> Seq<RowView> {
    rows_of(ranking(contenders(snapshot, teams, scores)))
}

/// What is recorded of a row.
pub open spec fn record_of(row: RowView) -> PreviousTeamView {
    PreviousTeamView {
        team_id: row.team_id,
        entry: PreviousView {
            rank: Some(row.rank),
            score: Some(row.score),
            version: Some(row.version),
            present: true,
        },
    }
}

/// What is recorded of the rows.
pub open spec fn records_of(rows: Seq<RowView>) -> Seq<PreviousTeamView> {
    rows.map_values(|row: RowView| record_of(row))
}

/// The moment of a snapshot.
pub open spec fn moment_of(snapshot: nat) -> i64 {
    (START_SECONDS + STEP_SECONDS * snapshot) as i64
}

/// The day of a moment in UTC.
pub open spec fn day_of(seconds: i64) -> Seq<char> {
    match bindings::clock_found(seconds) {
        Some((year, month, day, _, _)) => parse::day_text(year as int, month as int, day as int),
        None => Seq::empty(),
    }
}

/// The history without its snapshots, teams, entries and events; the numberings
/// go on.
pub open spec fn cleared(s: StoreView) -> StoreView {
    StoreView {
        snapshots: Seq::empty(),
        teams: Seq::empty(),
        entries: Seq::empty(),
        events: Seq::empty(),
        ..s
    }
}

/// The comparison of a made-up snapshot with the one before it.
pub open spec fn dummy_diff(snapshot: nat, teams: nat, scores: Seq<Seq<DummyScoreView>>) -> diff::DiffView {
    diff::diff_of(
        if snapshot == 0 {
            Seq::empty()
        } else {
            records_of(dummy_rows((snapshot - 1) as nat, teams, scores[snapshot - 1]))
        },
        dummy_rows(snapshot, teams, scores[snapshot as int]),
        Some(day_of(moment_of(snapshot))),
    )
}

/// The history after the first made-up snapshots, and the failure that ended
/// them, where there was one.
pub open spec fn dummy_history(
    s: StoreView,
    snapshots: nat,
    teams: nat,
    scores: Seq<Seq<DummyScoreView>>,
) -> (StoreView, Option<StoreError>)
    decreases snapshots,
{
    if snapshots == 0 {
        (cleared(s), None)
    } else {
        let k = (snapshots - 1) as nat;
        match dummy_history(s, k, teams, scores) {
            (before, Some(e)) => (before, Some(e)),
            (before, None) => match insert::snapshot_inserted(
                before,
                Some(day_of(moment_of(k))),
                dummy_rows(k, teams, scores[k as int]),
                dummy_diff(k, teams, scores),
                bindings::rfc3339_of(moment_of(k)),
            ) {
                Ok(after) => (after, None),
                Err(e) => (before, Some(e)),
            },
        }
    }
}

fn write_day_of(seconds: i64) -> (text: String)
    ensures
        text@ == day_of(seconds),
{
    match clock_of(seconds) {
        Some(clock) => write_day(clock.0, clock.1, clock.2),
        None => {
            let none = String::new();
            assert(none@ =~= Seq::<char>::empty());
            none
        },
    }
}

fn place(list: &mut Vec<Contender>, team: Contender)
    ensures
        final(list).deep_view() == placed(old(list).deep_view(), team.deep_view()),
{
    let ghost start = list.deep_view();
    let ghost view = team.deep_view();
    let mut i: usize = list.len();
    assert(start.take(i as int) =~= start);
    assert(placed(start, view) =~= placed(start.take(i as int), view) + start.skip(i as int));
    while i > 0
        invariant_except_break
            i <= list@.len(),
            start == list.deep_view(),
            view == team.deep_view(),
            placed(start, view) == placed(start.take(i as int), view) + start.skip(i as int),
        ensures
            i <= list@.len(),
            start == list.deep_view(),
            view == team.deep_view(),
            placed(start, view) == start.take(i as int).push(view) + start.skip(i as int),
        decreases i,
    {
        let last = &list[i - 1];
        assert(start[i - 1] == last.deep_view());
        assert(start.take(i as int).last() == last.deep_view());
        let before = if bits_less(last.exact, team.exact) {
            true
        } else if bits_less(team.exact, last.exact) {
            false
        } else {
            text_before(team.team_id.as_str(), last.team_id.as_str())
        };
        if !before {
            break;
        }
        proof {
            assert(start.take(i as int).drop_last() =~= start.take(i - 1));
            let inner = placed(start.take(i - 1), view);
            assert(inner.push(start[i - 1]) + start.skip(i as int) =~= inner + start.skip(i - 1));
        }
        i -= 1;
    }
    list.insert(i, team);
    assert(list.deep_view() =~= start.take(i as int).push(view) + start.skip(i as int));
}

/// The leaderboard of a made-up snapshot. `scores` has the scores of the teams by
/// their numbers.
pub fn build_dummy_rows(snapshot_idx: usize, teams: usize, scores: &Vec<DummyScore>) -> (rows: Vec<
    LeaderboardRow,
>)
    requires
        8 + snapshot_idx * 3 <= usize::MAX,
        listed_teams(snapshot_idx as nat, teams as nat) <= scores@.len(),
    ensures
        rows.deep_view() == dummy_rows(snapshot_idx as nat, teams as nat, scores.deep_view()),
{
    let grown: usize = 8 + snapshot_idx * 2;
    let active: usize = if grown < teams {
        grown
    } else {
        teams
    };
    let listed: usize = if active > 10 && snapshot_idx > 4 && snapshot_idx % 5 == 0 {
        active - 1
    } else {
        active
    };
    let ghost all = contenders(snapshot_idx as nat, teams as nat, scores.deep_view());
    let mut list: Vec<Contender> = Vec::new();
    let mut i: usize = 0;
    assert(all.take(0) =~= Seq::<ContenderView>::empty());
    assert(list.deep_view() =~= Seq::<ContenderView>::empty());
    while i < listed
        invariant
            i <= listed,
            listed == listed_teams(snapshot_idx as nat, teams as nat),
            listed <= scores@.len(),
            listed <= 8 + snapshot_idx * 2,
            8 + snapshot_idx * 3 <= usize::MAX,
            all == contenders(snapshot_idx as nat, teams as nat, scores.deep_view()),
            list.deep_view() == ranking(all.take(i as int)),
        decreases listed - i,
    {
        let mut team_id = "dummy-".to_owned();
        team_id.append(padded_text(i as u64 + 1, 4).as_str());
        let mut version = "v".to_owned();
        version.append(natural_text(1 + (snapshot_idx as u64 + i as u64) / 4).as_str());
        let team = Contender {
            team_id,
            exact: scores[i].exact,
            score: scores[i].score.clone(),
            version,
        };
        proof {
            assert(scores.deep_view()[i as int] == scores@[i as int].deep_view());
            assert(team.deep_view() =~= all[i as int]);
            assert(all.take(i + 1).drop_last() =~= all.take(i as int));
            assert(all.take(i + 1).last() == all[i as int]);
        }
        place(&mut list, team);
        i += 1;
    }
    assert(all.take(i as int) =~= all);
    let ghost order = list.deep_view();
    let mut rows: Vec<LeaderboardRow> = Vec::new();
    let mut j: usize = 0;
    assert(rows.deep_view() =~= rows_of(order).take(0));
    while j < list.len()
        invariant
            j <= list@.len(),
            order == list.deep_view(),
            rows.deep_view() == rows_of(order).take(j as int),
        decreases list@.len() - j,
    {
        let ghost before = rows.deep_view();
        let row = LeaderboardRow {
            rank: (j as u64 + 1) as i64,
            team_id: list[j].team_id.clone(),
            score: list[j].score.clone(),
            version: list[j].version.clone(),
        };
        let ghost view = row.deep_view();
        rows.push(row);
        proof {
            assert(order[j as int] == list@[j as int].deep_view());
            assert(rows.deep_view() =~= before.push(view));
            assert(rows_of(order).take(j + 1) =~= rows_of(order).take(j as int).push(view));
        }
        j += 1;
    }
    assert(rows_of(order).take(j as int) =~= rows_of(order));
    rows
}

fn record_rows(rows: &Vec<LeaderboardRow>) -> (records: Vec<PreviousTeam>)
    ensures
        records.deep_view() == records_of(rows.deep_view()),
{
    let ghost all = rows.deep_view();
    let mut records: Vec<PreviousTeam> = Vec::new();
    let mut i: usize = 0;
    assert(records.deep_view() =~= records_of(all).take(0));
    while i < rows.len()
        invariant
            i <= rows@.len(),
            all == rows.deep_view(),
            records.deep_view() == records_of(all).take(i as int),
        decreases rows@.len() - i,
    {
        let ghost before = records.deep_view();
        let record = PreviousTeam {
            team_id: rows[i].team_id.clone(),
            entry: PreviousEntry {
                rank: Some(rows[i].rank),
                score: Some(rows[i].score.clone()),
                version: Some(rows[i].version.clone()),
                present: true,
            },
        };
        let ghost view = record.deep_view();
        records.push(record);
        proof {
            assert(all[i as int] == rows@[i as int].deep_view());
            assert(records.deep_view() =~= before.push(view));
            assert(records_of(all).take(i + 1) =~= records_of(all).take(i as int).push(view));
        }
        i += 1;
    }
    assert(records_of(all).take(i as int) =~= records_of(all));
    records
}

/// The number of snapshots that are made: at least one.
pub open spec fn snapshots_made(snapshots: nat) -> nat {
    if snapshots < 1 {
        1
    } else {
        snapshots
    }
}

/// The number of teams that there are: at least three.
pub open spec fn teams_made(teams: nat) -> nat {
    if teams < 3 {
        3
    } else {
        teams
    }
}

/// Whether there is a score for every team that is listed in a snapshot.
pub open spec fn scores_suffice(snapshots: nat, teams: nat, scores: Seq<Seq<DummyScoreView>>) -> bool {
    &&& snapshots <= scores.len()
    &&& forall|k: int|
        0 <= k < snapshots ==> listed_teams(k as nat, teams) <= (#[trigger] scores[k]).len()
}

/// Whether the time of each snapshot reads back as its moment, up to the year ten
/// thousand.
pub open spec fn times_read_back(s: StoreView) -> bool {
    forall|k: int|
        0 <= k < s.snapshots.len() && moment_of(k as nat) < bindings::YEAR_TEN_THOUSAND
            ==> bindings::rfc3339_seconds((#[trigger] s.snapshots[k]).fetched_at) == Some(
            moment_of(k as nat),
        )
}

/// Replaces the history by a made-up one. `scores` has, for each snapshot, the
/// scores of the teams by their numbers. A failure ends it with the snapshots
/// that were made until then.
pub fn replace_with_dummy_data(
    store: &mut Store,
    snapshots: usize,
    teams: usize,
    scores: &Vec<Vec<DummyScore>>,
) -> (result: Result<(), StoreError>)
    requires
        START_SECONDS + STEP_SECONDS * snapshots <= bindings::LAST_SECOND,
        8 + snapshots * 3 <= usize::MAX,
        scores_suffice(
            snapshots_made(snapshots as nat),
            teams_made(teams as nat),
            scores.deep_view(),
        ),
    ensures
        ({
            let (after, failure) = dummy_history(
                old(store).deep_view(),
                snapshots_made(snapshots as nat),
                teams_made(teams as nat),
                scores.deep_view(),
            );
            &&& final(store).deep_view() == after
            &&& match failure {
                None => result == Ok::<(), StoreError>(()),
                Some(e) => result == Err::<(), StoreError>(e),
            }
        }),
        times_read_back(final(store).deep_view()),
{
    let ghost start = store.deep_view();
    let ghost all = scores.deep_view();
    let count: usize = if snapshots < 1 {
        1
    } else {
        snapshots
    };
    let team_count: usize = if teams < 3 {
        3
    } else {
        teams
    };
    store.snapshots = Vec::new();
    store.teams = Vec::new();
    store.entries = Vec::new();
    store.events = Vec::new();
    assert(store.deep_view() =~~= cleared(start));
    let mut previous: Vec<PreviousTeam> = Vec::new();
    assert(previous.deep_view() =~= Seq::<PreviousTeamView>::empty());
    let mut k: usize = 0;
    while k < count
        invariant
            k <= count,
            count == snapshots_made(snapshots as nat),
            team_count == teams_made(teams as nat),
            start == old(store).deep_view(),
            all == scores.deep_view(),
            count <= 1 || START_SECONDS + STEP_SECONDS * count <= bindings::LAST_SECOND,
            8 + count * 3 <= usize::MAX,
            scores_suffice(count as nat, team_count as nat, all),
            dummy_history(start, k as nat, team_count as nat, all) == (
                store.deep_view(),
                None::<StoreError>,
            ),
            previous.deep_view() == (if k == 0 {
                Seq::empty()
            } else {
                records_of(dummy_rows((k - 1) as nat, team_count as nat, all[k - 1]))
            }),
            times_read_back(store.deep_view()),
        decreases count - k,
    {
        proof {
            assert(all[k as int] == scores@[k as int].deep_view());
            assert(STEP_SECONDS * k <= STEP_SECONDS * count) by (nonlinear_arith)
                requires
                    k <= count,
                    STEP_SECONDS == 21_600,
            ;
        }
        let moment: i64 = START_SECONDS + STEP_SECONDS * (k as i64);
        let source_updated_at = write_day_of(moment);
        let fetched_at = write_rfc3339_of(moment);
        let rows = build_dummy_rows(k, team_count, &scores[k]);
        let diff = diff_rows(&previous, &rows, Some(source_updated_at.as_str()));
        proof {
            assert(diff.deep_view() == dummy_diff(k as nat, team_count as nat, all));
        }
        let ghost before = store.deep_view();
        if let Err(e) = insert_snapshot_at(
            store,
            Some(source_updated_at.as_str()),
            &rows,
            &diff,
            fetched_at.as_str(),
        ) {
            proof {
                lemma_failure_stays(start, (k + 1) as nat, count as nat, team_count as nat, all);
            }
            return Err(e);
        }
        proof {
            dummy_history_is_valid(start, k as nat, team_count as nat, all);
            laws::insertion_appends(
                before,
                Some(source_updated_at@),
                rows.deep_view(),
                diff.deep_view(),
                fetched_at@,
            );
            let after = store.deep_view();
            assert forall|j: int|
                0 <= j < after.snapshots.len() && moment_of(j as nat)
                    < bindings::YEAR_TEN_THOUSAND implies bindings::rfc3339_seconds(
                (#[trigger] after.snapshots[j]).fetched_at,
            ) == Some(moment_of(j as nat)) by {
                if j < k {
                    assert(after.snapshots[j] == before.snapshots[j]);
                }
            }
        }
        previous = record_rows(&rows);
        k += 1;
    }
    Ok(())
}

/// A failure ends the made-up history.
proof fn lemma_failure_stays(
    s: StoreView,
    k: nat,
    n: nat,
    teams: nat,
    scores: Seq<Seq<DummyScoreView>>,
)
    requires
        k <= n,
        dummy_history(s, k, teams, scores).1 is Some,
    ensures
        dummy_history(s, n, teams, scores) == dummy_history(s, k, teams, scores),
    decreases n,
{
    if k < n {
        lemma_failure_stays(s, k, (n - 1) as nat, teams, scores);
    }
}

/// Whether the list is in the order of the ranks.
pub open spec fn in_rank_order(list: Seq<ContenderView>) -> bool {
    forall|i: int, j: int|
        0 <= i < j < list.len() ==> !stands_before(#[trigger] list[j], #[trigger] list[i])
}

proof fn lemma_stands_before_is_transitive(a: ContenderView, b: ContenderView, c: ContenderView)
    requires
        !score::is_nan(a.exact),
        !score::is_nan(b.exact),
        !score::is_nan(c.exact),
        !stands_before(b, a),
        !stands_before(c, b),
    ensures
        !stands_before(c, a),
{
    text::text_order_is_total(a.team_id, b.team_id);
    text::text_order_is_total(b.team_id, c.team_id);
    text::text_order_is_total(a.team_id, c.team_id);
    if text::text_less(a.team_id, b.team_id) && text::text_less(b.team_id, c.team_id) {
        text::text_order_is_transitive(a.team_id, b.team_id, c.team_id);
    }
}

/// Whether every team's number is a number.
pub open spec fn all_numbers(list: Seq<ContenderView>) -> bool {
    forall|i: int| 0 <= i < list.len() ==> !score::is_nan((#[trigger] list[i]).exact)
}

/// A team that was placed is in the list, beside the teams that were.
proof fn lemma_placed_members(list: Seq<ContenderView>, team: ContenderView)
    ensures
        placed(list, team).len() == list.len() + 1,
        forall|i: int|
            0 <= i < placed(list, team).len() ==> #[trigger] placed(list, team)[i] == team
                || list.contains(placed(list, team)[i]),
    decreases list.len(),
{
    let out = placed(list, team);
    if list.len() > 0 && stands_before(team, list.last()) {
        let rest = list.drop_last();
        let inner = placed(rest, team);
        lemma_placed_members(rest, team);
        assert forall|i: int| 0 <= i < out.len() implies #[trigger] out[i] == team
            || list.contains(out[i]) by {
            if i < inner.len() {
                assert(out[i] == inner[i]);
                if inner[i] != team {
                    let k = choose|k: int| 0 <= k < rest.len() && rest[k] == inner[i];
                    assert(list[k] == inner[i]);
                }
            } else {
                assert(out[i] == list[list.len() - 1]);
            }
        }
    } else {
        assert forall|i: int| 0 <= i < out.len() implies #[trigger] out[i] == team
            || list.contains(out[i]) by {
            if i < list.len() {
                assert(out[i] == list[i]);
            }
        }
    }
}

proof fn lemma_placed(list: Seq<ContenderView>, team: ContenderView)
    requires
        all_numbers(list),
        !score::is_nan(team.exact),
        in_rank_order(list),
    ensures
        in_rank_order(placed(list, team)),
        all_numbers(placed(list, team)),
        placed(list, team).to_multiset() == list.to_multiset().insert(team),
    decreases list.len(),
{
    broadcast use vstd::seq_lib::group_to_multiset_ensures;

    let out = placed(list, team);
    if list.len() > 0 && stands_before(team, list.last()) {
        let rest = list.drop_last();
        let last = list.last();
        let inner = placed(rest, team);
        assert forall|i: int| 0 <= i < rest.len() implies !score::is_nan(
            (#[trigger] rest[i]).exact,
        ) by {
            assert(rest[i] == list[i]);
        }
        assert forall|i: int, j: int| 0 <= i < j < rest.len() implies !stands_before(
            #[trigger] rest[j],
            #[trigger] rest[i],
        ) by {
            assert(rest[i] == list[i] && rest[j] == list[j]);
        }
        lemma_placed(rest, team);
        lemma_placed_members(rest, team);
        assert(list[list.len() - 1] == last);
        assert forall|i: int, j: int| 0 <= i < j < out.len() implies !stands_before(
            #[trigger] out[j],
            #[trigger] out[i],
        ) by {
            assert(out[i] == inner[i]);
            if j < inner.len() {
                assert(out[j] == inner[j]);
            } else if inner[i] == team {
                text::text_order_is_total(team.team_id, last.team_id);
            } else {
                let k = choose|k: int| 0 <= k < rest.len() && rest[k] == inner[i];
                assert(list[k] == inner[i]);
            }
        }
        assert forall|i: int| 0 <= i < out.len() implies !score::is_nan(
            (#[trigger] out[i]).exact,
        ) by {
            if i < inner.len() {
                assert(out[i] == inner[i]);
            }
        }
        assert(rest.push(last) =~= list);
        assert(out.to_multiset() =~= list.to_multiset().insert(team));
    } else {
        assert forall|i: int, j: int| 0 <= i < j < out.len() implies !stands_before(
            #[trigger] out[j],
            #[trigger] out[i],
        ) by {
            assert(out[i] == list[i]);
            if j < list.len() {
                assert(out[j] == list[j]);
            } else if i < list.len() - 1 {
                let z = list[list.len() - 1];
                lemma_stands_before_is_transitive(list[i], z, team);
            }
        }
        assert forall|i: int| 0 <= i < out.len() implies !score::is_nan(
            (#[trigger] out[i]).exact,
        ) by {
            if i < list.len() {
                assert(out[i] == list[i]);
            }
        }
    }
}

/// The ranking has the same teams, and nobody stands behind a team that it
/// should stand before.
pub proof fn ranking_is_ordered(teams: Seq<ContenderView>)
    requires
        all_numbers(teams),
    ensures
        in_rank_order(ranking(teams)),
        ranking(teams).to_multiset() == teams.to_multiset(),
        ranking(teams).len() == teams.len(),
        all_numbers(ranking(teams)),
    decreases teams.len(),
{
    broadcast use vstd::seq_lib::group_to_multiset_ensures;

    if teams.len() == 0 {
        assert(ranking(teams) =~= teams);
    } else {
        let rest = teams.drop_last();
        assert forall|i: int| 0 <= i < rest.len() implies !score::is_nan(
            (#[trigger] rest[i]).exact,
        ) by {
            assert(rest[i] == teams[i]);
        }
        assert(!score::is_nan(teams[teams.len() - 1].exact));
        ranking_is_ordered(rest);
        lemma_placed(ranking(rest), teams.last());
        lemma_placed_members(ranking(rest), teams.last());
        assert(rest.push(teams.last()) =~= teams);
    }
}

/// The made-up history fits together and has one snapshot for each step; the
/// numberings of what it replaces go on.
pub proof fn dummy_history_is_valid(
    s: StoreView,
    snapshots: nat,
    teams: nat,
    scores: Seq<Seq<DummyScoreView>>,
)
    ensures
        laws::valid(dummy_history(s, snapshots, teams, scores).0),
        dummy_history(s, snapshots, teams, scores).1 is None ==> dummy_history(
            s,
            snapshots,
            teams,
            scores,
        ).0.snapshots.len() == snapshots,
    decreases snapshots,
{
    if snapshots > 0 {
        let k = (snapshots - 1) as nat;
        dummy_history_is_valid(s, k, teams, scores);
        let (before, failure) = dummy_history(s, k, teams, scores);
        let date = Some(day_of(moment_of(k)));
        let rows = dummy_rows(k, teams, scores[k as int]);
        let diff = dummy_diff(k, teams, scores);
        let time = bindings::rfc3339_of(moment_of(k));
        if failure is None && insert::snapshot_inserted(before, date, rows, diff, time) is Ok {
            laws::insertion_keeps_valid(before, date, rows, diff, time);
            laws::insertion_appends(before, date, rows, diff, time);
        }
    }
}

/// Whether no two teams have one name.
pub open spec fn names_distinct(list: Seq<ContenderView>) -> bool {
    forall|i: int, j: int|
        0 <= i < j < list.len() ==> (#[trigger] list[i]).team_id != (#[trigger] list[j]).team_id
}

/// No two made-up teams have one name.
pub proof fn team_ids_differ(a: nat, b: nat)
    requires
        a != b,
    ensures
        team_id_of(a) != team_id_of(b),
{
    text::numerals_denote_their_number(a + 1, 4);
    text::numerals_denote_their_number(b + 1, 4);
    let skip = "dummy-"@.len() as int;
    assert(team_id_of(a).skip(skip) =~= text::padded(a + 1, 4));
    assert(team_id_of(b).skip(skip) =~= text::padded(b + 1, 4));
}

proof fn lemma_placed_names(list: Seq<ContenderView>, team: ContenderView)
    requires
        names_distinct(list),
        forall|i: int| 0 <= i < list.len() ==> (#[trigger] list[i]).team_id != team.team_id,
    ensures
        names_distinct(placed(list, team)),
    decreases list.len(),
{
    let out = placed(list, team);
    if list.len() > 0 && stands_before(team, list.last()) {
        let rest = list.drop_last();
        let last = list.len() - 1;
        let inner = placed(rest, team);
        assert(forall|i: int| 0 <= i < rest.len() ==> #[trigger] rest[i] == list[i]);
        lemma_placed_names(rest, team);
        lemma_placed_members(rest, team);
        assert forall|i: int| 0 <= i < inner.len() implies (#[trigger] inner[i]).team_id
            != list[last].team_id by {
            if inner[i] != team {
                let k = choose|k: int| 0 <= k < rest.len() && rest[k] == inner[i];
                assert(list[k] == inner[i]);
            }
        }
        assert forall|i: int, j: int| 0 <= i < j < out.len() implies (#[trigger] out[i]).team_id != (
        #[trigger] out[j]).team_id by {
            assert(out[i] == inner[i]);
            if j < inner.len() {
                assert(out[j] == inner[j]);
            } else {
                assert(out[j] == list[last]);
            }
        }
    } else {
        assert forall|i: int, j: int| 0 <= i < j < out.len() implies (#[trigger] out[i]).team_id != (
        #[trigger] out[j]).team_id by {
            assert(out[i] == list[i]);
            if j < list.len() {
                assert(out[j] == list[j]);
            }
        }
    }
}

pub proof fn lemma_ranking_names(teams: Seq<ContenderView>)
    requires
        names_distinct(teams),
    ensures
        names_distinct(ranking(teams)),
        ranking(teams).len() == teams.len(),
        forall|i: int|
            0 <= i < ranking(teams).len() ==> teams.contains(#[trigger] ranking(teams)[i]),
    decreases teams.len(),
{
    if teams.len() > 0 {
        let rest = teams.drop_last();
        let last = teams.len() - 1;
        let team = teams.last();
        let order = ranking(rest);
        let out = ranking(teams);
        assert(forall|i: int| 0 <= i < rest.len() ==> #[trigger] rest[i] == teams[i]);
        lemma_ranking_names(rest);
        assert forall|i: int| 0 <= i < order.len() implies (#[trigger] order[i]).team_id
            != team.team_id && teams.contains(order[i]) by {
            assert(rest.contains(order[i]));
            let k = choose|k: int| 0 <= k < rest.len() && rest[k] == order[i];
            assert(teams[k] == order[i]);
            assert(teams[k].team_id != teams[last].team_id);
        }
        lemma_placed_names(order, team);
        lemma_placed_members(order, team);
        assert forall|i: int| 0 <= i < out.len() implies teams.contains(#[trigger] out[i]) by {
            if out[i] == team {
                assert(teams[last] == out[i]);
            } else {
                let k = choose|k: int| 0 <= k < order.len() && order[k] == out[i];
                assert(teams.contains(order[k]));
            }
        }
    }
}

/// A made-up leaderboard lists no team twice.
pub proof fn dummy_teams_are_distinct(snapshot: nat, teams: nat, scores: Seq<DummyScoreView>)
    ensures
        laws::teams_distinct(dummy_rows(snapshot, teams, scores)),
        dummy_rows(snapshot, teams, scores).len() == listed_teams(snapshot, teams),
{
    let list = contenders(snapshot, teams, scores);
    assert forall|i: int, j: int| 0 <= i < j < list.len() implies (#[trigger] list[i]).team_id != (
    #[trigger] list[j]).team_id by {
        team_ids_differ(i as nat, j as nat);
    }
    lemma_ranking_names(list);
    let order = ranking(list);
    let rows = dummy_rows(snapshot, teams, scores);
    assert forall|i: int, j: int| 0 <= i < j < rows.len() implies (#[trigger] rows[i]).team_id != (
    #[trigger] rows[j]).team_id by {
        assert(order[i].team_id != order[j].team_id);
    }
}

/// Where the numberings have room, the made-up history is complete: one snapshot
/// takes one number, at most three for each team, and at most two events for
/// each team.
pub proof fn dummy_history_is_complete(
    s: StoreView,
    snapshots: nat,
    teams: nat,
    scores: Seq<Seq<DummyScoreView>>,
)
    requires
        s.snapshot_seq + snapshots <= i64::MAX,
        s.team_seq + 3 * (teams * snapshots) <= i64::MAX,
        s.event_seq + 2 * (teams * snapshots) <= i64::MAX,
    ensures
        ({
            let (after, failure) = dummy_history(s, snapshots, teams, scores);
            &&& failure is None
            &&& after.snapshots.len() == snapshots
            &&& after.snapshot_seq == s.snapshot_seq + snapshots
            &&& after.team_seq <= s.team_seq + 3 * (teams * snapshots)
            &&& after.event_seq <= s.event_seq + 2 * (teams * snapshots)
        }),
    decreases snapshots,
{
    dummy_history_is_valid(s, snapshots, teams, scores);
    if snapshots == 0 {
        assert(teams * snapshots == 0) by (nonlinear_arith)
            requires
                snapshots == 0,
        ;
    } else {
        let k = (snapshots - 1) as nat;
        assert(teams * snapshots == teams * k + teams) by (nonlinear_arith)
            requires
                snapshots == k + 1,
        ;
        dummy_history_is_complete(s, k, teams, scores);
        dummy_history_is_valid(s, k, teams, scores);
        let before = dummy_history(s, k, teams, scores).0;
        let date = Some(day_of(moment_of(k)));
        let rows = dummy_rows(k, teams, scores[k as int]);
        let earlier = if k == 0 {
            Seq::empty()
        } else {
            records_of(dummy_rows((k - 1) as nat, teams, scores[k - 1]))
        };
        let diff = dummy_diff(k, teams, scores);
        let time = bindings::rfc3339_of(moment_of(k));
        dummy_teams_are_distinct(k, teams, scores[k as int]);
        if k > 0 {
            let listed = dummy_rows((k - 1) as nat, teams, scores[k - 1]);
            dummy_teams_are_distinct((k - 1) as nat, teams, scores[k - 1]);
            assert forall|i: int, j: int| 0 <= i < j < earlier.len() implies (
            #[trigger] earlier[i]).team_id != (#[trigger] earlier[j]).team_id by {
                assert(listed[i].team_id != listed[j].team_id);
            }
        }
        laws::comparison_is_bounded(earlier, rows, date);
        laws::insertion_succeeds_iff_it_fits(before, date, rows, diff, time);
        laws::insertion_appends(before, date, rows, diff, time);
    }
}

}
