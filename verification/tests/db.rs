use lb_monitor::db::dummy::{
    build_dummy_rows, replace_with_dummy_data, DummyScore, START_SECONDS, STEP_SECONDS,
};
use lb_monitor::db::history::{
    chart_point, chart_series_to_snapshot, events_for_snapshot, recent_events, team_chart_series,
};
use lb_monitor::db::insert::{insert_snapshot, insert_snapshot_at};
use lb_monitor::db::read::{leaderboard_state, previous_snapshot_rows, ScoreDelta};
use lb_monitor::db::{
    assert_has_snapshots, latest_snapshot_id, next_snapshot_id, previous_snapshot_id,
    resolve_snapshot_id, snapshot_meta, Store, StoreError,
};
use lb_monitor::diff::{diff_rows, DiffResult, EventType};
use lb_monitor::parse::LeaderboardRow;
use lb_monitor::score::Score;

fn score(x: f64) -> Score {
    Score { bits: x.to_bits(), fixed: format!("{:.4}", x), debug: format!("{:?}", x) }
}

fn row(rank: i64, team_id: &str, value: f64, version: &str) -> LeaderboardRow {
    LeaderboardRow {
        rank,
        team_id: team_id.to_string(),
        score: score(value),
        version: version.to_string(),
    }
}

fn difference(delta: &Option<ScoreDelta>) -> Option<f64> {
    delta.as_ref().map(|delta| f64::from_bits(delta.new.bits) - f64::from_bits(delta.old.bits))
}

fn add(store: &mut Store, rows: &Vec<LeaderboardRow>, time: &str) {
    let previous = previous_snapshot_rows(store);
    let diff = diff_rows(&previous, rows, None);
    insert_snapshot_at(store, None, rows, &diff, time).expect("insert");
}

fn dummy_score(snapshot_idx: usize, team_idx: usize, teams: usize) -> DummyScore {
    let tier = (teams.saturating_sub(team_idx)) as f64 / teams as f64;
    let trend = match team_idx % 4 {
        0 => snapshot_idx as f64 * 0.0022,
        1 => -(snapshot_idx as f64) * 0.0014,
        2 => snapshot_idx as f64 * 0.0011,
        _ => -(snapshot_idx as f64) * 0.0004,
    };
    let wave = (((snapshot_idx * (team_idx + 3)) % 11) as f64 - 5.0) / 900.0;
    let rivalry = if team_idx % 6 == 0 { snapshot_idx as f64 * 0.0009 } else { 0.0 };
    let exact = (0.12 + tier * 0.68 + trend + wave + rivalry).max(0.0);
    DummyScore { exact: exact.to_bits(), score: score((exact * 10_000.0).round() / 10_000.0) }
}

fn dummy_scores(snapshots: usize, teams: usize) -> Vec<Vec<DummyScore>> {
    (0..snapshots).map(|s| (0..teams).map(|t| dummy_score(s, t, teams)).collect()).collect()
}

#[test]
fn stores_snapshot_and_query_views() {
    let mut store = Store::new();
    let rows = vec![row(1, "alpha", 99.0, "v1")];
    let diff = diff_rows(&Vec::new(), &rows, Some("2026-05-07"));
    insert_snapshot(&mut store, Some("2026-05-07"), &rows, &diff).expect("insert snapshot");

    let board = leaderboard_state(&store, None).expect("query board").leaderboard;
    assert_eq!(board.len(), 1);
    assert_eq!(board[0].team_id, "alpha");

    let events = recent_events(&store, None, Some("alpha"), 10);
    assert_eq!(events.len(), 1);
    assert_eq!(events[0].event_type, EventType::NewTeam.as_str());
}

#[test]
fn loads_specific_snapshot_against_its_previous_snapshot() {
    let mut store = Store::new();

    let first_rows = vec![row(1, "alpha", 99.0, "v1")];
    let first_diff = diff_rows(&Vec::new(), &first_rows, Some("2026-05-07"));
    insert_snapshot(&mut store, Some("2026-05-07"), &first_rows, &first_diff)
        .expect("insert first snapshot");

    let second_rows = vec![row(1, "alpha", 101.5, "v1")];
    let previous = previous_snapshot_rows(&store);
    let second_diff = diff_rows(&previous, &second_rows, Some("2026-05-08"));
    insert_snapshot(&mut store, Some("2026-05-08"), &second_rows, &second_diff)
        .expect("insert second snapshot");

    let latest = leaderboard_state(&store, None).expect("latest state");
    assert_eq!(latest.snapshot.current_snapshot_id, Some(2));
    assert_eq!(latest.snapshot.previous_snapshot_id, Some(1));
    assert_eq!(difference(&latest.leaderboard[0].score_delta), Some(2.5));

    let first = leaderboard_state(&store, Some(1)).expect("first state");
    assert_eq!(first.snapshot.current_snapshot_id, Some(1));
    assert_eq!(first.snapshot.previous_snapshot_id, None);
    assert_eq!(difference(&first.leaderboard[0].score_delta), None);

    let events = events_for_snapshot(&store, Some(2), Some("alpha"), 10);
    assert_eq!(events.len(), 1);
    assert_eq!(events[0].event_type, EventType::ScoreChanged.as_str());

    let chart =
        chart_series_to_snapshot(&store, &vec!["alpha".to_string()], Some(1)).expect("chart");
    assert_eq!(chart.len(), 1);
    assert_eq!(chart[0].team_id, "alpha");
    assert_eq!(chart[0].points.len(), 1);
}

#[test]
fn generates_dummy_database() {
    let mut store = Store::new();

    replace_with_dummy_data(&mut store, 6, 12, &dummy_scores(6, 12)).expect("generate dummy data");

    let snapshot_count = store.snapshots.len();
    let team_count = store.teams.len();

    assert_eq!(snapshot_count, 6);
    assert!(team_count >= 8);
    assert!(!leaderboard_state(&store, None).expect("leaderboard").leaderboard.is_empty());
}

#[test]
fn dummy_history_has_its_times_and_ranks() {
    let mut store = Store::new();
    add(&mut store, &vec![row(1, "old", 1.0, "v1")], "2026-05-07T00:00:00Z");
    replace_with_dummy_data(&mut store, 0, 2, &dummy_scores(1, 3)).expect("dummy");
    assert_eq!(store.snapshots.len(), 1);
    assert_eq!(store.snapshots[0].id, 2);
    assert_eq!(store.snapshots[0].fetched_at, "2026-01-01T00:00:00+00:00");
    assert_eq!(store.snapshots[0].source_updated_at.as_deref(), Some("2026-01-01"));
    assert_eq!(store.teams.len(), 3);
    let state = leaderboard_state(&store, None).expect("state");
    assert_eq!(state.leaderboard.len(), 3);
    assert_eq!(state.leaderboard[0].team_id, "dummy-0001");
    assert_eq!(START_SECONDS + 4 * STEP_SECONDS, 1_767_312_000);

    replace_with_dummy_data(&mut store, 3, 3, &dummy_scores(3, 3)).expect("dummy");
    assert_eq!(store.snapshots.len(), 3);
    assert_eq!(store.snapshots[2].fetched_at, "2026-01-01T12:00:00+00:00");
    assert_eq!(store.snapshots[0].id, 3);
}

#[test]
fn dummy_rows_are_ranked() {
    let scores = vec![
        DummyScore { exact: 0.5f64.to_bits(), score: score(0.5) },
        DummyScore { exact: 0.75f64.to_bits(), score: score(0.75) },
        DummyScore { exact: 0.5f64.to_bits(), score: score(0.5) },
    ];
    let rows = build_dummy_rows(5, 3, &scores);
    let names: Vec<&str> = rows.iter().map(|row| row.team_id.as_str()).collect();
    assert_eq!(names, vec!["dummy-0002", "dummy-0001", "dummy-0003"]);
    assert_eq!(rows[0].rank, 1);
    assert_eq!(rows[2].rank, 3);
    assert_eq!(rows[0].version, "v2");
    assert_eq!(rows[2].version, "v2");
}

#[test]
fn last_dummy_team_is_missing_every_fifth_time() {
    let at_five: Vec<DummyScore> = (0..12).map(|t| dummy_score(5, t, 12)).collect();
    assert_eq!(build_dummy_rows(5, 12, &at_five).len(), 11);
    let at_six: Vec<DummyScore> = (0..12).map(|t| dummy_score(6, t, 12)).collect();
    assert_eq!(build_dummy_rows(6, 12, &at_six).len(), 12);
    let at_zero: Vec<DummyScore> = (0..8).map(|t| dummy_score(0, t, 12)).collect();
    assert_eq!(build_dummy_rows(0, 12, &at_zero).len(), 8);
}

#[test]
fn empty_history_answers_nothing() {
    let store = Store::new();
    assert_eq!(latest_snapshot_id(&store), None);
    assert_eq!(assert_has_snapshots(&store), Err(StoreError::NoSnapshots));
    assert_eq!(
        StoreError::NoSnapshots.message(),
        "database has no snapshots yet, start `lb-monitor serve` first"
    );
    assert!(leaderboard_state(&store, None).expect("state").leaderboard.is_empty());
    assert!(previous_snapshot_rows(&store).is_empty());
    assert!(recent_events(&store, None, None, 10).is_empty());
}

#[test]
fn snapshots_form_a_chain() {
    let mut store = Store::new();
    add(&mut store, &vec![row(1, "alpha", 1.0, "v1")], "2026-05-07T00:00:00Z");
    add(&mut store, &vec![row(1, "alpha", 2.0, "v1")], "2026-05-08T00:00:00Z");
    add(&mut store, &vec![row(1, "alpha", 3.0, "v1")], "2026-05-09T00:00:00Z");
    assert_eq!(assert_has_snapshots(&store), Ok(()));
    assert_eq!(previous_snapshot_id(&store, 2), Some(1));
    assert_eq!(next_snapshot_id(&store, 2), Some(3));
    assert_eq!(previous_snapshot_id(&store, 1), None);
    assert_eq!(next_snapshot_id(&store, 3), None);
    let meta = snapshot_meta(&store, Some(2));
    assert_eq!(meta.latest_snapshot_id, Some(3));
    assert_eq!(meta.current_snapshot_id, Some(2));
    assert_eq!(meta.previous_snapshot_id, Some(1));
    assert_eq!(meta.next_snapshot_id, Some(3));
    assert_eq!(resolve_snapshot_id(&store, Some(77)), Some(3));
    assert_eq!(resolve_snapshot_id(&store, Some(1)), Some(1));
}

#[test]
fn read_gives_back_what_was_inserted() {
    let mut store = Store::new();
    add(&mut store, &vec![row(1, "alpha", 2.0, "v1"), row(2, "beta", 1.0, "v1")], "t1");
    add(&mut store, &vec![row(1, "alpha", 2.0, "v1")], "t2");
    let previous = previous_snapshot_rows(&store);
    assert_eq!(previous.len(), 2);
    assert_eq!(previous[0].team_id, "alpha");
    assert!(previous[0].entry.present);
    assert_eq!(previous[0].entry.rank, Some(1));
    assert_eq!(previous[1].team_id, "beta");
    assert!(!previous[1].entry.present);
    assert_eq!(previous[1].entry.rank, None);
    let board = leaderboard_state(&store, None).expect("state").leaderboard;
    assert_eq!(board.len(), 1);
    let first = leaderboard_state(&store, Some(1)).expect("state").leaderboard;
    assert_eq!(first.len(), 2);
    assert!(first[0].is_new);
}

#[test]
fn leaderboard_is_ordered_and_compared() {
    let mut store = Store::new();
    add(&mut store, &vec![row(1, "alpha", 2.0, "v1"), row(2, "beta", 1.0, "v1")], "t1");
    add(
        &mut store,
        &vec![row(2, "alpha", 2.0, "v1"), row(1, "beta", 3.0, "v2"), row(2, "aaa", 2.0, "v1")],
        "t2",
    );
    let board = leaderboard_state(&store, None).expect("state").leaderboard;
    let names: Vec<&str> = board.iter().map(|row| row.team_id.as_str()).collect();
    assert_eq!(names, vec!["beta", "aaa", "alpha"]);
    assert_eq!(board[0].rank_delta, Some(1));
    assert_eq!(board[2].rank_delta, Some(-1));
    assert_eq!(board[1].rank_delta, None);
    assert!(board[1].is_new);
    assert!(!board[0].is_new);
    assert_eq!(board[0].fetched_at, "t2");
}

#[test]
fn refused_snapshots_leave_the_history_alone() {
    let mut store = Store::new();
    add(&mut store, &vec![row(1, "alpha", 2.0, "v1")], "t1");
    let rows = vec![row(1, "beta", 2.0, "v1"), row(2, "beta", 1.0, "v1")];
    let diff = diff_rows(&Vec::new(), &rows, None);
    let error = insert_snapshot_at(&mut store, None, &rows, &diff, "t2").expect_err("twice");
    assert_eq!(error, StoreError::DuplicateEntry);
    assert_eq!(store.snapshots.len(), 1);
    assert_eq!(store.teams.len(), 1);

    store.snapshot_seq = i64::MAX;
    let rows = vec![row(1, "beta", 2.0, "v1")];
    let diff = diff_rows(&Vec::new(), &rows, None);
    let error = insert_snapshot(&mut store, None, &rows, &diff).expect_err("full");
    assert_eq!(error, StoreError::Full);
}

#[test]
fn missing_values_are_noticed() {
    let mut store = Store::new();
    add(&mut store, &vec![row(1, "alpha", f64::NAN, "v1")], "2026-05-07T00:00:00Z");
    assert_eq!(leaderboard_state(&store, None).expect_err("no score"), StoreError::MissingValue);
    let chart = team_chart_series(&store, &vec!["alpha".to_string()], None);
    assert_eq!(chart.expect_err("no score"), StoreError::MissingValue);
}

#[test]
fn charts_follow_the_snapshots() {
    let mut store = Store::new();
    add(&mut store, &vec![row(1, "alpha", 1.0, "v1")], "1970-01-01T00:00:10Z");
    add(&mut store, &vec![row(2, "alpha", 2.0, "v1")], "1970-01-01T01:00:00+01:00");
    let teams = vec!["alpha".to_string(), "alpha".to_string(), "nobody".to_string()];
    let chart = team_chart_series(&store, &teams, None).expect("chart");
    assert_eq!(chart.len(), 2);
    assert_eq!(chart[0].points.len(), 2);
    assert_eq!(chart[0].points[0].timestamp, 10);
    assert_eq!(chart[0].points[1].timestamp, 0);
    assert_eq!(chart[0].points[1].rank, 2);
    assert!(chart[1].points.is_empty());
    assert_eq!(team_chart_series(&store, &teams, Some(1)).expect("chart")[0].points.len(), 1);
}

#[test]
fn unreadable_times_are_noticed() {
    let mut store = Store::new();
    add(&mut store, &vec![row(1, "alpha", 1.0, "v1")], "yesterday");
    let chart = team_chart_series(&store, &vec!["alpha".to_string()], None);
    assert_eq!(chart.expect_err("no time"), StoreError::InvalidTime);
    assert_eq!(
        chart_point(None, Some(1), &Some(score(1.0))).expect_err("no time"),
        StoreError::InvalidTime
    );
    let point = chart_point(Some(7), Some(1), &Some(score(0.5))).expect("point");
    assert_eq!(point.timestamp, 7);
}

#[test]
fn newest_events_come_first() {
    let mut store = Store::new();
    add(&mut store, &vec![row(1, "alpha", 1.0, "v1"), row(2, "beta", 0.5, "v1")], "t1");
    add(&mut store, &vec![row(1, "alpha", 2.0, "v1"), row(2, "beta", 0.5, "v2")], "t2");
    let events = recent_events(&store, None, None, 3);
    assert_eq!(events.len(), 3);
    assert_eq!(events[0].team_id, "beta");
    assert_eq!(events[0].event_type, "version_changed");
    assert_eq!(events[1].team_id, "alpha");
    assert_eq!(events[0].fetched_at, "t2");
    assert_eq!(events_for_snapshot(&store, None, None, 10).len(), 2);
    assert_eq!(events_for_snapshot(&store, Some(1), None, 10).len(), 2);
    assert_eq!(recent_events(&store, None, Some("alpha"), 10).len(), 2);
}

#[test]
fn dropped_teams_are_told_apart_from_unchanged_ones() {
    let mut store = Store::new();
    add(&mut store, &vec![row(1, "alpha", 1.0, "v1"), row(2, "beta", 0.5, "v1")], "t1");
    let rows = vec![row(1, "alpha", 1.0, "v1")];
    let diff: DiffResult = diff_rows(&previous_snapshot_rows(&store), &rows, None);
    assert_eq!(diff.dropped_team_ids, vec!["beta".to_string()]);
    insert_snapshot_at(&mut store, None, &rows, &diff, "t2").expect("insert");
    let again = diff_rows(&previous_snapshot_rows(&store), &rows, None);
    assert!(!again.changed);
    assert!(again.events.is_empty());
}

#[test]
fn dummy_history_is_complete() {
    let mut store = Store::new();
    replace_with_dummy_data(&mut store, 11, 20, &dummy_scores(11, 20)).expect("dummy");
    assert_eq!(store.snapshots.len(), 11);
    assert_eq!(store.snapshot_seq, 11);
    assert_eq!(store.teams.len(), 20);
    assert!(store.team_seq <= 3 * 20 * 11);
    assert!(store.event_seq <= 2 * 20 * 11);
    for (i, team) in store.teams.iter().enumerate() {
        assert!(store.teams[..i].iter().all(|t| t.external_team_id != team.external_team_id));
    }
}

#[test]
fn dummy_history_stops_where_the_numbers_end() {
    let mut store = Store::new();
    store.snapshot_seq = i64::MAX - 2;
    let result = replace_with_dummy_data(&mut store, 3, 3, &dummy_scores(3, 3));
    assert_eq!(result.expect_err("no room"), StoreError::Full);
    assert_eq!(store.snapshots.len(), 2);
}

#[test]
fn dummy_times_are_read_back() {
    let mut store = Store::new();
    replace_with_dummy_data(&mut store, 6, 3, &dummy_scores(6, 3)).expect("dummy");
    let teams = vec!["dummy-0001".to_string(), "dummy-0003".to_string()];
    let chart = team_chart_series(&store, &teams, None).expect("chart");
    assert_eq!(chart.len(), 2);
    for series in &chart {
        assert_eq!(series.points.len(), 6);
        for (k, point) in series.points.iter().enumerate() {
            assert_eq!(point.timestamp, START_SECONDS + STEP_SECONDS * k as i64);
        }
    }
}

#[test]
fn charts_are_drawn_of_what_is_recorded_now() {
    let mut store = Store::new();
    let rows = vec![row(1, "alpha", 1.0, "v1"), row(2, "beta", 0.5, "v1")];
    let diff = diff_rows(&vec![], &rows, None);
    let time = insert_snapshot(&mut store, None, &rows, &diff).expect("insert");
    assert_eq!(store.snapshots[0].fetched_at, time);
    assert!(!time.starts_with('+') && !time.starts_with('-'));
    let teams = vec!["alpha".to_string(), "beta".to_string()];
    let chart = team_chart_series(&store, &teams, None).expect("chart");
    assert!(chart.iter().all(|series| series.points.len() == 1));
    assert!(chart[0].points[0].timestamp > 1_767_225_600);
}

#[test]
fn comparisons_tell_of_listed_and_dropped_teams_only() {
    let mut store = Store::new();
    add(&mut store, &vec![row(1, "a", 3.0, "v1"), row(2, "b", 2.0, "v1")], "2026-05-07T00:00:00Z");
    let previous = previous_snapshot_rows(&store);
    let rows = vec![row(1, "c", 4.0, "v1"), row(2, "a", 3.0, "v1")];
    let diff = diff_rows(&previous, &rows, None);
    assert_eq!(diff.dropped_team_ids, vec!["b".to_string()]);
    assert_eq!(diff.events.len(), 3);
    let seq = store.team_seq;
    insert_snapshot_at(&mut store, None, &rows, &diff, "2026-05-08T00:00:00Z").expect("insert");
    assert_eq!(store.team_seq, seq + 2 + 1 + 1);
}
