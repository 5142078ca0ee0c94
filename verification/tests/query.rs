use lb_monitor::api::{
    get_chart, get_events, get_leaderboard, get_snapshot, get_state, refuse, ApiClient,
    ChartQuery, EventQuery, SnapshotQuery,
};
use lb_monitor::config::{Config, TuiSource};
use lb_monitor::db::insert::{insert_snapshot, insert_snapshot_at};
use lb_monitor::db::read::previous_snapshot_rows;
use lb_monitor::db::{Store, StoreError};
use lb_monitor::diff::diff_rows;
use lb_monitor::parse::LeaderboardRow;
use lb_monitor::query::{
    load_chart_at, load_chart_series, load_events_at, load_leaderboard_state, load_meta_at,
    load_recent_events, load_snapshot_meta, load_state_at, SnapshotPolicy,
};
use lb_monitor::score::Score;
use lb_monitor::source::{build_tui_data_source, TuiDataSource};

fn score(x: f64) -> Score {
    Score { bits: x.to_bits(), fixed: format!("{:.4}", x), debug: format!("{:?}", x) }
}

fn row(team_id: &str, value: f64) -> LeaderboardRow {
    LeaderboardRow {
        rank: 1,
        team_id: team_id.to_string(),
        score: score(value),
        version: "v1".to_string(),
    }
}

fn add(store: &mut Store, rows: &Vec<LeaderboardRow>, time: &str) {
    let diff = diff_rows(&previous_snapshot_rows(store), rows, None);
    insert_snapshot_at(store, None, rows, &diff, time).expect("insert");
}

fn history() -> Store {
    let mut store = Store::new();
    add(&mut store, &vec![row("alpha", 1.0)], "2026-05-07T00:00:00Z");
    add(&mut store, &vec![row("alpha", 2.0)], "2026-05-08T00:00:00Z");
    store
}

#[test]
fn loads_state_from_sqlite() {
    let mut store = Store::new();
    let rows = vec![row("alpha", 1.0)];
    let diff = diff_rows(&Vec::new(), &rows, Some("2026-05-07"));
    insert_snapshot(&mut store, Some("2026-05-07"), &rows, &diff).expect("insert snapshot");

    let state =
        load_leaderboard_state(&store, SnapshotPolicy::RequireExisting).expect("load state");
    assert_eq!(state.latest_snapshot_id, Some(1));
    assert_eq!(state.leaderboard.len(), 1);

    let snapshot = load_snapshot_meta(&store);
    assert_eq!(snapshot.latest_snapshot_id, Some(1));
}

#[test]
fn serves_state_over_router() {
    let mut store = Store::new();
    let rows = vec![row("alpha", 1.0)];
    let diff = diff_rows(&Vec::new(), &rows, Some("2026-05-07"));
    insert_snapshot(&mut store, Some("2026-05-07"), &rows, &diff).expect("insert snapshot");

    let response = get_state(&store, &SnapshotQuery { snapshot_id: None });
    assert!(response.is_ok());
    assert_eq!(response.expect("state").leaderboard.len(), 1);
}

#[test]
fn empty_history_may_be_required_to_be_filled() {
    let store = Store::new();
    let required = SnapshotPolicy::RequireExisting;
    let allowed = SnapshotPolicy::AllowEmpty;
    assert_eq!(load_leaderboard_state(&store, required).expect_err("empty"), StoreError::NoSnapshots);
    assert_eq!(load_recent_events(&store, None, 5, required).expect_err("empty"), StoreError::NoSnapshots);
    assert_eq!(load_chart_series(&store, &Vec::new(), required).expect_err("empty"), StoreError::NoSnapshots);
    assert_eq!(load_state_at(&store, required, None).expect_err("empty"), StoreError::NoSnapshots);
    assert_eq!(load_events_at(&store, None, None, 5, required).expect_err("empty"), StoreError::NoSnapshots);
    assert_eq!(load_chart_at(&store, &Vec::new(), None, required).expect_err("empty"), StoreError::NoSnapshots);
    assert!(load_leaderboard_state(&store, allowed).expect("empty").leaderboard.is_empty());
    assert!(load_recent_events(&store, None, 5, allowed).expect("empty").is_empty());
    assert_eq!(load_snapshot_meta(&store).latest_snapshot_id, None);
}

#[test]
fn queries_go_by_snapshot() {
    let store = history();
    let allowed = SnapshotPolicy::AllowEmpty;
    assert_eq!(load_recent_events(&store, None, 5, allowed).expect("events").len(), 2);
    assert_eq!(load_recent_events(&store, Some("beta"), 5, allowed).expect("events").len(), 0);
    assert_eq!(load_events_at(&store, Some(1), None, 5, allowed).expect("events").len(), 1);
    let teams = vec!["alpha".to_string()];
    assert_eq!(load_chart_series(&store, &teams, allowed).expect("chart")[0].points.len(), 2);
    assert_eq!(load_chart_at(&store, &teams, Some(1), allowed).expect("chart")[0].points.len(), 1);
    assert_eq!(load_meta_at(&store, Some(1)).next_snapshot_id, Some(2));
    let state = load_state_at(&store, allowed, Some(1)).expect("state");
    assert_eq!(state.leaderboard[0].score.fixed, "1.0000");
}

#[test]
fn requests_are_answered() {
    let store = history();
    let first = SnapshotQuery { snapshot_id: Some(1) };
    assert_eq!(get_snapshot(&store, &first).current_snapshot_id, Some(1));
    assert_eq!(get_leaderboard(&store, &first).expect("rows")[0].score.fixed, "1.0000");
    let events = EventQuery { snapshot_id: None, team: None, limit: None };
    assert_eq!(get_events(&store, &events).expect("events")[0].event_type, "score_changed");
    let events = EventQuery { snapshot_id: Some(1), team: Some("alpha".to_string()), limit: Some(0) };
    assert!(get_events(&store, &events).expect("events").is_empty());
    let chart = ChartQuery { snapshot_id: None, team_ids: Some(",alpha,,beta".to_string()) };
    let series = get_chart(&store, &chart).expect("chart");
    assert_eq!(series.len(), 2);
    assert_eq!(series[0].points.len(), 2);
    assert_eq!(series[1].team_id, "beta");
    let none = ChartQuery { snapshot_id: None, team_ids: None };
    assert!(get_chart(&store, &none).expect("chart").is_empty());
}

#[test]
fn failed_requests_are_refused() {
    let mut store = Store::new();
    add(&mut store, &vec![row("alpha", f64::NAN)], "t");
    let all = SnapshotQuery { snapshot_id: None };
    let error = get_leaderboard(&store, &all).expect_err("no score");
    assert_eq!(error, StoreError::MissingValue);
    assert_eq!(get_state(&store, &all).expect_err("no score"), StoreError::MissingValue);
    let answer = refuse(error);
    assert_eq!(answer.status, 500);
    assert_eq!(answer.message, "snapshot entry lacks a value");
}

#[test]
fn client_builds_addresses() {
    let client = ApiClient::new("http://127.0.0.1:8080//");
    assert_eq!(client.base_url, "http://127.0.0.1:8080");
    assert_eq!(client.state(None), "http://127.0.0.1:8080/api/v1/state");
    assert_eq!(client.state(Some(-3)), "http://127.0.0.1:8080/api/v1/state?snapshot_id=-3");
    assert_eq!(
        client.events(None, None, 100),
        "http://127.0.0.1:8080/api/v1/events?limit=100"
    );
    assert_eq!(
        client.events(Some(4), Some("alpha"), 5),
        "http://127.0.0.1:8080/api/v1/events?limit=5&snapshot_id=4&team=alpha"
    );
    let teams = vec!["alpha".to_string(), "beta".to_string()];
    assert_eq!(client.chart(None, &Vec::new()), "http://127.0.0.1:8080/api/v1/chart");
    assert_eq!(client.chart(None, &teams), "http://127.0.0.1:8080/api/v1/chart?team_ids=alpha,beta");
    assert_eq!(
        client.chart(Some(2), &teams),
        "http://127.0.0.1:8080/api/v1/chart?snapshot_id=2&team_ids=alpha,beta"
    );
    assert_eq!(client.chart(Some(2), &Vec::new()), "http://127.0.0.1:8080/api/v1/chart?snapshot_id=2");
}

#[test]
fn source_follows_the_settings() {
    let mut config = Config::default();
    config.tui.database_path = "here.sqlite3".to_string();
    assert!(matches!(
        build_tui_data_source(&config),
        TuiDataSource::Sqlite { db_path } if db_path == "here.sqlite3"
    ));
    config.tui.source = TuiSource::RemoteApi;
    config.tui.api_base_url = "https://example.com/".to_string();
    assert!(matches!(
        build_tui_data_source(&config),
        TuiDataSource::Http { api } if api.base_url == "https://example.com"
    ));
}
