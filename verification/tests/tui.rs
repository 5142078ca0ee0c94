use lb_monitor::db::history::{ChartPoint, EventViewRow, TeamSeries};
use lb_monitor::db::insert::insert_snapshot_at;
use lb_monitor::db::read::{previous_snapshot_rows, LeaderboardViewRow, ScoreDelta};
use lb_monitor::db::{Store, StoreError};
use lb_monitor::diff::diff_rows;
use lb_monitor::parse::LeaderboardRow;
use lb_monitor::score::Score;
use lb_monitor::tui::view::{
    border_style, chart_plan, chart_title, event_list, events_title, format_event,
    format_rank_delta, format_score_delta, format_timestamp, format_timestamp_short_unix,
    line_tone, rank_delta_style, score_delta_style, show_short_timestamp, show_timestamp,
    status_line, table_rows, table_title, Paint, Tone,
};
use lb_monitor::tui::{filter_lines, Action, App, Focus, Key};

fn score(x: f64) -> Score {
    Score { bits: x.to_bits(), fixed: format!("{:.4}", x), debug: format!("{:?}", x) }
}

fn line(rank: i64, team_id: &str) -> LeaderboardViewRow {
    LeaderboardViewRow {
        team_id: team_id.to_string(),
        rank,
        score: score(0.5),
        version: "v1".to_string(),
        fetched_at: "2026-05-07T08:09:10Z".to_string(),
        rank_delta: Some(0),
        score_delta: None,
        is_new: false,
    }
}

fn loaded(teams: &[&str]) -> App {
    let mut app = App::new(0);
    let mut board = Vec::new();
    for (i, team) in teams.iter().enumerate() {
        board.push(line(i as i64 + 1, team));
    }
    app.take_state(Some(4), board);
    app
}

fn event() -> EventViewRow {
    EventViewRow {
        fetched_at: "2026-05-07T08:09:10+02:00".to_string(),
        team_id: "alpha".to_string(),
        event_type: "multi_changed".to_string(),
        old_rank: Some(2),
        new_rank: Some(1),
        old_score: Some(score(0.5)),
        new_score: Some(score(0.75)),
        old_version: Some("v1".to_string()),
        new_version: Some("v2".to_string()),
    }
}

fn history() -> Store {
    let mut store = Store::new();
    for (value, time) in [(1.0, "1970-01-01T00:00:10Z"), (3.0, "1970-01-01T00:00:20Z")] {
        let rows = vec![LeaderboardRow {
            rank: 1,
            team_id: "alpha".to_string(),
            score: score(value),
            version: "v1".to_string(),
        }];
        let diff = diff_rows(&previous_snapshot_rows(&store), &rows, None);
        insert_snapshot_at(&mut store, None, &rows, &diff, time).expect("insert");
    }
    store
}

#[test]
fn selection_stays_on_the_board() {
    let mut app = loaded(&["alpha", "beta", "gamma"]);
    assert_eq!(app.selected, Some(0));
    assert_eq!(app.selected_team.as_deref(), Some("alpha"));
    assert_eq!(app.on_key(Key::Up), Action::LoadEvents);
    assert_eq!(app.selected, Some(0));
    assert_eq!(app.on_key(Key::Char('j')), Action::LoadEvents);
    app.on_key(Key::Down);
    app.on_key(Key::Down);
    assert_eq!(app.selected, Some(2));
    assert_eq!(app.selected_team.as_deref(), Some("gamma"));
    app.on_key(Key::Char('k'));
    assert_eq!(app.selected_team.as_deref(), Some("beta"));
    app.move_selection(-7);
    assert_eq!(app.selected, Some(0));
    let mut empty = loaded(&[]);
    assert_eq!(empty.on_key(Key::Down), Action::Nothing);
    assert_eq!(empty.selected, None);
}

#[test]
fn search_leaves_matching_lines() {
    let mut app = loaded(&["Alpha", "beta", "ALTO", "gamma"]);
    app.on_key(Key::Down);
    app.on_key(Key::Down);
    app.on_key(Key::Down);
    assert_eq!(app.on_key(Key::Char('/')), Action::Nothing);
    assert!(app.search_mode);
    assert_eq!(app.status, "search mode");
    assert_eq!(app.on_key(Key::Char('a')), Action::Nothing);
    assert_eq!(app.on_key(Key::Char('L')), Action::Nothing);
    assert_eq!(app.filtered_indices, vec![0, 2]);
    assert_eq!(app.selected, Some(1));
    assert_eq!(app.selected_team.as_deref(), Some("ALTO"));
    app.on_key(Key::Char('z'));
    assert_eq!(app.selected, None);
    assert_eq!(app.selected_team, None);
    assert_eq!(app.on_key(Key::Backspace), Action::Nothing);
    assert_eq!(app.search_input, "aL");
    assert_eq!(app.on_key(Key::Tab), Action::Nothing);
    assert_eq!(app.focus, Focus::Table);
    assert_eq!(app.on_key(Key::Enter), Action::LoadEvents);
    assert!(!app.search_mode);
    assert_eq!(table_title(&app), "Leaderboard");
    assert_eq!(app.on_key(Key::Esc), Action::LoadEvents);
    assert_eq!(app.search_input, "");
    assert_eq!(app.filtered_indices.len(), 4);
    assert_eq!(app.on_key(Key::Esc), Action::Nothing);
    let board = vec![line(1, "ÄPFEL"), line(2, "birnen")];
    assert_eq!(filter_lines(&board, "äp"), vec![0]);
}

#[test]
fn search_can_be_given_up() {
    let mut app = loaded(&["alpha", "beta"]);
    app.on_key(Key::Char('/'));
    app.on_key(Key::Char('q'));
    assert_eq!(table_title(&app), "Leaderboard /q");
    assert_eq!(app.on_key(Key::Esc), Action::LoadEvents);
    assert_eq!(app.search_input, "");
    assert_eq!(app.filtered_indices, vec![0, 1]);
    assert_eq!(app.on_key(Key::Char('q')), Action::Quit);
    assert_eq!(app.on_key(Key::Char('r')), Action::Reload);
    assert_eq!(app.on_key(Key::Enter), Action::LoadEvents);
    assert_eq!(app.on_key(Key::Other), Action::Nothing);
}

#[test]
fn compared_teams_are_in_order_and_toggled() {
    let mut app = loaded(&["gamma", "alpha", "beta"]);
    assert_eq!(app.on_key(Key::Char(' ')), Action::LoadChart);
    app.on_key(Key::Down);
    app.on_key(Key::Char(' '));
    app.on_key(Key::Down);
    app.on_key(Key::Char(' '));
    assert_eq!(app.compare_teams, vec!["alpha", "beta", "gamma"]);
    app.on_key(Key::Char(' '));
    assert_eq!(app.compare_teams, vec!["alpha", "gamma"]);
    app.on_key(Key::Char(' '));
    assert_eq!(app.compare_teams, vec!["alpha", "beta", "gamma"]);
    let mut empty = loaded(&[]);
    assert_eq!(empty.on_key(Key::Char(' ')), Action::Nothing);
}

#[test]
fn focus_goes_round() {
    let mut app = loaded(&["alpha"]);
    app.on_key(Key::Tab);
    assert_eq!(app.focus, Focus::Events);
    app.on_key(Key::Tab);
    assert_eq!(app.focus, Focus::Chart);
    app.on_key(Key::Tab);
    assert_eq!(app.focus, Focus::Table);
}

#[test]
fn refresh_comes_after_the_interval() {
    assert_eq!(App::new(0).refresh_seconds, 1);
    let app = App::new(5);
    assert!(!app.is_due(4999));
    assert!(app.is_due(5000));
    assert!(app.needs_reload(false, Some(1)));
    assert!(app.needs_reload(true, None));
    assert!(!app.needs_reload(false, None));
}

#[test]
fn history_is_loaded_when_it_has_changed() {
    let store = history();
    let mut app = App::new(5);
    assert_eq!(app.reload(&store, false).expect("reload"), true);
    assert_eq!(app.latest_snapshot_id, Some(2));
    assert_eq!(app.selected_team.as_deref(), Some("alpha"));
    assert_eq!(app.events.len(), 2);
    assert_eq!(app.status, "snapshot=2 teams=1 compare=0");
    assert_eq!(app.reload(&store, false).expect("reload"), false);
    app.toggle_compare();
    app.reload_chart_series(&store).expect("chart");
    assert_eq!(app.chart_series[0].points.len(), 2);
    assert_eq!(app.reload(&store, true).expect("reload"), true);
    assert_eq!(app.status, "snapshot=2 teams=1 compare=1");
}

#[test]
fn failed_loading_is_reported() {
    let mut store = history();
    store.snapshots[0].fetched_at = "never".to_string();
    let mut app = App::new(5);
    app.reload(&store, true).expect("nothing compared");
    app.toggle_compare();
    assert_eq!(app.reload(&store, true).expect_err("time"), StoreError::InvalidTime);
    store.entries[1].rank = None;
    assert_eq!(app.reload(&store, true).expect_err("rank"), StoreError::MissingValue);
}

#[test]
fn table_shows_the_filtered_lines() {
    let mut app = loaded(&["alpha", "beta", "gamma"]);
    app.toggle_compare();
    app.leaderboard[0].is_new = true;
    app.leaderboard[1].rank_delta = Some(-2);
    app.leaderboard[1].score_delta = Some(ScoreDelta { old: score(0.75), new: score(0.5) });
    app.on_key(Key::Char('/'));
    app.on_key(Key::Char('a'));
    app.on_key(Key::Char('l'));
    let differences = vec!["".to_string(), "-0.2500".to_string(), "".to_string()];
    let rows = table_rows(&app, &differences);
    assert_eq!(rows.len(), 1);
    assert_eq!(rows[0].marker, "*");
    assert_eq!(rows[0].delta, "NEW");
    assert_eq!(rows[0].delta_paint, Paint { tone: Tone::Cyan, bold: true });
    assert_eq!(rows[0].score, "0.5000");
    assert_eq!(rows[0].score_delta, "-");
    assert_eq!(rows[0].last_seen, "2026-05-07 08:09");
    app.on_key(Key::Esc);
    let rows = table_rows(&app, &differences);
    assert_eq!(rows.len(), 3);
    assert_eq!(rows[1].marker, " ");
    assert_eq!(rows[1].rank, "2");
    assert_eq!(rows[1].delta, "↓2");
    assert_eq!(rows[1].score_delta, "-0.2500");
    assert_eq!(rows[1].score_delta_paint, Paint { tone: Tone::Red, bold: false });
    assert_eq!(rows[2].team_id, "gamma");
    assert_eq!(rows[2].version, "v1");
}

#[test]
fn deltas_are_shown_with_their_direction() {
    assert_eq!(format_rank_delta(Some(3)), "↑3");
    assert_eq!(format_rank_delta(Some(-3)), "↓3");
    assert_eq!(format_rank_delta(Some(i64::MIN)), "↓9223372036854775808");
    assert_eq!(format_rank_delta(Some(0)), "-");
    assert_eq!(format_rank_delta(None), "-");
    let grown = ScoreDelta { old: score(1.0), new: score(1.5) };
    let shrunk = ScoreDelta { old: score(1.5), new: score(1.0) };
    let same = ScoreDelta { old: score(0.0), new: score(-0.0) };
    assert_eq!(format_score_delta(&grown, "0.5000"), "+0.5000");
    assert_eq!(format_score_delta(&shrunk, "-0.5000"), "-0.5000");
    assert_eq!(format_score_delta(&same, "0.0000"), "-");
    assert_eq!(score_delta_style(&Some(grown)).tone, Tone::Green);
    assert_eq!(score_delta_style(&Some(shrunk)).tone, Tone::Red);
    assert_eq!(score_delta_style(&Some(same)).tone, Tone::DarkGray);
    assert_eq!(score_delta_style(&None).tone, Tone::DarkGray);
    assert_eq!(rank_delta_style(false, Some(1)), Paint { tone: Tone::Green, bold: true });
    assert_eq!(rank_delta_style(false, Some(-1)), Paint { tone: Tone::Red, bold: true });
    assert_eq!(rank_delta_style(false, None), Paint { tone: Tone::DarkGray, bold: false });
    assert_eq!(rank_delta_style(true, Some(-1)), Paint { tone: Tone::Cyan, bold: true });
    assert_eq!(border_style(true).tone, Tone::Cyan);
    assert_eq!(border_style(false).tone, Tone::DarkGray);
}

#[test]
fn times_are_shown_to_the_minute() {
    assert_eq!(format_timestamp("2026-05-07T08:09:10+02:00"), "2026-05-07 08:09");
    assert_eq!(format_timestamp("yesterday"), "yesterday");
    assert_eq!(show_timestamp("x", Some((2026, 5, 7, 8, 9))), "2026-05-07 08:09");
    assert_eq!(format_timestamp_short_unix(1_767_225_600), "01-01 00:00");
    assert_eq!(format_timestamp_short_unix(i64::MAX), "9223372036854775807");
    assert_eq!(show_short_timestamp(5, None), "5");
    assert_eq!(show_short_timestamp(5, Some((1970, 1, 1, 0, 0))), "01-01 00:00");
}

#[test]
fn events_are_shown_in_one_line() {
    let mut one = event();
    assert_eq!(
        format_event(&one),
        "2026-05-07 08:09 alpha multi_changed | rank 2->1 | score 0.5000->0.7500 | version v1->v2"
    );
    one.old_version = Some("v2".to_string());
    one.old_rank = None;
    one.new_score = None;
    assert_eq!(
        format_event(&one),
        "2026-05-07 08:09 alpha multi_changed | rank NEW->1 | score 0.5000->OUT | -"
    );
    one.new_rank = None;
    one.new_version = None;
    one.old_score = None;
    assert_eq!(
        format_event(&one),
        "2026-05-07 08:09 alpha multi_changed | - | - | version v2->OUT"
    );
}

#[test]
fn at_most_a_hundred_events_are_listed() {
    let mut app = loaded(&["alpha"]);
    assert_eq!(events_title(&app), "Events alpha");
    for _ in 0..120 {
        app.events.push(event());
    }
    assert_eq!(event_list(&app).len(), 100);
    assert_eq!(events_title(&loaded(&[])), "Recent Events");
}

#[test]
fn status_line_tells_everything() {
    let mut app = loaded(&["alpha"]);
    app.update_status();
    assert_eq!(
        status_line(&app),
        "selected=alpha focus=Table search=\"\" | / search | Space compare | Enter team events | Tab focus | r reload | q quit | snapshot=4 teams=1 compare=0"
    );
    let mut empty = App::new(1);
    empty.update_status();
    assert!(status_line(&empty).starts_with("selected=- focus=Table"));
    assert!(status_line(&empty).ends_with("snapshot=0 teams=0 compare=0"));
}

#[test]
fn chart_covers_the_compared_teams() {
    let mut app = loaded(&["alpha", "beta"]);
    assert_eq!(chart_title(&app), "Score Chart (press Space to add teams)");
    assert!(chart_plan(&app).is_none());
    app.toggle_compare();
    app.move_selection(1);
    app.toggle_compare();
    assert_eq!(chart_title(&app), "Score Chart");
    assert!(chart_plan(&app).is_none());
    let point = |timestamp, value| ChartPoint { timestamp, rank: 1, score: score(value) };
    app.chart_series = vec![
        TeamSeries { team_id: "beta".to_string(), points: vec![point(20, 0.25), point(-5, 2.5)] },
        TeamSeries { team_id: "alpha".to_string(), points: Vec::new() },
    ];
    let plan = chart_plan(&app).expect("plan");
    assert_eq!(plan.lines.len(), 1);
    assert_eq!(plan.lines[0].team_id, "beta");
    assert_eq!((plan.min_x, plan.max_x), (-5, 20));
    assert_eq!(f64::from_bits(plan.min_y), 0.25);
    assert_eq!(f64::from_bits(plan.max_y), 2.5);
    app.chart_series[1].points = vec![point(7, -1.0)];
    let plan = chart_plan(&app).expect("plan");
    assert_eq!(plan.lines[0].team_id, "alpha");
    assert_eq!(f64::from_bits(plan.min_y), -1.0);
}

#[test]
fn line_colours_come_round() {
    assert_eq!(line_tone(0), Tone::Cyan);
    assert_eq!(line_tone(5), Tone::LightRed);
    assert_eq!(line_tone(7), Tone::Yellow);
}
