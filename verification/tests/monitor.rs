use lb_monitor::db::{Store, StoreError};
use lb_monitor::diff::{EventType, TeamEvent};
use lb_monitor::fetch::{after_bundle, after_page, bundle_url, FetchError, FetchStep};
use lb_monitor::monitor::{
    build_notification_message, cycle_interval, dummy_message, format_event_line,
    format_update_mail_body, run_fetch_cycle, run_fetch_cycle_at, serve_next, ServeAction,
    ServeEvent, ServePhase,
};
use lb_monitor::parse::{LeaderboardPage, LeaderboardRow, ParseError, ScoreReading};
use lb_monitor::score::Score;

fn score(x: f64) -> Score {
    Score { bits: x.to_bits(), fixed: format!("{:.4}", x), debug: format!("{:?}", x) }
}

fn page(teams: &[(i64, &str, f64)]) -> LeaderboardPage {
    LeaderboardPage {
        source_updated_at: Some("2026-05-07".to_string()),
        rows: teams
            .iter()
            .map(|(rank, team_id, value)| LeaderboardRow {
                rank: *rank,
                team_id: team_id.to_string(),
                score: score(*value),
                version: "v1".to_string(),
            })
            .collect(),
    }
}

fn event(event_type: EventType) -> TeamEvent {
    TeamEvent {
        team_id: "alpha".to_string(),
        event_type,
        old_rank: Some(2),
        new_rank: Some(1),
        old_score: Some(score(0.5)),
        new_score: Some(score(1.25)),
        old_version: Some("v1".to_string()),
        new_version: Some("v\"2".to_string()),
    }
}

#[test]
fn formats_mail_summary() {
    let events = vec![TeamEvent {
        team_id: "alpha".to_string(),
        event_type: EventType::NewTeam,
        old_rank: None,
        new_rank: Some(1),
        old_score: None,
        new_score: Some(score(100.0)),
        old_version: None,
        new_version: Some("v1".to_string()),
    }];

    let body = format_update_mail_body("2026-05-07T00:00:00Z", &events);
    assert!(body.contains("Leaderboard updated at"));
    assert!(body.contains("+ alpha"));
}

#[test]
fn formats_initial_snapshot_mail_summary() {
    let events = vec![TeamEvent {
        team_id: "alpha".to_string(),
        event_type: EventType::NewTeam,
        old_rank: None,
        new_rank: Some(1),
        old_score: None,
        new_score: Some(score(100.0)),
        old_version: None,
        new_version: Some("v1".to_string()),
    }];

    let message = build_notification_message(true, "2026-05-07T00:00:00Z", 1, &events);
    let (subject, body) = (message.subject, message.body);
    assert!(subject.contains("Initial leaderboard snapshot created"));
    assert!(body.contains("Initial leaderboard snapshot created at"));
    assert!(body.contains("Tracked teams: 1"));
    assert!(body.contains("+ alpha"));
    assert_eq!(subject, "Initial leaderboard snapshot created (1 teams)");
    assert_eq!(
        body,
        "Initial leaderboard snapshot created at 2026-05-07T00:00:00Z\nTracked teams: 1\n\n+ alpha rank=1 score=100.0000 version=v1"
    );
}

#[test]
fn each_event_has_its_line() {
    assert_eq!(
        format_event_line(&event(EventType::NewTeam)),
        "+ alpha rank=1 score=1.2500 version=v\"2"
    );
    assert_eq!(
        format_event_line(&event(EventType::DroppedTeam)),
        "- alpha rank=2 score=0.5000 version=v1"
    );
    assert_eq!(format_event_line(&event(EventType::RankChanged)), "~ alpha rank 2 -> 1");
    assert_eq!(
        format_event_line(&event(EventType::ScoreChanged)),
        "~ alpha score 0.5000 -> 1.2500"
    );
    assert_eq!(
        format_event_line(&event(EventType::VersionChanged)),
        "~ alpha version v1 -> v\"2"
    );
    assert_eq!(
        format_event_line(&event(EventType::MultiChanged)),
        "~ alpha rank Some(2) score Some(0.5) version Some(\"v1\") -> Some(1) Some(1.25) Some(\"v\\\"2\")"
    );
}

#[test]
fn missing_values_have_stand_ins() {
    let mut bare = event(EventType::NewTeam);
    bare.new_rank = None;
    bare.new_score = None;
    bare.new_version = None;
    assert_eq!(format_event_line(&bare), "+ alpha rank=0 score=0.0000 version=-");
    bare.event_type = EventType::MultiChanged;
    bare.old_rank = Some(-7);
    bare.old_score = None;
    assert_eq!(
        format_event_line(&bare),
        "~ alpha rank Some(-7) score None version Some(\"v1\") -> None None None"
    );
}

#[test]
fn update_messages_count_changes() {
    let events = vec![event(EventType::RankChanged), event(EventType::ScoreChanged)];
    let message = build_notification_message(false, "now", 9, &events);
    assert_eq!(message.subject, "Leaderboard updated (2 changes)");
    assert_eq!(
        message.body,
        "Leaderboard updated at now\n\n~ alpha rank 2 -> 1\n~ alpha score 0.5000 -> 1.2500"
    );
}

#[test]
fn cycles_tell_of_changes_once() {
    let mut store = Store::new();
    let first = page(&[(1, "alpha", 2.0), (2, "beta", 1.0)]);
    let message = run_fetch_cycle(&mut store, &first).expect("cycle").expect("message");
    assert_eq!(message.subject, "Initial leaderboard snapshot created (2 teams)");
    assert_eq!(store.snapshots.len(), 1);

    assert!(run_fetch_cycle(&mut store, &first).expect("cycle").is_none());
    assert_eq!(store.snapshots.len(), 1);

    let second = page(&[(1, "alpha", 3.0)]);
    let message =
        run_fetch_cycle_at(&mut store, &second, "later").expect("cycle").expect("message");
    assert_eq!(message.subject, "Leaderboard updated (2 changes)");
    assert_eq!(
        message.body,
        "Leaderboard updated at later\n\n~ alpha score 2.0000 -> 3.0000\n- beta rank=2 score=1.0000 version=v1"
    );
    assert_eq!(store.snapshots.len(), 2);
    assert!(run_fetch_cycle(&mut store, &second).expect("cycle").is_none());
}

#[test]
fn cycle_refuses_a_team_that_is_listed_twice() {
    let mut store = Store::new();
    let twice = page(&[(1, "alpha", 2.0), (2, "alpha", 1.0)]);
    let error = run_fetch_cycle_at(&mut store, &twice, "t").expect_err("twice");
    assert_eq!(error, StoreError::DuplicateEntry);
    assert!(store.snapshots.is_empty());
}

#[test]
fn single_cycle_runs_without_server() {
    let (phase, action) = serve_next(ServePhase::Idle, ServeEvent::Run { once: true });
    assert_eq!(action, ServeAction::StartOnlyCycle);
    let end = ServeEvent::CycleEnded { joined: true, ok: false, server_finished: false };
    assert_eq!(serve_next(phase, end), (ServePhase::Ended, ServeAction::Exit { ok: false }));
}

#[test]
fn service_goes_on_until_it_is_stopped() {
    let ended = |ok| ServeEvent::CycleEnded { joined: true, ok, server_finished: false };
    let (phase, action) = serve_next(ServePhase::Idle, ServeEvent::Run { once: false });
    assert_eq!(action, ServeAction::StartServer);
    let (phase, action) = serve_next(phase, ServeEvent::ServerStarted { ok: true });
    assert_eq!(action, ServeAction::StartCycle);
    let (phase, action) = serve_next(phase, ended(false));
    assert_eq!(action, ServeAction::Sleep);
    let (phase, action) = serve_next(phase, ServeEvent::SleepEnded { server_finished: false });
    assert_eq!(action, ServeAction::StartCycle);
    let (phase, action) = serve_next(phase, ServeEvent::Signal { ok: true });
    assert_eq!(action, ServeAction::FinishCycle);
    let (phase, action) = serve_next(phase, ended(true));
    assert_eq!(action, ServeAction::JoinServer);
    let (phase, action) = serve_next(phase, ServeEvent::ServerJoined { ok: true });
    assert_eq!(action, ServeAction::Exit { ok: true });
    assert_eq!(phase, ServePhase::Ended);
    assert_eq!(serve_next(phase, ended(true)).1, ServeAction::Ignore);
}

#[test]
fn service_ends_with_its_server() {
    let crashed = ServeEvent::CycleEnded { joined: true, ok: true, server_finished: true };
    let (phase, action) = serve_next(ServePhase::Fetching, crashed);
    assert_eq!(action, ServeAction::JoinServer);
    assert_eq!(
        serve_next(phase, ServeEvent::ServerJoined { ok: false }).1,
        ServeAction::Exit { ok: false }
    );
    let (phase, action) =
        serve_next(ServePhase::Sleeping, ServeEvent::SleepEnded { server_finished: true });
    assert_eq!((phase, action), (ServePhase::Crashed, ServeAction::JoinServer));
    let lost = ServeEvent::CycleEnded { joined: false, ok: false, server_finished: false };
    assert_eq!(serve_next(ServePhase::Fetching, lost).1, ServeAction::Exit { ok: false });
    assert_eq!(
        serve_next(ServePhase::Starting, ServeEvent::ServerStarted { ok: false }).1,
        ServeAction::Exit { ok: false }
    );
    assert_eq!(
        serve_next(ServePhase::Sleeping, ServeEvent::Signal { ok: true }),
        (ServePhase::Stopping, ServeAction::StopServer)
    );
}

#[test]
fn interval_is_at_least_one_second() {
    assert_eq!(cycle_interval(0), 1);
    assert_eq!(cycle_interval(300), 300);
}

#[test]
fn dummy_message_counts_what_was_made() {
    assert_eq!(
        dummy_message("d.sqlite3", 0, 2),
        "generated dummy database at d.sqlite3 with 1 snapshots and 3 teams"
    );
    assert_eq!(
        dummy_message("d.sqlite3", 24, 18),
        "generated dummy database at d.sqlite3 with 24 snapshots and 18 teams"
    );
}

#[test]
fn pages_lead_to_rows_or_to_their_bundle() {
    let known = vec![ScoreReading { text: "0.5".to_string(), score: score(0.5) }];
    let html = "<html><body><pre>\n1 alpha 0.5 v1\n</pre></body></html>";
    let step = after_page("https://example.com/leaderboard", html, &known).expect("step");
    assert!(matches!(step, FetchStep::Done(page) if page.rows.len() == 1));

    let html = "<html><script src=\"/assets/index-a.js\"></script></html>";
    let step = after_page("https://example.com/x/leaderboard", html, &known).expect("step");
    assert!(matches!(step, FetchStep::FetchBundle(url) if url == "https://example.com/assets/index-a.js"));

    let html = "<html><script src=\"http://cdn.example.com/assets/index-a.js\"></script></html>";
    let step = after_page("no address", html, &known).expect("step");
    assert!(matches!(step, FetchStep::FetchBundle(url) if url == "http://cdn.example.com/assets/index-a.js"));
}

#[test]
fn pages_without_a_bundle_are_refused() {
    let known = Vec::new();
    let error = after_page("https://example.com", "<html></html>", &known).expect_err("nothing");
    assert_eq!(error, FetchError::NoBundle);
    assert_eq!(error.message(), "failed to locate leaderboard bundle");
    let html = "<html><script src=\"/assets/index-a.js\"></script></html>";
    let error = after_page("no address", html, &known).expect_err("address");
    assert_eq!(error, FetchError::InvalidUrl);
    assert_eq!(error.message(), "invalid leaderboard url");
    let error = bundle_url("/assets/index-a.js", Some(None)).expect_err("reference");
    assert_eq!(error, FetchError::InvalidBundleUrl);
    assert_eq!(error.message(), "failed to resolve leaderboard bundle url");
    let error = after_bundle("nothing", &known).expect_err("rows");
    assert_eq!(error, FetchError::Parse(ParseError::NoRowsInBundle));
    assert_eq!(error.message(), "no leaderboard rows found in bundle");
}

#[test]
fn bundles_hold_rows() {
    let known = vec![ScoreReading { text: ".6311".to_string(), score: score(0.6311) }];
    let bundle = "const OT=[{rank:1,team:\"1384\",score:.6311,version:\"v2\"}];function f(){}";
    let page = after_bundle(bundle, &known).expect("page");
    assert_eq!(page.rows[0].team_id, "1384");
    assert_eq!(page.source_updated_at, None);
}
