use lb_monitor::diff::{
    build_content_hash, content, diff_rows, EventType, PreviousEntry, PreviousTeam,
};
use lb_monitor::parse::LeaderboardRow;
use lb_monitor::score::Score;

fn score(x: f64) -> Score {
    Score { bits: x.to_bits(), fixed: format!("{:.4}", x), debug: format!("{:?}", x) }
}

fn row(rank: i64, team_id: &str, value: f64, version: &str) -> LeaderboardRow {
    LeaderboardRow {
        rank,
        team_id: team_id.to_string(),
        score: score(value),
        version: version.to_string(),
    }
}

fn team(team_id: &str, rank: i64, value: f64, version: &str, present: bool) -> PreviousTeam {
    PreviousTeam {
        team_id: team_id.to_string(),
        entry: PreviousEntry {
            rank: Some(rank),
            score: Some(score(value)),
            version: Some(version.to_string()),
            present,
        },
    }
}

#[test]
fn detects_new_and_changed_teams() {
    let previous =
        vec![team("alpha", 2, 95.0, "v1", true), team("beta", 1, 96.0, "v1", true)];
    let current = vec![row(1, "alpha", 97.0, "v1"), row(2, "gamma", 93.0, "v2")];

    let diff = diff_rows(&previous, &current, Some("2026-05-07"));
    assert!(diff.changed);
    assert_eq!(diff.events.len(), 3);
    assert!(diff.dropped_team_ids.contains(&"beta".to_string()));
}

#[test]
fn events_tell_what_changed() {
    let previous = vec![
        team("a", 1, 1.0, "v1", true),
        team("b", 2, 2.0, "v1", true),
        team("c", 3, 3.0, "v1", true),
        team("d", 4, 4.0, "v1", true),
        team("e", 5, 5.0, "v1", true),
        team("f", 6, 6.0, "v1", false),
        team("g", 7, 7.0, "v1", true),
    ];
    let current = vec![
        row(9, "a", 1.0, "v1"),
        row(2, "b", 2.5, "v1"),
        row(3, "c", 3.0, "v2"),
        row(8, "d", 4.5, "v1"),
        row(5, "e", 5.0, "v1"),
        row(6, "f", 6.0, "v1"),
    ];
    let diff = diff_rows(&previous, &current, None);
    let found: Vec<(&str, EventType)> =
        diff.events.iter().map(|event| (event.team_id.as_str(), event.event_type)).collect();
    assert_eq!(
        found,
        vec![
            ("a", EventType::RankChanged),
            ("b", EventType::ScoreChanged),
            ("c", EventType::VersionChanged),
            ("d", EventType::MultiChanged),
            ("f", EventType::MultiChanged),
            ("g", EventType::DroppedTeam),
        ]
    );
    assert_eq!(diff.events[0].old_rank, Some(1));
    assert_eq!(diff.events[0].new_rank, Some(9));
    assert_eq!(diff.events[5].new_rank, None);
    assert_eq!(diff.dropped_team_ids, vec!["g".to_string()]);
}

#[test]
fn first_leaderboard_counts_as_change() {
    let diff = diff_rows(&Vec::new(), &Vec::new(), None);
    assert!(diff.changed);
    assert!(diff.events.is_empty());
    let gone = vec![team("a", 1, 1.0, "v1", false)];
    assert!(!diff_rows(&gone, &Vec::new(), None).changed);
}

#[test]
fn zeros_are_equal_and_not_a_number_is_not() {
    let previous = vec![team("a", 1, 0.0, "v1", true)];
    assert!(!diff_rows(&previous, &vec![row(1, "a", -0.0, "v1")], None).changed);
    let previous = vec![team("a", 1, f64::NAN, "v1", true)];
    assert!(diff_rows(&previous, &vec![row(1, "a", f64::NAN, "v1")], None).changed);
}

#[test]
fn content_hash_is_the_digest_of_the_content() {
    let rows = vec![row(1, "alpha", 0.5, "v1"), row(-2, "bêta", 2.25, "v2")];
    assert_eq!(
        build_content_hash(&rows, Some("2026-05-07")),
        "af57180220614b1b4777cca2f430e737cc04190cac737d5690ee7d2498879441"
    );
    assert_eq!(
        build_content_hash(&Vec::new(), None),
        "e3b0c44298fc1c149afbf4c8996fb92427ae41e4649b934ca495991b7852b855"
    );
    let diff = diff_rows(&Vec::new(), &rows, Some("2026-05-07"));
    assert_eq!(diff.content_hash, build_content_hash(&rows, Some("2026-05-07")));
}

#[test]
fn content_is_laid_out_in_bytes() {
    let data = content(&vec![row(258, "ab", 0.0, "v")], Some("d"));
    assert_eq!(
        data,
        vec![b'd', 2, 1, 0, 0, 0, 0, 0, 0, b'a', b'b', 0, 0, 0, 0, 0, 0, 0, 0, b'v']
    );
}

#[test]
fn event_types_have_names() {
    assert_eq!(EventType::NewTeam.as_str(), "new_team");
    assert_eq!(EventType::DroppedTeam.as_str(), "dropped_team");
    assert_eq!(EventType::RankChanged.as_str(), "rank_changed");
    assert_eq!(EventType::ScoreChanged.as_str(), "score_changed");
    assert_eq!(EventType::VersionChanged.as_str(), "version_changed");
    assert_eq!(EventType::MultiChanged.as_str(), "multi_changed");
}
