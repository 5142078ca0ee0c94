use lb_monitor::parse::{
    bundle_score_texts, choose_bundle, collect_text, extract_bundle_path,
    extract_source_updated_at_from_text, fill_cells, normalize_date, page_score_texts, parse_cells,
    parse_groups, parse_leaderboard, parse_leaderboard_bundle, write_day, LeaderboardPage,
    ParseError, ScoreReading,
};
use lb_monitor::score::Score;

fn score(x: f64) -> Score {
    Score { bits: x.to_bits(), fixed: format!("{:.4}", x), debug: format!("{:?}", x) }
}

fn readings(texts: &[String]) -> Vec<ScoreReading> {
    let mut out = Vec::new();
    for text in texts {
        if let Ok(value) = text.parse::<f64>() {
            out.push(ScoreReading { text: text.clone(), score: score(value) });
        }
    }
    out
}

fn page(html: &str) -> Result<LeaderboardPage, ParseError> {
    parse_leaderboard(html, &readings(&page_score_texts(html)))
}

fn bundle_page(bundle: &str) -> Result<LeaderboardPage, ParseError> {
    parse_leaderboard_bundle(bundle, &readings(&bundle_score_texts(bundle)))
}

fn texts(values: &[&str]) -> Vec<String> {
    values.iter().map(|value| value.to_string()).collect()
}

#[test]
fn parses_text_fixture() {
    let html = r#"
<html>
  <body>
    <main>
      <h1>Leaderboard</h1>
      <p>Latest Update Date May 7, 2026</p>
      <pre>
Rank Team Score Version
1 team_1 95.5 v4
2 team_2 91.0 v3
      </pre>
    </main>
  </body>
</html>
"#;

    let parsed = page(html).expect("parse leaderboard");
    assert_eq!(parsed.source_updated_at.as_deref(), Some("2026-05-07"));
    assert_eq!(parsed.rows.len(), 2);
    assert_eq!(parsed.rows[0].team_id, "team_1");
    assert_eq!(parsed.rows[1].version, "v3");
}

#[test]
fn parses_current_leaderboard_text_format() {
    let html = r#"
<html>
  <body>
    <main>
      <h1>Leaderboard</h1>
      <p>Latest update: May 7, 2026</p>
      <div>
Rank Team Score Version
#1 1384 0.6311 v2
#2 1227 0.5906 v3
      </div>
    </main>
  </body>
</html>
"#;

    let parsed = page(html).expect("parse leaderboard");
    assert_eq!(parsed.source_updated_at.as_deref(), Some("2026-05-07"));
    assert_eq!(parsed.rows.len(), 2);
    assert_eq!(parsed.rows[0].rank, 1);
    assert_eq!(parsed.rows[0].team_id, "1384");
    assert_eq!(f64::from_bits(parsed.rows[0].score.bits), 0.6311);
    assert_eq!(parsed.rows[1].version, "v3");
}

#[test]
fn extracts_bundle_path_and_rows() {
    let html = r#"
<html>
  <head>
    <script type="module" crossorigin src="/assets/index-CYRVxih_.js"></script>
  </head>
</html>
"#;
    let bundle = r#"
const OT=[{rank:1,team:"1384",score:.6311,version:"v2"},{rank:2,team:"1227",score:.5906,version:"v3"}];function zT(n){return n.toFixed(4)}
Latest update: May 7, 2026
"#;

    assert_eq!(extract_bundle_path(html).as_deref(), Some("/assets/index-CYRVxih_.js"));

    let parsed = bundle_page(bundle).expect("parse leaderboard bundle");
    assert_eq!(parsed.source_updated_at.as_deref(), Some("2026-05-07"));
    assert_eq!(parsed.rows.len(), 2);
    assert_eq!(parsed.rows[0].team_id, "1384");
    assert_eq!(f64::from_bits(parsed.rows[1].score.bits), 0.5906);
}

#[test]
fn reads_table_rows_before_lines() {
    let html = r#"
<html><body>
<p>Latest update: May 17, 2026</p>
<table>
<tr><th>Rank</th><th>Team</th></tr>
<tr><td> 1 </td><td><b>alpha</b> team</td><td>1,234.5</td><td></td><td>v9</td><td>more</td></tr>
<tr><td>one</td><td>beta</td><td>2</td><td>v1</td></tr>
<tr><td>2</td><td>gamma</td><td>many</td><td>v1</td></tr>
<tr><td>3</td><td>delta</td><td>7</td></tr>
</table>
<pre>
9 omega 1.0 v1
</pre>
</body></html>
"#;
    let parsed = page(html).expect("page");
    assert_eq!(parsed.source_updated_at.as_deref(), Some("2026-05-17"));
    assert_eq!(parsed.rows.len(), 1);
    assert_eq!(parsed.rows[0].rank, 1);
    assert_eq!(parsed.rows[0].team_id, "alpha  team");
    assert_eq!(f64::from_bits(parsed.rows[0].score.bits), 1234.5);
    assert_eq!(parsed.rows[0].version, "v9");
}

#[test]
fn page_without_rows_is_refused() {
    let error = page("<html><body><p>nothing here</p></body></html>").expect_err("no rows");
    assert_eq!(error, ParseError::NoRowsInPage);
    assert_eq!(error.message(), "no leaderboard rows found in page");
}

#[test]
fn bundle_without_rows_is_refused() {
    let error = bundle_page("const OT=[];function f(){}").expect_err("no rows");
    assert_eq!(error, ParseError::NoRowsInBundle);
    assert_eq!(error.message(), "no leaderboard rows found in bundle");
    assert!(bundle_page("nothing").is_err());
}

#[test]
fn only_bundle_scripts_count() {
    let sources = vec![
        None,
        Some("/assets/vendor-1.js".to_string()),
        Some("/assets/index-1.css".to_string()),
        Some("https://cdn.example.com/assets/index-2.js".to_string()),
        Some("/assets/index-3.js".to_string()),
    ];
    assert_eq!(
        choose_bundle(&sources).as_deref(),
        Some("https://cdn.example.com/assets/index-2.js")
    );
    assert_eq!(extract_bundle_path("<html><script>1</script></html>"), None);
}

#[test]
fn dates_are_normalized() {
    assert_eq!(normalize_date(" May 7, 2026 ").as_deref(), Some("2026-05-07"));
    assert_eq!(normalize_date("December 31, 1999").as_deref(), Some("1999-12-31"));
    assert_eq!(normalize_date("May 32, 2026"), None);
    assert_eq!(normalize_date("Mai 7, 2026"), None);
    assert_eq!(write_day(2026, 5, 7), "2026-05-07");
    assert_eq!(write_day(12026, 11, 17), "+12026-11-17");
    assert_eq!(write_day(-5, 1, 2), "-0005-01-02");
    assert_eq!(write_day(33, 4, 3), "0033-04-03");
}

#[test]
fn date_needs_its_label() {
    assert_eq!(
        extract_source_updated_at_from_text("Latest  Update  Date June 3, 2025 and more").as_deref(),
        Some("2025-06-03")
    );
    assert_eq!(extract_source_updated_at_from_text("Updated June 3, 2025"), None);
}

#[test]
fn document_text_has_one_piece_per_line() {
    let html = "<html><body><h1> Title </h1><p>one<b> two </b></p>  </body></html>";
    assert_eq!(collect_text(html), "Title\none\ntwo");
}

#[test]
fn cells_are_joined_and_trimmed() {
    let cells = vec![texts(&[" 1 "]), texts(&["", " "]), texts(&["a", "b"]), Vec::new()];
    assert_eq!(fill_cells(&cells), texts(&["1", "a b"]));
}

#[test]
fn cells_become_a_row() {
    let known = readings(&texts(&["1234.5"]));
    let row = parse_cells(&known, &texts(&["+7", "alpha", "1,234.5", "v1", "x"])).expect("row");
    assert_eq!(row.rank, 7);
    assert_eq!(row.score.fixed, "1234.5000");
    assert!(parse_cells(&known, &texts(&["7", "alpha", "1,234.5"])).is_none());
    assert!(parse_cells(&known, &texts(&["seven", "alpha", "1,234.5", "v1"])).is_none());
    assert!(parse_cells(&known, &texts(&["7", "alpha", "1,234.6", "v1"])).is_none());
}

#[test]
fn groups_become_a_row() {
    let known = readings(&texts(&["0.5"]));
    let mut groups = vec![
        Some("all".to_string()),
        Some("3".to_string()),
        Some("alpha".to_string()),
        Some("0.5".to_string()),
        Some("v2".to_string()),
    ];
    let row = parse_groups(&known, &groups).expect("row");
    assert_eq!(row.rank, 3);
    assert_eq!(row.team_id, "alpha");
    assert_eq!(row.version, "v2");
    groups[2] = None;
    assert!(parse_groups(&known, &groups).is_none());
    assert!(parse_groups(&known, &vec![Some("all".to_string())]).is_none());
}

#[test]
fn readings_of_other_texts_make_no_difference() {
    let html = "<html><body><pre>\n1 alpha 0.5 v1\n</pre></body></html>";
    let first = readings(&texts(&["0.5"]));
    let second = readings(&texts(&["7", "0.5", "0.25"]));
    let a = parse_leaderboard(html, &first).expect("page");
    let b = parse_leaderboard(html, &second).expect("page");
    assert_eq!(a.rows.len(), 1);
    assert_eq!(b.rows.len(), 1);
    assert_eq!(a.rows[0].score.bits, b.rows[0].score.bits);
    assert_eq!(page_score_texts(html), texts(&["0.5"]));
}
