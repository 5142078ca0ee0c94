//! What the parts of the screen say.
use crate::bindings::{self, clock_of, parse_rfc3339};
use crate::db::history::{
    self, has_name, ChartPoint, EventViewRow, PointView, SeriesView, ShownEventView,
    TeamSeries,
};
use crate::db::read::{BoardRowView, LeaderboardViewRow, ScoreDelta, ScoreDeltaView};
use crate::parse::{self, write_day};
use crate::score::{self, bits_less, Score, ScoreView};
use crate::text::{self, integer_text, natural_text, padded_text, same_text};
use crate::tui::{self, App, AppView, Focus, RECENT_EVENTS_LIMIT};
use vstd::prelude::*;
use vstd::string::*;

verus! {

/// A colour.
#[derive(Debug, Clone, Copy, PartialEq, Eq, Structural)]
pub enum Tone {
    Cyan,
    Yellow,
    Green,
    Magenta,
    Blue,
    LightRed,
    Red,
    DarkGray,
}

/// How something is painted.
#[derive(Debug, Clone, Copy, PartialEq, Eq, Structural)]
pub struct Paint {
    pub tone: Tone,
    pub bold: bool,
}

/// The paint of a border.
pub open spec fn border_paint(active: bool) -> Paint {
    Paint {
        tone: if active {
            Tone::Cyan
        } else {
            Tone::DarkGray
        },
        bold: false,
    }
}

/// What is said of a change of rank.
pub open spec fn rank_delta_text(delta: Option<i64>) -> Seq<char> {
    match delta {
        Some(value) if value > 0 => "↑"@ + text::decimal(value as int),
        Some(value) if value < 0 => "↓"@ + text::decimal(-value),
        _ => "-"@,
    }
}

/// The paint of a change of rank.
pub open spec fn rank_delta_paint(is_new: bool, delta: Option<i64>) -> Paint {
    if is_new {
        Paint { tone: Tone::Cyan, bold: true }
    } else {
        match delta {
            Some(value) if value > 0 => Paint { tone: Tone::Green, bold: true },
            Some(value) if value < 0 => Paint { tone: Tone::Red, bold: true },
            _ => Paint { tone: Tone::DarkGray, bold: false },
        }
    }
}

/// Whether a score has grown.
pub open spec fn has_grown(delta: ScoreDeltaView) -> bool {
    score::score_lt(delta.old.bits, delta.new.bits)
}

/// Whether a score has shrunk.
pub open spec fn has_shrunk(delta: ScoreDeltaView) -> bool {
    score::score_lt(delta.new.bits, delta.old.bits)
}

/// What is said of a change of score, given the text of the difference.
pub open spec fn score_delta_text(delta: ScoreDeltaView, difference: Seq<char>) -> Seq<char> {
    if has_grown(delta) {
        "+"@ + difference
    } else if has_shrunk(delta) {
        difference
    } else {
        "-"@
    }
}

/// The paint of a change of score.
pub open spec fn score_delta_paint(delta: Option<ScoreDeltaView>) -> Paint {
    let tone = match delta {
        Some(delta) if has_grown(delta) => Tone::Green,
        Some(delta) if has_shrunk(delta) => Tone::Red,
        _ => Tone::DarkGray,
    };
    Paint { tone, bold: false }
}

/// The year, month, day, hour and minute of a time.
pub type Clock = (i32, u32, u32, u32, u32);

/// The hour and the minute.
pub open spec fn minute_text(clock: Clock) -> Seq<char> {
    text::padded(clock.3 as nat, 2) + ":"@ + text::padded(clock.4 as nat, 2)
}

/// A time as it is shown: the day and the minute, or the text as it is where it
/// is no time.
pub open spec fn timestamp_text(input: Seq<char>, clock: Option<Clock>) -> Seq<char> {
    match clock {
        Some(clock) => parse::day_text(clock.0 as int, clock.1 as int, clock.2 as int) + " "@
            + minute_text(clock),
        None => input,
    }
}

/// A moment as it is shown at an axis: the month, the day and the minute, or its
/// number of seconds where no time can hold it.
pub open spec fn short_timestamp_text(timestamp: i64, clock: Option<Clock>) -> Seq<char> {
    match clock {
        Some(clock) => text::padded(clock.1 as nat, 2) + "-"@ + text::padded(clock.2 as nat, 2)
            + " "@ + minute_text(clock),
        None => text::decimal(timestamp as int),
    }
}

/// A change from one text to another; `what` says of what.
pub open spec fn change_text(
    what: Seq<char>,
    old: Option<Seq<char>>,
    new: Option<Seq<char>>,
) -> Seq<char> {
    match (old, new) {
        (Some(old), Some(new)) => what + " "@ + old + "->"@ + new,
        (Some(old), None) => what + " "@ + old + "->OUT"@,
        (None, Some(new)) => what + " NEW->"@ + new,
        (None, None) => "-"@,
    }
}

/// The text of a rank.
pub open spec fn rank_shown(rank: Option<i64>) -> Option<Seq<char>> {
    match rank {
        Some(rank) => Some(text::decimal(rank as int)),
        None => None,
    }
}

/// The text of a score.
pub open spec fn score_shown(score: Option<ScoreView>) -> Option<Seq<char>> {
    match score {
        Some(score) => Some(score.fixed),
        None => None,
    }
}

/// What is said of a change of version: nothing where it stayed the same.
pub open spec fn version_change_text(old: Option<Seq<char>>, new: Option<Seq<char>>) -> Seq<char> {
    if old is Some && old == new {
        "-"@
    } else {
        change_text("version"@, old, new)
    }
}

/// The line of an event, given its time as it is shown.
pub open spec fn event_text(event: ShownEventView, time: Seq<char>) -> Seq<char> {
    time + " "@ + event.team_id + " "@ + event.event_type + " | "@ + change_text(
        "rank"@,
        rank_shown(event.old_rank),
        rank_shown(event.new_rank),
    ) + " | "@ + change_text("score"@, score_shown(event.old_score), score_shown(event.new_score))
        + " | "@ + version_change_text(event.old_version, event.new_version)
}

/// The paint of a border.
pub fn border_style(active: bool) -> (paint: Paint)
    ensures
        paint == border_paint(active),
{
    Paint {
        tone: if active {
            Tone::Cyan
        } else {
            Tone::DarkGray
        },
        bold: false,
    }
}

/// What is said of a change of rank.
pub fn format_rank_delta(delta: Option<i64>) -> (out: String)
    ensures
        out@ == rank_delta_text(delta),
{
    match delta {
        Some(value) if value > 0 => {
            let mut out = "↑".to_owned();
            out.append(integer_text(value).as_str());
            out
        },
        Some(value) if value < 0 => {
            let mut out = "↓".to_owned();
            let magnitude: u64 = (-(value as i128)) as u64;
            out.append(natural_text(magnitude).as_str());
            out
        },
        _ => "-".to_owned(),
    }
}

/// The paint of a change of rank.
pub fn rank_delta_style(is_new: bool, delta: Option<i64>) -> (paint: Paint)
    ensures
        paint == rank_delta_paint(is_new, delta),
{
    if is_new {
        return Paint { tone: Tone::Cyan, bold: true };
    }
    match delta {
        Some(value) if value > 0 => Paint { tone: Tone::Green, bold: true },
        Some(value) if value < 0 => Paint { tone: Tone::Red, bold: true },
        _ => Paint { tone: Tone::DarkGray, bold: false },
    }
}

/// What is said of a change of score. `difference` is the new score less the old
/// one, with four digits behind the point.
pub fn format_score_delta(delta: &ScoreDelta, difference: &str) -> (out: String)
    ensures
        out@ == score_delta_text(delta.deep_view(), difference@),
{
    if bits_less(delta.old.bits, delta.new.bits) {
        let mut out = "+".to_owned();
        out.append(difference);
        out
    } else if bits_less(delta.new.bits, delta.old.bits) {
        difference.to_owned()
    } else {
        "-".to_owned()
    }
}

/// The paint of a change of score.
pub fn score_delta_style(delta: &Option<ScoreDelta>) -> (paint: Paint)
    ensures
        paint == score_delta_paint(delta.deep_view()),
{
    match delta {
        Some(delta) => if bits_less(delta.old.bits, delta.new.bits) {
            Paint { tone: Tone::Green, bold: false }
        } else if bits_less(delta.new.bits, delta.old.bits) {
            Paint { tone: Tone::Red, bold: false }
        } else {
            Paint { tone: Tone::DarkGray, bold: false }
        },
        None => Paint { tone: Tone::DarkGray, bold: false },
    }
}

fn format_minute(clock: Clock) -> (out: String)
    ensures
        out@ == minute_text(clock),
{
    let mut out = padded_text(clock.3 as u64, 2);
    out.append(":");
    out.append(padded_text(clock.4 as u64, 2).as_str());
    out
}

/// A time as it is shown, given its clock where it is a time.
pub fn show_timestamp(input: &str, clock: Option<Clock>) -> (out: String)
    ensures
        out@ == timestamp_text(input@, clock),
{
    match clock {
        Some(clock) => {
            let mut out = write_day(clock.0, clock.1, clock.2);
            out.append(" ");
            out.append(format_minute(clock).as_str());
            out
        },
        None => input.to_owned(),
    }
}

/// A time as it is shown.
pub fn format_timestamp(input: &str) -> (out: String)
    ensures
        out@ == timestamp_text(input@, bindings::rfc3339_clock(input@)),
{
    let clock: Option<Clock> = match parse_rfc3339(input) {
        Some(time) => Some(time.1),
        None => None,
    };
    show_timestamp(input, clock)
}

/// A moment as it is shown at an axis, given its clock where it has one.
pub fn show_short_timestamp(timestamp: i64, clock: Option<Clock>) -> (out: String)
    ensures
        out@ == short_timestamp_text(timestamp, clock),
{
    match clock {
        Some(clock) => {
            let mut out = padded_text(clock.1 as u64, 2);
            out.append("-");
            out.append(padded_text(clock.2 as u64, 2).as_str());
            out.append(" ");
            out.append(format_minute(clock).as_str());
            out
        },
        None => integer_text(timestamp),
    }
}

/// A moment as it is shown at an axis.
pub fn format_timestamp_short_unix(timestamp: i64) -> (out: String)
    ensures
        out@ == short_timestamp_text(timestamp, bindings::clock_found(timestamp)),
{
    show_short_timestamp(timestamp, clock_of(timestamp))
}

fn format_change(what: &str, old: Option<&str>, new: Option<&str>) -> (out: String)
    ensures
        out@ == change_text(what@, old.deep_view(), new.deep_view()),
{
    match (old, new) {
        (Some(old), Some(new)) => {
            let mut out = what.to_owned();
            out.append(" ");
            out.append(old);
            out.append("->");
            out.append(new);
            out
        },
        (Some(old), None) => {
            let mut out = what.to_owned();
            out.append(" ");
            out.append(old);
            out.append("->OUT");
            out
        },
        (None, Some(new)) => {
            let mut out = what.to_owned();
            out.append(" NEW->");
            out.append(new);
            out
        },
        (None, None) => "-".to_owned(),
    }
}

fn format_rank_change(old: Option<i64>, new: Option<i64>) -> (out: String)
    ensures
        out@ == change_text("rank"@, rank_shown(old), rank_shown(new)),
{
    let old = match old {
        Some(rank) => Some(integer_text(rank)),
        None => None,
    };
    let new = match new {
        Some(rank) => Some(integer_text(rank)),
        None => None,
    };
    format_change("rank", text_ref(&old), text_ref(&new))
}

fn text_ref<'a>(value: &'a Option<String>) -> (out: Option<&'a str>)
    ensures
        out.deep_view() == value.deep_view(),
{
    match value {
        Some(value) => Some(value.as_str()),
        None => None,
    }
}

fn score_ref<'a>(value: &'a Option<Score>) -> (out: Option<&'a str>)
    ensures
        out.deep_view() == score_shown(value.deep_view()),
{
    match value {
        Some(score) => Some(score.fixed.as_str()),
        None => None,
    }
}

/// The line of an event, given its time as it is shown.
pub fn show_event(event: &EventViewRow, time: &str) -> (out: String)
    ensures
        out@ == event_text(event.deep_view(), time@),
{
    let same_version = match (&event.old_version, &event.new_version) {
        (Some(old), Some(new)) => same_text(old.as_str(), new.as_str()),
        _ => false,
    };
    let version = if same_version {
        "-".to_owned()
    } else {
        format_change("version", text_ref(&event.old_version), text_ref(&event.new_version))
    };
    let mut out = time.to_owned();
    out.append(" ");
    out.append(event.team_id.as_str());
    out.append(" ");
    out.append(event.event_type.as_str());
    out.append(" | ");
    out.append(format_rank_change(event.old_rank, event.new_rank).as_str());
    out.append(" | ");
    out.append(
        format_change("score", score_ref(&event.old_score), score_ref(&event.new_score)).as_str(),
    );
    out.append(" | ");
    out.append(version.as_str());
    out
}

/// The line of an event.
pub fn format_event(event: &EventViewRow) -> (out: String)
    ensures
        out@ == event_text(
            event.deep_view(),
            timestamp_text(event.fetched_at@, bindings::rfc3339_clock(event.fetched_at@)),
        ),
{
    show_event(event, format_timestamp(event.fetched_at.as_str()).as_str())
}

/// A line of the table.
#[derive(Debug)]
pub struct TableRow {
    pub marker: String,
    pub rank: String,
    pub delta: String,
    pub delta_paint: Paint,
    pub team_id: String,
    pub score: String,
    pub score_delta: String,
    pub score_delta_paint: Paint,
    pub version: String,
    pub last_seen: String,
}

/// What a [`TableRow`] holds.
#[verifier::ext_equal]
pub struct TableRowView {
    pub marker: Seq<char>,
    pub rank: Seq<char>,
    pub delta: Seq<char>,
    pub delta_paint: Paint,
    pub team_id: Seq<char>,
    pub score: Seq<char>,
    pub score_delta: Seq<char>,
    pub score_delta_paint: Paint,
    pub version: Seq<char>,
    pub last_seen: Seq<char>,
}

impl DeepView for TableRow {
    type V = TableRowView;

    open spec fn deep_view(&self) -> TableRowView {
        TableRowView {
            marker: self.marker@,
            rank: self.rank@,
            delta: self.delta@,
            delta_paint: self.delta_paint,
            team_id: self.team_id@,
            score: self.score@,
            score_delta: self.score_delta@,
            score_delta_paint: self.score_delta_paint,
            version: self.version@,
            last_seen: self.last_seen@,
        }
    }
}

/// The line of the table for a line of the leaderboard, given whether its team is
/// compared and the text of the difference of its scores.
pub open spec fn table_row(row: BoardRowView, is_compared: bool, difference: Seq<char>) -> TableRowView {
    TableRowView {
        marker: if is_compared {
            "*"@
        } else {
            " "@
        },
        rank: text::decimal(row.rank as int),
        delta: if row.is_new {
            "NEW"@
        } else {
            rank_delta_text(row.rank_delta)
        },
        delta_paint: rank_delta_paint(row.is_new, row.rank_delta),
        team_id: row.team_id,
        score: row.score.fixed,
        score_delta: match row.score_delta {
            Some(delta) => score_delta_text(delta, difference),
            None => "-"@,
        },
        score_delta_paint: score_delta_paint(row.score_delta),
        version: row.version,
        last_seen: timestamp_text(row.fetched_at, bindings::rfc3339_clock(row.fetched_at)),
    }
}

/// The lines of the table. `differences` has the text of the difference of the
/// scores for each line of the leaderboard.
pub open spec fn table_of(a: AppView, differences: Seq<Seq<char>>) -> Seq<TableRowView> {
    a.filtered_indices.map_values(
        |i: usize|
            table_row(
                a.leaderboard[i as int],
                a.compare_teams.contains(a.leaderboard[i as int].team_id),
                differences[i as int],
            ),
    )
}

/// The title of the table.
pub open spec fn table_title_of(a: AppView) -> Seq<char> {
    if a.search_mode {
        "Leaderboard /"@ + a.search_input
    } else {
        "Leaderboard"@
    }
}

/// The title of the events.
pub open spec fn events_title_of(a: AppView) -> Seq<char> {
    match a.selected_team {
        Some(team) => "Events "@ + team,
        None => "Recent Events"@,
    }
}

/// The lines of the events.
pub open spec fn event_list_of(a: AppView) -> Seq<Seq<char>> {
    history::at_most(a.events, RECENT_EVENTS_LIMIT as nat).map_values(
        |event: ShownEventView|
            event_text(
                event,
                timestamp_text(event.fetched_at, bindings::rfc3339_clock(event.fetched_at)),
            ),
    )
}

/// The title of the chart.
pub open spec fn chart_title_of(a: AppView) -> Seq<char> {
    if a.compare_teams.len() == 0 {
        "Score Chart (press Space to add teams)"@
    } else {
        "Score Chart"@
    }
}

/// The name of a part of the screen.
pub open spec fn focus_name(focus: Focus) -> Seq<char> {
    match focus {
        Focus::Table => "Table"@,
        Focus::Events => "Events"@,
        Focus::Chart => "Chart"@,
    }
}

/// The line at the bottom.
pub open spec fn status_line_of(a: AppView) -> Seq<char> {
    "selected="@ + (match a.selected_team {
        Some(team) => team,
        None => "-"@,
    }) + " focus="@ + focus_name(a.focus) + " search=\""@ + a.search_input
        + "\" | / search | Space compare | Enter team events | Tab focus | r reload | q quit | "@
        + a.status
}

/// The line of the table for a line of the leaderboard.
pub fn show_row(row: &LeaderboardViewRow, is_compared: bool, difference: &str) -> (out: TableRow)
    ensures
        out.deep_view() == table_row(row.deep_view(), is_compared, difference@),
{
    let delta = if row.is_new {
        "NEW".to_owned()
    } else {
        format_rank_delta(row.rank_delta)
    };
    let score_delta = match &row.score_delta {
        Some(delta) => format_score_delta(delta, difference),
        None => "-".to_owned(),
    };
    let marker = if is_compared {
        "*".to_owned()
    } else {
        " ".to_owned()
    };
    TableRow {
        marker,
        rank: integer_text(row.rank),
        delta,
        delta_paint: rank_delta_style(row.is_new, row.rank_delta),
        team_id: row.team_id.clone(),
        score: row.score.fixed.clone(),
        score_delta,
        score_delta_paint: score_delta_style(&row.score_delta),
        version: row.version.clone(),
        last_seen: format_timestamp(row.fetched_at.as_str()),
    }
}

/// The lines of the table. `differences` has the text of the difference of the
/// scores for each line of the leaderboard.
pub fn table_rows(app: &App, differences: &Vec<String>) -> (rows: Vec<TableRow>)
    requires
        tui::lines_on_board(app.deep_view()),
        differences@.len() == app.leaderboard@.len(),
    ensures
        rows.deep_view() == table_of(app.deep_view(), differences.deep_view()),
{
    let ghost a = app.deep_view();
    let ghost want = table_of(a, differences.deep_view());
    let mut rows: Vec<TableRow> = Vec::new();
    let mut i: usize = 0;
    assert(rows.deep_view() =~= want.take(0));
    while i < app.filtered_indices.len()
        invariant
            i <= app.filtered_indices@.len(),
            a == app.deep_view(),
            tui::lines_on_board(a),
            differences@.len() == app.leaderboard@.len(),
            want == table_of(a, differences.deep_view()),
            rows.deep_view() == want.take(i as int),
        decreases app.filtered_indices@.len() - i,
    {
        let ghost before = rows.deep_view();
        let line: usize = app.filtered_indices[i];
        proof {
            assert(a.filtered_indices[i as int] == line);
            assert(a.leaderboard[line as int] == app.leaderboard@[line as int].deep_view());
            assert(differences.deep_view()[line as int] == differences@[line as int]@);
        }
        let row = &app.leaderboard[line];
        let is_compared = has_name(&app.compare_teams, row.team_id.as_str());
        let out = show_row(row, is_compared, differences[line].as_str());
        let ghost view = out.deep_view();
        rows.push(out);
        proof {
            assert(rows.deep_view() =~= before.push(view));
            assert(want[i as int] == view);
            assert(want.take(i + 1) =~= want.take(i as int).push(view));
        }
        i += 1;
    }
    assert(want.take(i as int) =~= want);
    rows
}

/// The title of the table.
pub fn table_title(app: &App) -> (out: String)
    ensures
        out@ == table_title_of(app.deep_view()),
{
    let mut out = if app.search_mode {
        "Leaderboard /".to_owned()
    } else {
        "Leaderboard".to_owned()
    };
    if app.search_mode {
        out.append(app.search_input.as_str());
    }
    out
}

/// The title of the events.
pub fn events_title(app: &App) -> (out: String)
    ensures
        out@ == events_title_of(app.deep_view()),
{
    match &app.selected_team {
        Some(team) => {
            let mut out = "Events ".to_owned();
            out.append(team.as_str());
            out
        },
        None => "Recent Events".to_owned(),
    }
}

/// The lines of the events.
pub fn event_list(app: &App) -> (lines: Vec<String>)
    ensures
        lines.deep_view() == event_list_of(app.deep_view()),
{
    let ghost a = app.deep_view();
    let ghost want = event_list_of(a);
    let count: usize = if app.events.len() > RECENT_EVENTS_LIMIT {
        RECENT_EVENTS_LIMIT
    } else {
        app.events.len()
    };
    let mut lines: Vec<String> = Vec::new();
    let mut i: usize = 0;
    assert(want.len() == count);
    assert(lines.deep_view() =~= want.take(0));
    while i < count
        invariant
            i <= count,
            count <= app.events@.len(),
            a == app.deep_view(),
            want == event_list_of(a),
            want.len() == count,
            lines.deep_view() == want.take(i as int),
        decreases count - i,
    {
        let ghost before = lines.deep_view();
        let line = format_event(&app.events[i]);
        let ghost view = line@;
        lines.push(line);
        proof {
            assert(a.events[i as int] == app.events@[i as int].deep_view());
            assert(history::at_most(a.events, RECENT_EVENTS_LIMIT as nat)[i as int]
                == a.events[i as int]);
            assert(lines.deep_view() =~= before.push(view));
            assert(want[i as int] == view);
            assert(want.take(i + 1) =~= want.take(i as int).push(view));
        }
        i += 1;
    }
    assert(want.take(i as int) =~= want);
    lines
}

/// The title of the chart.
pub fn chart_title(app: &App) -> (out: &'static str)
    ensures
        out@ == chart_title_of(app.deep_view()),
{
    if app.compare_teams.len() == 0 {
        "Score Chart (press Space to add teams)"
    } else {
        "Score Chart"
    }
}

/// The line at the bottom.
pub fn status_line(app: &App) -> (out: String)
    ensures
        out@ == status_line_of(app.deep_view()),
{
    let mut out = "selected=".to_owned();
    match &app.selected_team {
        Some(team) => out.append(team.as_str()),
        None => out.append("-"),
    }
    out.append(" focus=");
    out.append(
        match app.focus {
            Focus::Table => "Table",
            Focus::Events => "Events",
            Focus::Chart => "Chart",
        },
    );
    out.append(" search=\"");
    out.append(app.search_input.as_str());
    out.append(
        "\" | / search | Space compare | Enter team events | Tab focus | r reload | q quit | ",
    );
    out.append(app.status.as_str());
    out
}

/// The greatest finite binary64 pattern, above which no score lies.
pub const GREATEST_BITS: u64 = 0x7fef_ffff_ffff_ffff;

/// A chart: its lines, the times at which it begins and ends, and the least and
/// the greatest score. The greatest score counts from zero.
#[derive(Debug)]
pub struct ChartPlan {
    pub lines: Vec<TeamSeries>,
    pub min_x: i64,
    pub max_x: i64,
    pub min_y: u64,
    pub max_y: u64,
}

/// What a [`ChartPlan`] holds.
#[verifier::ext_equal]
pub struct PlanView {
    pub lines: Seq<SeriesView>,
    pub min_x: i64,
    pub max_x: i64,
    pub min_y: u64,
    pub max_y: u64,
}

impl DeepView for ChartPlan {
    type V = PlanView;

    open spec fn deep_view(&self) -> PlanView {
        PlanView {
            lines: self.lines.deep_view(),
            min_x: self.min_x,
            max_x: self.max_x,
            min_y: self.min_y,
            max_y: self.max_y,
        }
    }
}

/// The points of a team; none where there is no series of it.
pub open spec fn points_named(series: Seq<SeriesView>, name: Seq<char>) -> Seq<PointView>
    decreases series.len(),
{
    if series.len() == 0 {
        Seq::empty()
    } else if series[0].team_id == name {
        series[0].points
    } else {
        points_named(series.drop_first(), name)
    }
}

/// The line of a team in the chart, where it has points.
pub open spec fn chart_line(series: Seq<SeriesView>, name: Seq<char>) -> Option<SeriesView> {
    let points = points_named(series, name);
    if points.len() == 0 {
        None
    } else {
        Some(SeriesView { team_id: name, points })
    }
}

/// The lines of the chart: one for each compared team that has points.
pub open spec fn chart_lines(a: AppView) -> Seq<SeriesView> {
    a.compare_teams.filter_map(|name: Seq<char>| chart_line(a.chart_series, name))
}

/// The bounds of a chart with the given points beside what it had.
pub open spec fn widened(plan: PlanView, points: Seq<PointView>) -> PlanView
    decreases points.len(),
{
    if points.len() == 0 {
        plan
    } else {
        let before = widened(plan, points.drop_last());
        let point = points.last();
        PlanView {
            lines: before.lines,
            min_x: if point.timestamp < before.min_x {
                point.timestamp
            } else {
                before.min_x
            },
            max_x: if point.timestamp > before.max_x {
                point.timestamp
            } else {
                before.max_x
            },
            min_y: if score::score_lt(point.score.bits, before.min_y) {
                point.score.bits
            } else {
                before.min_y
            },
            max_y: if score::score_lt(before.max_y, point.score.bits) {
                point.score.bits
            } else {
                before.max_y
            },
        }
    }
}

/// The chart of the lines.
pub open spec fn plan_of(lines: Seq<SeriesView>) -> PlanView
    decreases lines.len(),
{
    if lines.len() == 0 {
        PlanView {
            lines,
            min_x: i64::MAX,
            max_x: i64::MIN,
            min_y: GREATEST_BITS,
            max_y: 0,
        }
    } else {
        let plan = widened(plan_of(lines.drop_last()), lines.last().points);
        PlanView { lines, ..plan }
    }
}

/// The chart; `None` where there is nothing to draw.
pub open spec fn chart_of(a: AppView) -> Option<PlanView> {
    let lines = chart_lines(a);
    if lines.len() == 0 {
        None
    } else {
        Some(plan_of(lines))
    }
}

fn copy_points(points: &Vec<ChartPoint>) -> (copy: Vec<ChartPoint>)
    ensures
        copy.deep_view() == points.deep_view(),
{
    let ghost all = points.deep_view();
    let mut copy: Vec<ChartPoint> = Vec::new();
    let mut i: usize = 0;
    assert(copy.deep_view() =~= all.take(0));
    while i < points.len()
        invariant
            i <= points@.len(),
            all == points.deep_view(),
            copy.deep_view() == all.take(i as int),
        decreases points@.len() - i,
    {
        let ghost before = copy.deep_view();
        copy.push(points[i].clone());
        proof {
            assert(copy.deep_view() =~= before.push(points@[i as int].deep_view()));
            assert(all.take(i + 1) =~= all.take(i as int).push(all[i as int]));
        }
        i += 1;
    }
    assert(all.take(i as int) =~= all);
    copy
}

fn find_points(series: &Vec<TeamSeries>, name: &str) -> (points: Vec<ChartPoint>)
    ensures
        points.deep_view() == points_named(series.deep_view(), name@),
{
    let ghost all = series.deep_view();
    let mut i: usize = 0;
    assert(all.skip(0) =~= all);
    while i < series.len()
        invariant
            i <= series@.len(),
            all == series.deep_view(),
            points_named(all, name@) == points_named(all.skip(i as int), name@),
        decreases series@.len() - i,
    {
        proof {
            assert(all.skip(i as int)[0] == series@[i as int].deep_view());
            assert(all.skip(i as int).drop_first() =~= all.skip(i + 1));
        }
        if same_text(series[i].team_id.as_str(), name) {
            return copy_points(&series[i].points);
        }
        i += 1;
    }
    let none: Vec<ChartPoint> = Vec::new();
    assert(none.deep_view() =~= Seq::<PointView>::empty());
    none
}

fn widen(plan: &mut ChartPlan, points: &Vec<ChartPoint>)
    ensures
        final(plan).deep_view() == widened(old(plan).deep_view(), points.deep_view()),
{
    let ghost start = plan.deep_view();
    let ghost all = points.deep_view();
    let mut i: usize = 0;
    assert(all.take(0) =~= Seq::<PointView>::empty());
    while i < points.len()
        invariant
            i <= points@.len(),
            all == points.deep_view(),
            plan.deep_view() == widened(start, all.take(i as int)),
        decreases points@.len() - i,
    {
        let point = &points[i];
        proof {
            assert(all.take(i + 1).drop_last() =~= all.take(i as int));
            assert(all.take(i + 1).last() == point.deep_view());
        }
        if point.timestamp < plan.min_x {
            plan.min_x = point.timestamp;
        }
        if point.timestamp > plan.max_x {
            plan.max_x = point.timestamp;
        }
        if bits_less(point.score.bits, plan.min_y) {
            plan.min_y = point.score.bits;
        }
        if bits_less(plan.max_y, point.score.bits) {
            plan.max_y = point.score.bits;
        }
        i += 1;
    }
    assert(all.take(i as int) =~= all);
}

/// The chart; `None` where there is nothing to draw.
pub fn chart_plan(app: &App) -> (plan: Option<ChartPlan>)
    ensures
        plan.deep_view() == chart_of(app.deep_view()),
{
    let ghost a = app.deep_view();
    let ghost line_of = |name: Seq<char>| chart_line(a.chart_series, name);
    let mut plan = ChartPlan {
        lines: Vec::new(),
        min_x: i64::MAX,
        max_x: i64::MIN,
        min_y: GREATEST_BITS,
        max_y: 0,
    };
    let mut i: usize = 0;
    proof {
        reveal(Seq::filter_map);
        assert(a.compare_teams.take(0).filter_map(line_of) =~= Seq::<SeriesView>::empty());
        assert(plan.deep_view() =~~= plan_of(Seq::empty()));
    }
    while i < app.compare_teams.len()
        invariant
            i <= app.compare_teams@.len(),
            a == app.deep_view(),
            line_of == (|name: Seq<char>| chart_line(a.chart_series, name)),
            plan.deep_view() == plan_of(a.compare_teams.take(i as int).filter_map(line_of)),
        decreases app.compare_teams@.len() - i,
    {
        let ghost done = a.compare_teams.take(i as int).filter_map(line_of);
        let name = &app.compare_teams[i];
        proof {
            assert(a.compare_teams[i as int] == name@);
            a.compare_teams.lemma_filter_map_take_succ(line_of, i as int);
        }
        let points = find_points(&app.chart_series, name.as_str());
        if points.len() > 0 {
            let ghost before = plan.deep_view();
            widen(&mut plan, &points);
            let ghost wide = plan.deep_view();
            let line = TeamSeries { team_id: name.clone(), points };
            let ghost view = line.deep_view();
            plan.lines.push(line);
            proof {
                lemma_widened_lines(before, view.points);
                lemma_plan_lines(done);
                assert(plan.lines.deep_view() =~= done.push(view));
                assert(done.push(view).drop_last() =~= done);
                assert(a.compare_teams.take(i + 1).filter_map(line_of) =~= done.push(view));
                assert(plan.deep_view() =~~= plan_of(done.push(view)));
            }
        }
        i += 1;
    }
    proof {
        assert(a.compare_teams.take(i as int) =~= a.compare_teams);
        lemma_plan_lines(chart_lines(a));
    }
    if plan.lines.len() == 0 {
        None
    } else {
        Some(plan)
    }
}

proof fn lemma_widened_lines(plan: PlanView, points: Seq<PointView>)
    ensures
        widened(plan, points).lines == plan.lines,
    decreases points.len(),
{
    if points.len() > 0 {
        lemma_widened_lines(plan, points.drop_last());
    }
}

proof fn lemma_plan_lines(lines: Seq<SeriesView>)
    ensures
        plan_of(lines).lines == lines,
{
}

/// The colours of the lines.
pub open spec fn line_tone_of(index: int) -> Tone {
    if index % 6 == 0 {
        Tone::Cyan
    } else if index % 6 == 1 {
        Tone::Yellow
    } else if index % 6 == 2 {
        Tone::Green
    } else if index % 6 == 3 {
        Tone::Magenta
    } else if index % 6 == 4 {
        Tone::Blue
    } else {
        Tone::LightRed
    }
}

/// The colour of a line of the chart, by its place; the colours come round.
pub fn line_tone(index: usize) -> (tone: Tone)
    ensures
        tone == line_tone_of(index as int),
{
    match index % 6 {
        0 => Tone::Cyan,
        1 => Tone::Yellow,
        2 => Tone::Green,
        3 => Tone::Magenta,
        4 => Tone::Blue,
        _ => Tone::LightRed,
    }
}

proof fn lemma_widened_covers(plan: PlanView, points: Seq<PointView>)
    ensures
        widened(plan, points).min_x <= plan.min_x,
        widened(plan, points).max_x >= plan.max_x,
        forall|i: int|
            0 <= i < points.len() ==> widened(plan, points).min_x <= (#[trigger] points[i]).timestamp
                <= widened(plan, points).max_x,
    decreases points.len(),
{
    if points.len() > 0 {
        let rest = points.drop_last();
        lemma_widened_covers(plan, rest);
        assert forall|i: int| 0 <= i < points.len() implies widened(plan, points).min_x <= (
        #[trigger] points[i]).timestamp <= widened(plan, points).max_x by {
            if i < rest.len() {
                assert(rest[i] == points[i]);
            }
        }
    }
}

/// Every point of the chart lies between its beginning and its end.
pub proof fn chart_covers_its_points(lines: Seq<SeriesView>)
    ensures
        forall|i: int, j: int|
            0 <= i < lines.len() && 0 <= j < lines[i].points.len() ==> plan_of(lines).min_x <= (
            #[trigger] lines[i].points[j]).timestamp <= plan_of(lines).max_x,
    decreases lines.len(),
{
    if lines.len() > 0 {
        let rest = lines.drop_last();
        chart_covers_its_points(rest);
        lemma_widened_covers(plan_of(rest), lines.last().points);
        assert forall|i: int, j: int|
            0 <= i < lines.len() && 0 <= j < lines[i].points.len() implies plan_of(lines).min_x <= (
        #[trigger] lines[i].points[j]).timestamp <= plan_of(lines).max_x by {
            if i < rest.len() {
                assert(rest[i] == lines[i]);
                assert(rest[i].points[j] == lines[i].points[j]);
            } else {
                assert(lines.last().points[j] == lines[i].points[j]);
            }
        }
    }
}

}
