//! What the parts of the screen say of what they show.
use crate::bindings;
use crate::db::history::{PointView, SeriesView, ShownEventView};
use crate::db::read::BoardRowView;
use crate::score::{self, ScoreView};
use crate::seqs;
use crate::text;
use crate::tui::view::{self, Clock, Paint, PlanView, Tone};
use crate::tui::{AppView, Focus};
use vstd::prelude::*;

verus! {

/// The table has one line for each line that the search leaves, in their order, with
/// the team's values; the compared teams are marked.
pub proof fn table_has_every_line_that_is_left(a: AppView, differences: Seq<Seq<char>>)
    ensures
        view::table_of(a, differences).len() == a.filtered_indices.len(),
        forall|k: int|
            0 <= k < a.filtered_indices.len() ==> {
                let row = a.leaderboard[a.filtered_indices[k] as int];
                let line = #[trigger] view::table_of(a, differences)[k];
                &&& line.team_id == row.team_id
                &&& line.rank == text::decimal(row.rank as int)
                &&& line.score == row.score.fixed
                &&& line.version == row.version
                &&& a.compare_teams.contains(row.team_id) ==> line.marker == "*"@
                &&& !a.compare_teams.contains(row.team_id) ==> line.marker == " "@
                &&& line.last_seen == view::timestamp_text(
                    row.fetched_at,
                    bindings::rfc3339_clock(row.fetched_at),
                )
                &&& line == view::table_row(
                    row,
                    a.compare_teams.contains(row.team_id),
                    differences[a.filtered_indices[k] as int],
                )
            },
{
}

/// A line says `NEW` of a new team; of another one how many places it gained, with
/// an arrow upwards, or lost, with one downwards, in green and red; and a dash where
/// it kept its place.
pub proof fn line_says_how_the_rank_changed(
    row: BoardRowView,
    compared: bool,
    difference: Seq<char>,
    places: i64,
)
    requires
        places > 0,
    ensures
        ({
            let line = view::table_row(row, compared, difference);
            &&& row.is_new ==> line.delta == "NEW"@ && line.delta_paint == (Paint {
                tone: Tone::Cyan,
                bold: true,
            })
            &&& !row.is_new && row.rank_delta == Some(places) ==> line.delta == "↑"@
                + text::decimal(places as int) && line.delta_paint == (Paint {
                tone: Tone::Green,
                bold: true,
            })
            &&& !row.is_new && row.rank_delta == Some((-places) as i64) ==> line.delta == "↓"@
                + text::decimal(places as int) && line.delta_paint == (Paint {
                tone: Tone::Red,
                bold: true,
            })
            &&& !row.is_new && (row.rank_delta is None || row.rank_delta == Some(0i64))
                ==> line.delta == "-"@ && line.delta_paint == (Paint {
                tone: Tone::DarkGray,
                bold: false,
            })
        }),
{
}

/// A line says by how much the score grew, with a plus sign and in green, or shrank,
/// in red; and a dash where it is the same or was not known.
pub proof fn line_says_how_the_score_changed(
    row: BoardRowView,
    compared: bool,
    difference: Seq<char>,
)
    ensures
        ({
            let line = view::table_row(row, compared, difference);
            let plain = Paint { tone: Tone::DarkGray, bold: false };
            &&& row.score_delta is None ==> line.score_delta == "-"@ && line.score_delta_paint
                == plain
            &&& row.score_delta matches Some(change) ==> {
                let grown = score::score_lt(change.old.bits, change.new.bits);
                let shrunk = score::score_lt(change.new.bits, change.old.bits);
                &&& grown ==> line.score_delta == "+"@ + difference && line.score_delta_paint == (
                Paint { tone: Tone::Green, bold: false })
                &&& shrunk ==> line.score_delta == difference && line.score_delta_paint == (Paint {
                    tone: Tone::Red,
                    bold: false,
                })
                &&& !grown && !shrunk ==> line.score_delta == "-"@ && line.score_delta_paint
                    == plain
            }
        }),
{
}

/// Each of the newest events has its line, up to a hundred of them, in their order.
pub proof fn every_shown_event_has_its_line(a: AppView)
    ensures
        view::event_list_of(a).len() == if a.events.len() < 100 {
            a.events.len() as int
        } else {
            100
        },
        forall|i: int|
            0 <= i < a.events.len() && i < 100 ==> #[trigger] view::event_list_of(a)[i]
                == view::event_text(
                a.events[i],
                view::timestamp_text(
                    a.events[i].fetched_at,
                    bindings::rfc3339_clock(a.events[i].fetched_at),
                ),
            ),
{
}

/// A change as it is told: from the old text to the new one, `NEW` in place of a
/// missing old one, `OUT` in place of a missing new one, a dash where both are
/// missing.
pub open spec fn told_change(
    what: Seq<char>,
    old: Option<Seq<char>>,
    new: Option<Seq<char>>,
) -> Seq<char> {
    if old is Some && new is Some {
        what + " "@ + old->Some_0 + "->"@ + new->Some_0
    } else if old is Some {
        what + " "@ + old->Some_0 + "->OUT"@
    } else if new is Some {
        what + " NEW->"@ + new->Some_0
    } else {
        "-"@
    }
}

/// Whether the text is that of the rank, missing where it is.
pub open spec fn is_rank_text(rank: Option<i64>, word: Option<Seq<char>>) -> bool {
    &&& rank is Some == word is Some
    &&& rank is Some ==> word->Some_0 == text::decimal(rank->Some_0 as int)
}

/// Whether the text is that of the score, missing where it is.
pub open spec fn is_score_text(score: Option<ScoreView>, word: Option<Seq<char>>) -> bool {
    &&& score is Some == word is Some
    &&& score is Some ==> word->Some_0 == score->Some_0.fixed
}

/// The line of an event has its time, its team and its kind, and the rank, the score
/// and the version before and after; a version that stayed the same is a dash.
pub proof fn event_line_has_both_values(
    event: ShownEventView,
    time: Seq<char>,
    ranks: (Option<Seq<char>>, Option<Seq<char>>),
    scores: (Option<Seq<char>>, Option<Seq<char>>),
)
    requires
        is_rank_text(event.old_rank, ranks.0),
        is_rank_text(event.new_rank, ranks.1),
        is_score_text(event.old_score, scores.0),
        is_score_text(event.new_score, scores.1),
    ensures
        view::event_text(event, time) == time + " "@ + event.team_id + " "@ + event.event_type
            + " | "@ + told_change("rank"@, ranks.0, ranks.1) + " | "@ + told_change(
            "score"@,
            scores.0,
            scores.1,
        ) + " | "@ + (if event.old_version is Some && event.old_version == event.new_version {
            "-"@
        } else {
            told_change("version"@, event.old_version, event.new_version)
        }),
{
}

/// A time is shown as day and minute, and as it is where it is no time; at an axis
/// the year is left out, and a moment that no time can hold is shown as its number.
pub proof fn times_are_shown_to_the_minute(
    input: Seq<char>,
    moment: i64,
    year: i32,
    month: u32,
    day: u32,
    hour: u32,
    minute: u32,
)
    requires
        0 <= year <= 9999,
    ensures
        view::timestamp_text(input, None) == input,
        view::timestamp_text(input, Some((year, month, day, hour, minute))) == text::padded(
            year as nat,
            4,
        ) + "-"@ + text::padded(month as nat, 2) + "-"@ + text::padded(day as nat, 2) + " "@
            + text::padded(hour as nat, 2) + ":"@ + text::padded(minute as nat, 2),
        view::short_timestamp_text(moment, None) == text::decimal(moment as int),
        view::short_timestamp_text(moment, Some((year, month, day, hour, minute)))
            == text::padded(month as nat, 2) + "-"@ + text::padded(day as nat, 2) + " "@
            + text::padded(hour as nat, 2) + ":"@ + text::padded(minute as nat, 2),
{
    reveal_strlit("-");
    let clock: Clock = (year, month, day, hour, minute);
    assert(view::timestamp_text(input, Some(clock)) =~= text::padded(year as nat, 4) + "-"@
        + text::padded(month as nat, 2) + "-"@ + text::padded(day as nat, 2) + " "@ + text::padded(
        hour as nat,
        2,
    ) + ":"@ + text::padded(minute as nat, 2));
    assert(view::short_timestamp_text(moment, Some(clock)) =~= text::padded(month as nat, 2) + "-"@
        + text::padded(day as nat, 2) + " "@ + text::padded(hour as nat, 2) + ":"@ + text::padded(
        minute as nat,
        2,
    ));
}

/// Whether the series is the first of that team.
pub open spec fn is_series_of(series: Seq<SeriesView>, i: int, name: Seq<char>) -> bool {
    &&& 0 <= i < series.len()
    &&& series[i].team_id == name
    &&& forall|j: int| 0 <= j < i ==> (#[trigger] series[j]).team_id != name
}

proof fn lemma_points_named(series: Seq<SeriesView>, name: Seq<char>)
    ensures
        forall|i: int| #[trigger]
            is_series_of(series, i, name) ==> view::points_named(series, name) == series[i].points,
        (forall|i: int| 0 <= i < series.len() ==> (#[trigger] series[i]).team_id != name)
            ==> view::points_named(series, name).len() == 0,
    decreases series.len(),
{
    if series.len() > 0 {
        let rest = series.drop_first();
        lemma_points_named(rest, name);
        assert(forall|j: int| 0 <= j < rest.len() ==> #[trigger] rest[j] == series[j + 1]);
        assert forall|i: int| #[trigger] is_series_of(series, i, name) implies view::points_named(
            series,
            name,
        ) == series[i].points by {
            if i > 0 {
                assert(series[0].team_id != name);
                assert forall|j: int| 0 <= j < i - 1 implies (#[trigger] rest[j]).team_id != name by {
                    assert(series[j + 1].team_id != name);
                }
                assert(is_series_of(rest, i - 1, name));
            }
        }
        if forall|i: int| 0 <= i < series.len() ==> (#[trigger] series[i]).team_id != name {
            assert(series[0].team_id != name);
            assert forall|j: int| 0 <= j < rest.len() implies (#[trigger] rest[j]).team_id != name by {
                assert(series[j + 1].team_id != name);
            }
        }
    }
}

/// The chart has a line for each compared team of which there are points, in the
/// order of the compared teams and with all its points; where there is none, there
/// is no chart.
pub proof fn chart_has_every_compared_team(a: AppView) -> (places: Seq<int>)
    ensures
        seqs::are_places(places, a.compare_teams.len()),
        view::chart_lines(a).len() == places.len(),
        forall|i: int, j: int|
            0 <= i < a.compare_teams.len() && #[trigger] is_series_of(
                a.chart_series,
                j,
                a.compare_teams[i],
            ) ==> (places.contains(i) <==> a.chart_series[j].points.len() > 0),
        forall|i: int|
            0 <= i < a.compare_teams.len() && (forall|j: int|
                0 <= j < a.chart_series.len() ==> (#[trigger] a.chart_series[j]).team_id
                    != a.compare_teams[i]) ==> !#[trigger] places.contains(i),
        forall|k: int|
            0 <= k < places.len() ==> (#[trigger] view::chart_lines(a)[k]).team_id
                == a.compare_teams[places[k]],
        forall|k: int, j: int|
            0 <= k < places.len() && #[trigger] is_series_of(
                a.chart_series,
                j,
                a.compare_teams[places[k]],
            ) ==> view::chart_lines(a)[k].points == a.chart_series[j].points,
        view::chart_of(a) is Some <==> places.len() > 0,
        view::chart_of(a) matches Some(plan) ==> plan.lines == view::chart_lines(a),
{
    let f = |name: Seq<char>| view::chart_line(a.chart_series, name);
    let places = seqs::lemma_filter_map_places(a.compare_teams, f);
    assert forall|i: int, j: int|
        0 <= i < a.compare_teams.len() && #[trigger] is_series_of(
            a.chart_series,
            j,
            a.compare_teams[i],
        ) implies (places.contains(i) <==> a.chart_series[j].points.len() > 0) by {
        lemma_points_named(a.chart_series, a.compare_teams[i]);
        assert(places.contains(i) <==> f(a.compare_teams[i]) is Some);
    }
    assert forall|i: int|
        0 <= i < a.compare_teams.len() && (forall|j: int|
            0 <= j < a.chart_series.len() ==> (#[trigger] a.chart_series[j]).team_id
                != a.compare_teams[i]) implies !#[trigger] places.contains(i) by {
        lemma_points_named(a.chart_series, a.compare_teams[i]);
        assert(places.contains(i) <==> f(a.compare_teams[i]) is Some);
    }
    assert forall|k: int| 0 <= k < places.len() implies (#[trigger] view::chart_lines(
        a,
    )[k]).team_id == a.compare_teams[places[k]] by {
        assert(f(a.compare_teams[places[k]]) == Some(view::chart_lines(a)[k]));
    }
    assert forall|k: int, j: int|
        0 <= k < places.len() && #[trigger] is_series_of(
            a.chart_series,
            j,
            a.compare_teams[places[k]],
        ) implies view::chart_lines(a)[k].points == a.chart_series[j].points by {
        lemma_points_named(a.chart_series, a.compare_teams[places[k]]);
        assert(f(a.compare_teams[places[k]]) == Some(view::chart_lines(a)[k]));
    }
    places
}

/// Whether the bounds are those of the points so far: nothing lies outside them, and
/// each is the value of a point, or the one that the chart began with.
pub open spec fn are_bounds_over(plan: PlanView, begun: PlanView, points: Seq<PointView>) -> bool {
    &&& plan.min_x <= begun.min_x && plan.max_x >= begun.max_x
    &&& !score::score_lt(begun.min_y, plan.min_y) && !score::score_lt(plan.max_y, begun.max_y)
    &&& forall|i: int|
        0 <= i < points.len() ==> {
            let point = #[trigger] points[i];
            &&& plan.min_x <= point.timestamp <= plan.max_x
            &&& !score::score_lt(point.score.bits, plan.min_y)
            &&& !score::score_lt(plan.max_y, point.score.bits)
        }
    &&& plan.min_x == begun.min_x || exists|i: int|
        0 <= i < points.len() && (#[trigger] points[i]).timestamp == plan.min_x
    &&& plan.max_x == begun.max_x || exists|i: int|
        0 <= i < points.len() && (#[trigger] points[i]).timestamp == plan.max_x
    &&& plan.min_y == begun.min_y || exists|i: int|
        0 <= i < points.len() && (#[trigger] points[i]).score.bits == plan.min_y
    &&& plan.max_y == begun.max_y || exists|i: int|
        0 <= i < points.len() && (#[trigger] points[i]).score.bits == plan.max_y
}

/// All points of the lines.
pub open spec fn points_in(lines: Seq<SeriesView>) -> Seq<PointView>
    decreases lines.len(),
{
    if lines.len() == 0 {
        Seq::empty()
    } else {
        points_in(lines.drop_last()) + lines.last().points
    }
}

/// Points make the bounds of a chart wider as far as is needed, and no further.
pub proof fn bounds_follow_the_points(plan: PlanView, points: Seq<PointView>)
    requires
        !score::is_nan(plan.min_y),
        !score::is_nan(plan.max_y),
    ensures
        are_bounds_over(view::widened(plan, points), plan, points),
        !score::is_nan(view::widened(plan, points).min_y),
        !score::is_nan(view::widened(plan, points).max_y),
    decreases points.len(),
{
    let out = view::widened(plan, points);
    if points.len() > 0 {
        let rest = points.drop_last();
        let last = points.len() - 1;
        let before = view::widened(plan, rest);
        bounds_follow_the_points(plan, rest);
        assert(forall|i: int| 0 <= i < rest.len() ==> #[trigger] rest[i] == points[i]);
        assert forall|i: int| 0 <= i < points.len() implies {
            let point = #[trigger] points[i];
            &&& out.min_x <= point.timestamp <= out.max_x
            &&& !score::score_lt(point.score.bits, out.min_y)
            &&& !score::score_lt(out.max_y, point.score.bits)
        } by {
            if i < last {
                assert(rest[i] == points[i]);
            }
        }
        lemma_bound_reached(before, out, plan, rest, points);
    }
}

proof fn lemma_bound_reached(
    before: PlanView,
    out: PlanView,
    plan: PlanView,
    rest: Seq<PointView>,
    points: Seq<PointView>,
)
    requires
        points.len() > 0,
        rest == points.drop_last(),
        are_bounds_over(before, plan, rest),
        out.min_x == before.min_x || out.min_x == points.last().timestamp,
        out.max_x == before.max_x || out.max_x == points.last().timestamp,
        out.min_y == before.min_y || out.min_y == points.last().score.bits,
        out.max_y == before.max_y || out.max_y == points.last().score.bits,
    ensures
        out.min_x == plan.min_x || exists|i: int|
            0 <= i < points.len() && (#[trigger] points[i]).timestamp == out.min_x,
        out.max_x == plan.max_x || exists|i: int|
            0 <= i < points.len() && (#[trigger] points[i]).timestamp == out.max_x,
        out.min_y == plan.min_y || exists|i: int|
            0 <= i < points.len() && (#[trigger] points[i]).score.bits == out.min_y,
        out.max_y == plan.max_y || exists|i: int|
            0 <= i < points.len() && (#[trigger] points[i]).score.bits == out.max_y,
{
    let last = points.len() - 1;
    assert(points[last] == points.last());
    if out.min_x == before.min_x && before.min_x != plan.min_x {
        let i = choose|i: int| 0 <= i < rest.len() && (#[trigger] rest[i]).timestamp == before.min_x;
        assert(points[i].timestamp == out.min_x);
    }
    if out.max_x == before.max_x && before.max_x != plan.max_x {
        let i = choose|i: int| 0 <= i < rest.len() && (#[trigger] rest[i]).timestamp == before.max_x;
        assert(points[i].timestamp == out.max_x);
    }
    if out.min_y == before.min_y && before.min_y != plan.min_y {
        let i = choose|i: int| 0 <= i < rest.len() && (#[trigger] rest[i]).score.bits == before.min_y;
        assert(points[i].score.bits == out.min_y);
    }
    if out.max_y == before.max_y && before.max_y != plan.max_y {
        let i = choose|i: int| 0 <= i < rest.len() && (#[trigger] rest[i]).score.bits == before.max_y;
        assert(points[i].score.bits == out.max_y);
    }
}

proof fn lemma_widened_add(plan: PlanView, a: Seq<PointView>, b: Seq<PointView>)
    ensures
        view::widened(plan, a + b) == view::widened(view::widened(plan, a), b),
    decreases b.len(),
{
    if b.len() == 0 {
        assert(a + b =~= a);
    } else {
        assert((a + b).drop_last() =~= a + b.drop_last());
        assert((a + b).last() == b.last());
        lemma_widened_add(plan, a, b.drop_last());
    }
}

proof fn lemma_plan(lines: Seq<SeriesView>, begun: PlanView)
    requires
        begun == view::plan_of(Seq::empty()),
    ensures
        view::plan_of(lines) == (PlanView { lines, ..view::widened(begun, points_in(lines)) }),
    decreases lines.len(),
{
    if lines.len() == 0 {
        assert(lines =~= Seq::empty());
    } else {
        let rest = lines.drop_last();
        lemma_plan(rest, begun);
        lemma_widened_add(begun, points_in(rest), lines.last().points);
        lemma_widened_of(
            view::plan_of(rest),
            view::widened(begun, points_in(rest)),
            lines.last().points,
        );
    }
}

proof fn lemma_widened_of(a: PlanView, b: PlanView, points: Seq<PointView>)
    requires
        a == (PlanView { lines: a.lines, ..b }),
    ensures
        view::widened(a, points) == (PlanView { lines: a.lines, ..view::widened(b, points) }),
    decreases points.len(),
{
    if points.len() > 0 {
        lemma_widened_of(a, b, points.drop_last());
    }
}

/// The chart reaches over all points of all its lines, and no further: in time from
/// the first to the last one, in score from the least to the greatest one, which is
/// at least zero.
pub proof fn chart_reaches_over_all_points(lines: Seq<SeriesView>)
    ensures
        ({
            let plan = view::plan_of(lines);
            are_bounds_over(
                plan,
                PlanView {
                    lines,
                    min_x: i64::MAX,
                    max_x: i64::MIN,
                    min_y: 0x7fef_ffff_ffff_ffff,
                    max_y: 0,
                },
                points_in(lines),
            )
        }),
{
    let begun = view::plan_of(Seq::empty());
    lemma_plan(lines, begun);
    bounds_follow_the_points(begun, points_in(lines));
}

/// The colours of six lines in a row are six, and then come again.
pub proof fn colours_come_round(i: int, j: int)
    requires
        0 <= i,
        0 <= j,
    ensures
        view::line_tone_of(i) == view::line_tone_of(j) <==> i % 6 == j % 6,
        view::line_tone_of(0) == Tone::Cyan,
        view::line_tone_of(1) == Tone::Yellow,
        view::line_tone_of(2) == Tone::Green,
        view::line_tone_of(3) == Tone::Magenta,
        view::line_tone_of(4) == Tone::Blue,
        view::line_tone_of(5) == Tone::LightRed,
{
}

/// The titles and the line at the bottom say what is shown.
pub proof fn titles_say_what_is_shown(a: AppView, team: Seq<char>)
    ensures
        !a.search_mode ==> view::table_title_of(a) == "Leaderboard"@,
        a.search_mode ==> view::table_title_of(a) == "Leaderboard /"@ + a.search_input,
        a.selected_team is None ==> view::events_title_of(a) == "Recent Events"@,
        a.selected_team == Some(team) ==> view::events_title_of(a) == "Events "@ + team,
        a.compare_teams.len() == 0 ==> view::chart_title_of(a)
            == "Score Chart (press Space to add teams)"@,
        a.compare_teams.len() > 0 ==> view::chart_title_of(a) == "Score Chart"@,
        view::focus_name(Focus::Table) == "Table"@,
        view::focus_name(Focus::Events) == "Events"@,
        view::focus_name(Focus::Chart) == "Chart"@,
        a.selected_team == Some(team) ==> view::status_line_of(a) == "selected="@ + team
            + " focus="@ + view::focus_name(a.focus) + " search=\""@ + a.search_input
            + "\" | / search | Space compare | Enter team events | Tab focus | r reload | q quit | "@
            + a.status,
        a.selected_team is None ==> view::status_line_of(a) == "selected="@ + "-"@ + " focus="@
            + view::focus_name(a.focus) + " search=\""@ + a.search_input
            + "\" | / search | Space compare | Enter team events | Tab focus | r reload | q quit | "@
            + a.status,
        view::border_paint(true) == (Paint { tone: Tone::Cyan, bold: false }),
        view::border_paint(false) == (Paint { tone: Tone::DarkGray, bold: false }),
{
}

}
