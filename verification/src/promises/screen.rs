//! How the screen follows keys and what is loaded.
use crate::bindings;
use crate::db::history::{self, SeriesView};
use crate::db::read::BoardRowView;
use crate::db::{self, StoreView};
use crate::text;
use crate::tui::{self, Action, AppView, Focus, Key};
use vstd::prelude::*;

verus! {

/// A screen begins empty, at the table, and is refreshed at most every second.
pub proof fn screen_begins_empty(seconds: u64)
    ensures
        ({
            let a = tui::blank(seconds);
            &&& a.leaderboard.len() == 0
            &&& a.filtered_indices.len() == 0
            &&& a.events.len() == 0
            &&& a.compare_teams.len() == 0
            &&& a.chart_series.len() == 0
            &&& a.latest_snapshot_id is None
            &&& a.selected is None
            &&& a.selected_team is None
            &&& a.focus == Focus::Table
            &&& !a.search_mode
            &&& a.search_input.len() == 0
            &&& a.status.len() == 0
            &&& a.refresh_seconds >= 1
            &&& seconds >= 1 ==> a.refresh_seconds == seconds
        }),
{
}

/// Whether the two screens are the same but for the search: its mode, its text, the
/// lines it leaves and the selection among them.
pub open spec fn differ_by_search(a: AppView, b: AppView) -> bool {
    &&& b.latest_snapshot_id == a.latest_snapshot_id
    &&& b.leaderboard == a.leaderboard
    &&& b.events == a.events
    &&& b.compare_teams == a.compare_teams
    &&& b.chart_series == a.chart_series
    &&& b.focus == a.focus
    &&& b.refresh_seconds == a.refresh_seconds
    &&& b.status == a.status
}

/// Whether the lines are those whose teams' names hold what is searched for,
/// capitals aside, each once and in the order of the leaderboard.
pub open spec fn are_lines_found(a: AppView) -> bool {
    &&& forall|j: int, k: int|
        0 <= j < k < a.filtered_indices.len() ==> #[trigger] a.filtered_indices[j]
            < #[trigger] a.filtered_indices[k]
    &&& forall|i: usize|
        i < a.leaderboard.len() ==> (#[trigger] a.filtered_indices.contains(i) <==> text::occurs(
            bindings::lowered(a.leaderboard[i as int].team_id),
            bindings::lowered(a.search_input),
        ))
}

/// Whether the selection is where it was, or on the last line where there are fewer
/// lines, and the selected team is that of its line.
pub open spec fn is_selection_kept(before: Option<usize>, a: AppView) -> bool {
    let count = a.filtered_indices.len();
    let place = match before {
        Some(place) => place,
        None => 0,
    };
    &&& count == 0 ==> a.selected is None && a.selected_team is None
    &&& count > 0 && place < count ==> a.selected == Some(place)
    &&& count > 0 && place >= count ==> (a.selected matches Some(last) && last == count - 1)
    &&& a.selected matches Some(place) ==> a.selected_team == Some(
        a.leaderboard[a.filtered_indices[place as int] as int].team_id,
    )
}

/// A search leaves the lines that it finds, and keeps the selection.
pub proof fn search_leaves_what_it_finds(a: AppView)
    requires
        a.leaderboard.len() <= usize::MAX,
    ensures
        ({
            let b = tui::refiltered(a);
            &&& differ_by_search(a, b)
            &&& b.search_mode == a.search_mode
            &&& b.search_input == a.search_input
            &&& are_lines_found(b)
            &&& is_selection_kept(a.selected, b)
        }),
{
    let b = tui::refiltered(a);
    assert forall|i: usize| i < b.leaderboard.len() implies (#[trigger] b.filtered_indices.contains(i)
        <==> text::occurs(
        bindings::lowered(b.leaderboard[i as int].team_id),
        bindings::lowered(b.search_input),
    )) by {
        tui::filtered_lines_match(a.leaderboard, a.search_input, i);
    }
    if a.leaderboard.len() > 0 {
        tui::filtered_lines_match(a.leaderboard, a.search_input, 0);
    } else {
        assert(tui::filtered(a.leaderboard, a.search_input).len() == 0) by {
            reveal(Seq::filter);
        }
    }
    if b.filtered_indices.len() > 0 {
        lemma_line_count(a.leaderboard, a.search_input);
    }
}

proof fn lemma_line_count(board: Seq<BoardRowView>, query: Seq<char>)
    ensures
        tui::filtered(board, query).len() <= board.len(),
{
    let names = board.map_values(|row: BoardRowView| bindings::lowered(row.team_id));
    let word = bindings::lowered(query);
    let places = tui::places(names.len());
    places.lemma_filter_len(|i: usize| text::occurs(names[i as int], word));
}

/// While a search is typed, a character is put behind it and the last one is taken
/// away by the backspace key; the escape key forgets the search and ends the typing,
/// the enter key ends it. Each time the search is carried out. Other keys do
/// nothing.
pub proof fn typing_changes_the_search(a: AppView, key: Key)
    requires
        a.search_mode,
        a.leaderboard.len() <= usize::MAX,
    ensures
        ({
            let (b, action) = tui::after_key(a, key);
            let typed = match key {
                Key::Char(_) | Key::Backspace | Key::Esc | Key::Enter => true,
                _ => false,
            };
            &&& differ_by_search(a, b)
            &&& typed ==> are_lines_found(b) && is_selection_kept(a.selected, b)
            &&& !typed ==> b == a && action == Action::Nothing
            &&& key matches Key::Char(c) ==> b.search_input == a.search_input.push(c)
                && b.search_mode && action == Action::Nothing
            &&& key == Key::Backspace && a.search_input.len() > 0 ==> b.search_input
                == a.search_input.drop_last() && b.search_mode && action == Action::Nothing
            &&& key == Key::Backspace && a.search_input.len() == 0 ==> b.search_input.len() == 0
                && b.search_mode && action == Action::Nothing
            &&& key == Key::Esc ==> b.search_input.len() == 0 && !b.search_mode && action
                == Action::LoadEvents
            &&& key == Key::Enter ==> b.search_input == a.search_input && !b.search_mode && action
                == Action::LoadEvents
        }),
{
    search_leaves_what_it_finds(
        AppView { search_mode: false, search_input: Seq::empty(), ..a },
    );
    search_leaves_what_it_finds(AppView { search_mode: false, ..a });
    search_leaves_what_it_finds(AppView { search_input: a.search_input.drop_last(), ..a });
    search_leaves_what_it_finds(a);
    if let Key::Char(c) = key {
        search_leaves_what_it_finds(AppView { search_input: a.search_input.push(c), ..a });
    }
}

/// Outside a search the keys for quitting, reloading and choosing do no more than
/// ask for that, a slash begins a search, and the tabulator moves the focus from the
/// table to the events, to the chart and back. Keys without a meaning do nothing.
pub proof fn keys_do_what_they_mean(a: AppView, key: Key)
    requires
        !a.search_mode,
    ensures
        ({
            let (b, action) = tui::after_key(a, key);
            &&& key == Key::Char('q') ==> b == a && action == Action::Quit
            &&& key == Key::Char('r') ==> b == a && action == Action::Reload
            &&& key == Key::Enter ==> b == a && action == Action::LoadEvents
            &&& key == Key::Esc && a.search_input.len() == 0 ==> b == a && action == Action::Nothing
            &&& key == Key::Other || key == Key::Backspace ==> b == a && action == Action::Nothing
            &&& key matches Key::Char(c) ==> (c != 'q' && c != 'r' && c != '/' && c != 'j' && c
                != 'k' && c != ' ' ==> b == a && action == Action::Nothing)
            &&& key == Key::Char('/') ==> action == Action::Nothing && b.search_mode && b.status
                == "search mode"@ && b == (AppView {
                search_mode: b.search_mode,
                status: b.status,
                ..a
            })
            &&& key == Key::Tab ==> {
                &&& action == Action::Nothing
                &&& b == (AppView { focus: b.focus, ..a })
                &&& a.focus == Focus::Table ==> b.focus == Focus::Events
                &&& a.focus == Focus::Events ==> b.focus == Focus::Chart
                &&& a.focus == Focus::Chart ==> b.focus == Focus::Table
            }
        }),
{
}

/// Outside a search the escape key forgets what was searched for.
pub proof fn escape_forgets_the_search(a: AppView)
    requires
        !a.search_mode,
        a.search_input.len() > 0,
        a.leaderboard.len() <= usize::MAX,
    ensures
        ({
            let (b, action) = tui::after_key(a, Key::Esc);
            &&& differ_by_search(a, b)
            &&& !b.search_mode
            &&& b.search_input.len() == 0
            &&& are_lines_found(b)
            &&& is_selection_kept(a.selected, b)
            &&& action == Action::LoadEvents
        }),
{
    search_leaves_what_it_finds(AppView { search_input: Seq::empty(), ..a });
}

/// The selection goes down or up by one line, but not beyond the last or the first
/// one; the selected team goes with it, and nothing else changes. Its events are
/// asked for. Without lines nothing happens.
pub proof fn selection_moves_by_one(a: AppView, place: usize)
    requires
        !a.search_mode,
        tui::consistent(a),
        a.filtered_indices.len() <= usize::MAX,
    ensures
        tui::after_key(a, Key::Char('j')) == tui::after_key(a, Key::Down),
        tui::after_key(a, Key::Char('k')) == tui::after_key(a, Key::Up),
        a.filtered_indices.len() == 0 ==> tui::after_key(a, Key::Down) == (a, Action::Nothing)
            && tui::after_key(a, Key::Up) == (a, Action::Nothing),
        a.selected == Some(place) ==> {
            let (down, after_down) = tui::after_key(a, Key::Down);
            let (up, after_up) = tui::after_key(a, Key::Up);
            let last = a.filtered_indices.len() - 1;
            &&& after_down == Action::LoadEvents
            &&& after_up == Action::LoadEvents
            &&& down == (AppView {
                selected: down.selected,
                selected_team: down.selected_team,
                ..a
            })
            &&& up == (AppView { selected: up.selected, selected_team: up.selected_team, ..a })
            &&& down.selected matches Some(next) && (place < last ==> next == place + 1) && (place
                == last ==> next == place)
            &&& up.selected matches Some(next) && (place > 0 ==> next == place - 1) && (place == 0
                ==> next == 0)
            &&& tui::consistent(down)
            &&& tui::consistent(up)
        },
{
    tui::selection_stays_on_lines(a, 1);
    tui::selection_stays_on_lines(a, -1);
}

/// The selection moves by as many lines as there are, in either direction.
pub proof fn selection_stops_at_the_ends(a: AppView, place: usize, delta: int)
    requires
        a.selected == Some(place),
        0 < a.filtered_indices.len() <= usize::MAX,
    ensures
        ({
            let b = tui::moved(a, delta);
            let last = a.filtered_indices.len() - 1;
            &&& b.selected matches Some(next) && {
                &&& place + delta < 0 ==> next == 0
                &&& place + delta > last ==> next == last
                &&& 0 <= place + delta <= last ==> next == place + delta
                &&& b.selected_team == Some(
                    a.leaderboard[a.filtered_indices[next as int] as int].team_id,
                )
            }
            &&& b == (AppView { selected: b.selected, selected_team: b.selected_team, ..a })
        }),
{
}

/// The space key adds the selected team to the compared ones, or takes it away where
/// it was there; the others stay, and their chart is asked for. Without a selected
/// team nothing happens.
pub proof fn space_compares_the_selected_team(a: AppView, team: Seq<char>, other: Seq<char>)
    requires
        !a.search_mode,
        tui::ascending(a.compare_teams),
    ensures
        a.selected_team is None ==> tui::after_key(a, Key::Char(' ')) == (a, Action::Nothing),
        a.selected_team == Some(team) ==> {
            let (b, action) = tui::after_key(a, Key::Char(' '));
            &&& action == Action::LoadChart
            &&& b == (AppView { compare_teams: b.compare_teams, ..a })
            &&& b.compare_teams.contains(team) <==> !a.compare_teams.contains(team)
            &&& other != team ==> (b.compare_teams.contains(other) <==> a.compare_teams.contains(
                other,
            ))
            &&& tui::ascending(b.compare_teams)
        },
{
    tui::toggling_keeps_order(a.compare_teams, team);
}

/// A reloaded screen has the latest number, the leaderboard, the events of the
/// selected team and the chart; what is searched for, compared and in focus stays.
pub proof fn reloading_keeps_what_was_chosen(
    a: AppView,
    s: StoreView,
    board: Seq<BoardRowView>,
    series: Seq<SeriesView>,
)
    requires
        board.len() <= usize::MAX,
    ensures
        ({
            let b = tui::reloaded(a, s, board, series);
            &&& b.latest_snapshot_id == db::meta_of(s, None).latest_snapshot_id
            &&& b.leaderboard == board
            &&& b.chart_series == series
            &&& b.events == history::at_most(
                history::shown_events(s, None, b.selected_team),
                100,
            )
            &&& b.compare_teams == a.compare_teams
            &&& b.focus == a.focus
            &&& b.search_mode == a.search_mode
            &&& b.search_input == a.search_input
            &&& b.refresh_seconds == a.refresh_seconds
            &&& are_lines_found(b)
            &&& is_selection_kept(a.selected, b)
        }),
{
    search_leaves_what_it_finds(
        AppView {
            latest_snapshot_id: db::greatest(db::snapshot_ids(s)),
            leaderboard: board,
            ..a
        },
    );
}

/// The status has the number of the snapshot, of the teams and of the compared
/// teams.
pub proof fn status_counts(a: AppView)
    ensures
        a.latest_snapshot_id matches Some(id) ==> tui::status_of(a) == "snapshot="@ + text::decimal(
            id as int,
        ) + " teams="@ + text::decimal(a.leaderboard.len() as int) + " compare="@ + text::decimal(
            a.compare_teams.len() as int,
        ),
        a.latest_snapshot_id is None ==> tui::status_of(a) == "snapshot="@ + text::decimal(0)
            + " teams="@ + text::decimal(a.leaderboard.len() as int) + " compare="@ + text::decimal(
            a.compare_teams.len() as int,
        ),
{
}

}
