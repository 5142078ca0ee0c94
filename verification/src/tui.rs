//! The terminal interface: what it shows, and how it reacts to keys.
pub mod view;

use crate::bindings::{self, lowercase};
use crate::db::history::{
    self, recent_events, team_chart_series, EventViewRow, SeriesView, ShownEventView,
    TeamSeries,
};
use crate::db::read::{self, leaderboard_state, BoardRowView, LeaderboardViewRow};
use crate::db::{self, latest_snapshot_id, Store, StoreError, StoreView};
use crate::text::{
    self, char_list, contains, integer_text, natural_text, same_text, string_of, text_before,
};
use vstd::prelude::*;
use vstd::string::*;

verus! {

/// The most events that are shown.
pub const RECENT_EVENTS_LIMIT: usize = 100;

/// The part of the screen that has the focus.
#[derive(Debug, Clone, Copy, PartialEq, Eq, Structural)]
pub enum Focus {
    Table,
    Events,
    Chart,
}

/// A key.
#[derive(Debug, Clone, Copy, PartialEq, Eq, Structural)]
pub enum Key {
    Esc,
    Enter,
    Backspace,
    Tab,
    Up,
    Down,
    Char(char),
    Other,
}

/// What is to be done after a key.
#[derive(Debug, Clone, Copy, PartialEq, Eq, Structural)]
pub enum Action {
    Nothing,
    Quit,
    /// Load the leaderboard, the events and the chart.
    Reload,
    /// Load the events of the selected team.
    LoadEvents,
    /// Load the chart of the compared teams.
    LoadChart,
}

/// What is shown.
#[derive(Debug)]
pub struct App {
    pub latest_snapshot_id: Option<i64>,
    pub leaderboard: Vec<LeaderboardViewRow>,
    /// The lines that the search leaves, by their places in the leaderboard.
    pub filtered_indices: Vec<usize>,
    pub events: Vec<EventViewRow>,
    pub selected_team: Option<String>,
    /// The compared teams, in the order of their names.
    pub compare_teams: Vec<String>,
    pub chart_series: Vec<TeamSeries>,
    pub focus: Focus,
    /// The selected line, by its place among the filtered ones.
    pub selected: Option<usize>,
    pub search_mode: bool,
    pub search_input: String,
    pub refresh_seconds: u64,
    pub status: String,
}

/// What an [`App`] holds.
#[verifier::ext_equal]
pub struct AppView {
    pub latest_snapshot_id: Option<i64>,
    pub leaderboard: Seq<BoardRowView>,
    pub filtered_indices: Seq<usize>,
    pub events: Seq<ShownEventView>,
    pub selected_team: Option<Seq<char>>,
    pub compare_teams: Seq<Seq<char>>,
    pub chart_series: Seq<SeriesView>,
    pub focus: Focus,
    pub selected: Option<usize>,
    pub search_mode: bool,
    pub search_input: Seq<char>,
    pub refresh_seconds: u64,
    pub status: Seq<char>,
}

impl DeepView for App {
    type V = AppView;

    open spec fn deep_view(&self) -> AppView {
        AppView {
            latest_snapshot_id: self.latest_snapshot_id,
            leaderboard: self.leaderboard.deep_view(),
            filtered_indices: self.filtered_indices.deep_view(),
            events: self.events.deep_view(),
            selected_team: self.selected_team.deep_view(),
            compare_teams: self.compare_teams.deep_view(),
            chart_series: self.chart_series.deep_view(),
            focus: self.focus,
            selected: self.selected,
            search_mode: self.search_mode,
            search_input: self.search_input@,
            refresh_seconds: self.refresh_seconds,
            status: self.status@,
        }
    }
}

/// Whether the names are in strictly ascending order.
pub open spec fn ascending(names: Seq<Seq<char>>) -> bool {
    forall|i: int, j: int|
        0 <= i < j < names.len() ==> text::text_less(#[trigger] names[i], #[trigger] names[j])
}

/// Whether the filtered lines are lines of the leaderboard.
pub open spec fn lines_on_board(a: AppView) -> bool {
    forall|i: int|
        0 <= i < a.filtered_indices.len() ==> #[trigger] a.filtered_indices[i] < a.leaderboard.len()
}

/// Whether the parts of the screen fit together: the filtered lines are lines of
/// the leaderboard, a line is selected exactly where there is one, the selected
/// team is that of the selected line, and the compared teams are in order.
pub open spec fn consistent(a: AppView) -> bool {
    &&& lines_on_board(a)
    &&& match a.selected {
        Some(selected) => selected < a.filtered_indices.len() && a.selected_team == Some(
            a.leaderboard[a.filtered_indices[selected as int] as int].team_id,
        ),
        None => a.filtered_indices.len() == 0 && a.selected_team is None,
    }
    &&& ascending(a.compare_teams)
}

/// Whether a line matches the search: its team's name holds what is searched for,
/// capitals aside.
pub open spec fn matches(row: BoardRowView, query: Seq<char>) -> bool {
    text::occurs(bindings::lowered(row.team_id), bindings::lowered(query))
}

/// The places from zero on.
pub open spec fn places(n: nat) -> Seq<usize> {
    Seq::new(n, |i: int| i as usize)
}

/// The lines whose names hold the query; both are in lower case already.
pub open spec fn places_holding(names: Seq<Seq<char>>, query: Seq<char>) -> Seq<usize> {
    places(names.len()).filter(|i: usize| text::occurs(names[i as int], query))
}

/// The lines that the search leaves.
pub open spec fn filtered(board: Seq<BoardRowView>, query: Seq<char>) -> Seq<usize> {
    places_holding(
        board.map_values(|row: BoardRowView| bindings::lowered(row.team_id)),
        bindings::lowered(query),
    )
}

/// The selection after the lines have changed: the same place, or the last one
/// where there are fewer.
pub open spec fn kept_selection(selected: Option<usize>, count: nat) -> Option<usize> {
    let place = match selected {
        Some(place) => place as int,
        None => 0,
    };
    if count == 0 {
        None
    } else if place < count {
        Some(place as usize)
    } else {
        Some((count - 1) as usize)
    }
}

/// The team of the selected line.
pub open spec fn team_selected(
    board: Seq<BoardRowView>,
    lines: Seq<usize>,
    selected: Option<usize>,
) -> Option<Seq<char>> {
    match selected {
        Some(place) => Some(board[lines[place as int] as int].team_id),
        None => None,
    }
}

/// The screen after the search was carried out anew.
pub open spec fn refiltered(a: AppView) -> AppView {
    let lines = filtered(a.leaderboard, a.search_input);
    let selected = kept_selection(a.selected, lines.len());
    AppView {
        filtered_indices: lines,
        selected,
        selected_team: team_selected(a.leaderboard, lines, selected),
        ..a
    }
}

/// The screen with another leaderboard.
pub open spec fn with_state(a: AppView, latest: Option<i64>, board: Seq<BoardRowView>) -> AppView {
    refiltered(AppView { latest_snapshot_id: latest, leaderboard: board, ..a })
}

/// The line about what is shown.
pub open spec fn status_of(a: AppView) -> Seq<char> {
    "snapshot="@ + text::decimal(
        match a.latest_snapshot_id {
            Some(id) => id as int,
            None => 0,
        },
    ) + " teams="@ + text::decimal(a.leaderboard.len() as int) + " compare="@ + text::decimal(
        a.compare_teams.len() as int,
    )
}

/// Whether a name is another one.
pub open spec fn is_other(name: Seq<char>) -> spec_fn(Seq<char>) -> bool {
    |n: Seq<char>| n != name
}

/// Whether a name comes before the given one.
pub open spec fn is_before(name: Seq<char>) -> spec_fn(Seq<char>) -> bool {
    |n: Seq<char>| text::text_less(n, name)
}

/// Whether a name comes behind the given one.
pub open spec fn is_behind(name: Seq<char>) -> spec_fn(Seq<char>) -> bool {
    |n: Seq<char>| text::text_less(name, n)
}

/// The names with one more, or one less where it was there.
pub open spec fn toggled(names: Seq<Seq<char>>, name: Seq<char>) -> Seq<Seq<char>> {
    if names.contains(name) {
        names.filter(is_other(name))
    } else {
        names.filter(is_before(name)) + seq![name] + names.filter(is_behind(name))
    }
}

/// The next part of the screen.
pub open spec fn next_focus(focus: Focus) -> Focus {
    match focus {
        Focus::Table => Focus::Events,
        Focus::Events => Focus::Chart,
        Focus::Chart => Focus::Table,
    }
}

/// The screen after the selection has moved by `delta` lines, as far as there are
/// lines.
pub open spec fn moved(a: AppView, delta: int) -> AppView {
    if a.filtered_indices.len() == 0 {
        a
    } else {
        let current = match a.selected {
            Some(place) => place as int,
            None => 0,
        };
        let last = a.filtered_indices.len() - 1;
        let next = if current + delta < 0 {
            0
        } else if current + delta > last {
            last
        } else {
            current + delta
        };
        AppView {
            selected: Some(next as usize),
            selected_team: team_selected(a.leaderboard, a.filtered_indices, Some(next as usize)),
            ..a
        }
    }
}

/// The screen after the selected team was added to the compared ones or taken
/// from them.
pub open spec fn compared(a: AppView) -> AppView {
    match a.selected_team {
        Some(team) => AppView { compare_teams: toggled(a.compare_teams, team), ..a },
        None => a,
    }
}

/// The screen after a key while a search is typed, and what is to be done.
pub open spec fn after_search_key(a: AppView, key: Key) -> (AppView, Action) {
    match key {
        Key::Esc => (
            refiltered(AppView { search_mode: false, search_input: Seq::empty(), ..a }),
            Action::LoadEvents,
        ),
        Key::Enter => (refiltered(AppView { search_mode: false, ..a }), Action::LoadEvents),
        Key::Backspace => (
            refiltered(
                AppView {
                    search_input: if a.search_input.len() > 0 {
                        a.search_input.drop_last()
                    } else {
                        a.search_input
                    },
                    ..a
                },
            ),
            Action::Nothing,
        ),
        Key::Char(c) => (
            refiltered(AppView { search_input: a.search_input.push(c), ..a }),
            Action::Nothing,
        ),
        _ => (a, Action::Nothing),
    }
}

/// The screen after a key, and what is to be done.
pub open spec fn after_key(a: AppView, key: Key) -> (AppView, Action) {
    if a.search_mode {
        after_search_key(a, key)
    } else {
        match key {
            Key::Char('q') => (a, Action::Quit),
            Key::Char('r') => (a, Action::Reload),
            Key::Esc => if a.search_input.len() > 0 {
                (refiltered(AppView { search_input: Seq::empty(), ..a }), Action::LoadEvents)
            } else {
                (a, Action::Nothing)
            },
            Key::Char('/') => (
                AppView { search_mode: true, status: "search mode"@, ..a },
                Action::Nothing,
            ),
            Key::Tab => (AppView { focus: next_focus(a.focus), ..a }, Action::Nothing),
            Key::Down | Key::Char('j') => (
                moved(a, 1),
                if a.filtered_indices.len() > 0 {
                    Action::LoadEvents
                } else {
                    Action::Nothing
                },
            ),
            Key::Up | Key::Char('k') => (
                moved(a, -1),
                if a.filtered_indices.len() > 0 {
                    Action::LoadEvents
                } else {
                    Action::Nothing
                },
            ),
            Key::Enter => (a, Action::LoadEvents),
            Key::Char(' ') => (
                compared(a),
                if a.selected_team is Some {
                    Action::LoadChart
                } else {
                    Action::Nothing
                },
            ),
            _ => (a, Action::Nothing),
        }
    }
}

/// The lines whose names hold the query; both are in lower case already.
pub fn holding_places(names: &Vec<String>, query: &str) -> (lines: Vec<usize>)
    ensures
        lines@ == places_holding(names.deep_view(), query@),
{
    let ghost all = names.deep_view();
    let ghost holds = |i: usize| text::occurs(all[i as int], query@);
    let ghost range = places(all.len());
    let mut lines: Vec<usize> = Vec::new();
    let mut i: usize = 0;
    assert(range.take(0).filter(holds) =~= Seq::<usize>::empty()) by {
        reveal(Seq::filter);
    }
    while i < names.len()
        invariant
            i <= names@.len(),
            all == names.deep_view(),
            range == places(all.len()),
            holds == (|i: usize| text::occurs(all[i as int], query@)),
            lines@ == range.take(i as int).filter(holds),
        decreases names@.len() - i,
    {
        proof {
            assert(all[i as int] == names@[i as int]@);
            range.take(i as int).lemma_filter_push(i, holds);
            assert(range.take(i as int).push(i) =~= range.take(i + 1));
        }
        if contains(names[i].as_str(), query) {
            lines.push(i);
        }
        i += 1;
    }
    assert(range.take(i as int) =~= range);
    lines
}

/// The lines of the leaderboard that the search leaves.
pub fn filter_lines(board: &Vec<LeaderboardViewRow>, query: &str) -> (lines: Vec<usize>)
    ensures
        lines@ == filtered(board.deep_view(), query@),
{
    let ghost all = board.deep_view();
    let ghost want = all.map_values(|row: BoardRowView| bindings::lowered(row.team_id));
    let mut names: Vec<String> = Vec::new();
    let mut i: usize = 0;
    assert(names.deep_view() =~= want.take(0));
    while i < board.len()
        invariant
            i <= board@.len(),
            all == board.deep_view(),
            want == all.map_values(|row: BoardRowView| bindings::lowered(row.team_id)),
            names.deep_view() == want.take(i as int),
        decreases board@.len() - i,
    {
        let ghost before = names.deep_view();
        let name = lowercase(board[i].team_id.as_str());
        let ghost view = name@;
        names.push(name);
        proof {
            assert(all[i as int] == board@[i as int].deep_view());
            assert(names.deep_view() =~= before.push(view));
            assert(want.take(i + 1) =~= want.take(i as int).push(view));
        }
        i += 1;
    }
    assert(want.take(i as int) =~= want);
    holding_places(&names, lowercase(query).as_str())
}

proof fn lemma_places_held(names: Seq<Seq<char>>, query: Seq<char>, n: int)
    requires
        0 <= n <= names.len(),
    ensures
        ({
            let holds = |i: usize| text::occurs(names[i as int], query);
            let lines = places(names.len()).take(n).filter(holds);
            forall|i: int| 0 <= i < lines.len() ==> #[trigger] lines[i] < n
        }),
    decreases n,
{
    let holds = |i: usize| text::occurs(names[i as int], query);
    let range = places(names.len());
    let lines = range.take(n).filter(holds);
    if n == 0 {
        reveal(Seq::filter);
        assert(range.take(0) =~= Seq::<usize>::empty());
    } else {
        lemma_places_held(names, query, n - 1);
        let before = range.take(n - 1).filter(holds);
        range.take(n - 1).lemma_filter_push(range[n - 1], holds);
        assert(range.take(n - 1).push(range[n - 1]) =~= range.take(n));
        assert forall|i: int| 0 <= i < lines.len() implies #[trigger] lines[i] < n by {
            if i < before.len() {
                assert(lines[i] == before[i]);
            }
        }
    }
}

proof fn lemma_refiltered_consistent(a: AppView)
    requires
        ascending(a.compare_teams),
        a.leaderboard.len() <= usize::MAX,
    ensures
        consistent(refiltered(a)),
{
    let names = a.leaderboard.map_values(|row: BoardRowView| bindings::lowered(row.team_id));
    let query = bindings::lowered(a.search_input);
    lemma_places_held(names, query, names.len() as int);
    assert(places(names.len()).take(names.len() as int) =~= places(names.len()));
}

fn toggle(names: &Vec<String>, name: &str) -> (out: Vec<String>)
    ensures
        out.deep_view() == toggled(names.deep_view(), name@),
{
    if history::has_name(names, name) {
        let other = |n: &str| -> (kept: bool)
            ensures
                kept == is_other(name@)(n@),
        { !same_text(n, name) };
        names_that(names, other, Ghost(is_other(name@)))
    } else {
        let before = |n: &str| -> (kept: bool)
            ensures
                kept == is_before(name@)(n@),
        { text_before(n, name) };
        let mut out = names_that(names, before, Ghost(is_before(name@)));
        let ghost head = out.deep_view();
        let own = name.to_owned();
        out.push(own);
        let ghost middle = out.deep_view();
        assert(middle =~= head + seq![name@]);
        let behind = |n: &str| -> (kept: bool)
            ensures
                kept == is_behind(name@)(n@),
        { text_before(name, n) };
        let mut tail = names_that(names, behind, Ghost(is_behind(name@)));
        let ghost end = tail.deep_view();
        out.append(&mut tail);
        assert(out.deep_view() =~= head + seq![name@] + end);
        out
    }
}

/// The names that pass the test, in order.
fn names_that<F: Fn(&str) -> bool>(
    names: &Vec<String>,
    keep: F,
    Ghost(test): Ghost<spec_fn(Seq<char>) -> bool>,
) -> (out: Vec<String>)
    requires
        forall|n: &str| call_requires(keep, (n,)),
        forall|n: &str, kept: bool| call_ensures(keep, (n,), kept) ==> kept == test(n@),
    ensures
        out.deep_view() == names.deep_view().filter(test),
{
    let ghost all = names.deep_view();
    let mut out: Vec<String> = Vec::new();
    let mut i: usize = 0;
    proof {
        reveal(Seq::filter);
        assert(all.take(0).filter(test) =~= Seq::<Seq<char>>::empty());
        assert(out.deep_view() =~= Seq::<Seq<char>>::empty());
    }
    while i < names.len()
        invariant
            i <= names@.len(),
            all == names.deep_view(),
            forall|n: &str| call_requires(keep, (n,)),
            forall|n: &str, kept: bool| call_ensures(keep, (n,), kept) ==> kept == test(n@),
            out.deep_view() == all.take(i as int).filter(test),
        decreases names@.len() - i,
    {
        let ghost before = out.deep_view();
        proof {
            assert(all[i as int] == names@[i as int]@);
            all.take(i as int).lemma_filter_push(all[i as int], test);
            assert(all.take(i as int).push(all[i as int]) =~= all.take(i + 1));
        }
        if keep(names[i].as_str()) {
            out.push(names[i].clone());
            assert(out.deep_view() =~= before.push(all[i as int]));
        }
        i += 1;
    }
    assert(all.take(i as int) =~= all);
    out
}

/// In an ascending list the names up to one are before it, and those behind it
/// are after it.
proof fn lemma_ascending_parts(names: Seq<Seq<char>>, name: Seq<char>, k: int)
    requires
        ascending(names),
        0 <= k <= names.len(),
        forall|i: int| 0 <= i < k ==> text::text_less(#[trigger] names[i], name),
        forall|i: int| k <= i < names.len() ==> !text::text_less(#[trigger] names[i], name),
    ensures
        names.filter(is_before(name)) == names.take(k),
        names.filter(is_behind(name)) == names.skip(
            if k < names.len() && names[k] == name {
                k + 1
            } else {
                k
            },
        ),
        names.filter(is_other(name)) == names.take(k) + names.skip(
            if k < names.len() && names[k] == name {
                k + 1
            } else {
                k
            },
        ),
        names.contains(name) <==> k < names.len() && names[k] == name,
{
    let j = if k < names.len() && names[k] == name {
        k + 1
    } else {
        k
    };
    let less = is_before(name);
    let more = is_behind(name);
    let other = is_other(name);
    assert forall|i: int| 0 <= i < names.len() implies {
        &&& less(#[trigger] names[i]) <==> i < k
        &&& more(names[i]) <==> i >= j
        &&& other(names[i]) <==> i < k || i >= j
    } by {
        text::text_order_is_total(names[i], name);
        if i > k {
            assert(text::text_less(names[k], names[i]));
            if names[i] == name {
                assert(!text::text_less(names[k], name));
            }
        }
    }
    lemma_filter_outside(names, less, k, names.len() as int);
    lemma_filter_outside(names, more, 0, j);
    lemma_filter_outside(names, other, k, j);
    assert(names.take(k) + names.skip(names.len() as int) =~= names.take(k));
    assert(names.take(0) + names.skip(j) =~= names.skip(j));
    if names.contains(name) {
        let i = choose|i: int| 0 <= i < names.len() && names[i] == name;
        assert(!other(names[i]));
    }
}

proof fn lemma_filter_outside<A>(items: Seq<A>, keep: spec_fn(A) -> bool, from: int, to: int)
    requires
        0 <= from <= to <= items.len(),
        forall|i: int| 0 <= i < items.len() ==> (keep(#[trigger] items[i]) <==> i < from || i >= to),
    ensures
        items.filter(keep) == items.take(from) + items.skip(to),
    decreases items.len(),
{
    reveal(Seq::filter);
    if items.len() == 0 {
        assert(items.take(from) + items.skip(to) =~= items.filter(keep));
    } else {
        let rest = items.drop_last();
        let last = items.len() - 1;
        let f = if from <= last {
            from
        } else {
            last
        };
        let t = if to <= last {
            to
        } else {
            last
        };
        assert forall|i: int| 0 <= i < rest.len() implies (keep(#[trigger] rest[i]) <==> i < f || i
            >= t) by {
            assert(rest[i] == items[i]);
        }
        lemma_filter_outside(rest, keep, f, t);
        assert(keep(items[last]) <==> last < from || last >= to);
        assert(items.filter(keep) =~= items.take(from) + items.skip(to));
    }
}

/// The place of a name in an ascending list.
proof fn lemma_place_of(names: Seq<Seq<char>>, name: Seq<char>) -> (k: int)
    requires
        ascending(names),
    ensures
        0 <= k <= names.len(),
        forall|i: int| 0 <= i < k ==> text::text_less(#[trigger] names[i], name),
        forall|i: int| k <= i < names.len() ==> !text::text_less(#[trigger] names[i], name),
    decreases names.len(),
{
    if names.len() == 0 {
        0
    } else {
        let last = names.len() - 1;
        if text::text_less(names[last], name) {
            assert forall|i: int| 0 <= i < names.len() implies text::text_less(
                #[trigger] names[i],
                name,
            ) by {
                if i < last {
                    text::text_order_is_transitive(names[i], names[last], name);
                }
            }
            names.len() as int
        } else {
            let rest = names.drop_last();
            assert forall|i: int, j: int| 0 <= i < j < rest.len() implies text::text_less(
                #[trigger] rest[i],
                #[trigger] rest[j],
            ) by {
                assert(text::text_less(names[i], names[j]));
            }
            let k = lemma_place_of(rest, name);
            assert forall|i: int| 0 <= i < k implies text::text_less(#[trigger] names[i], name) by {
                assert(rest[i] == names[i]);
            }
            assert forall|i: int| k <= i < names.len() implies !text::text_less(
                #[trigger] names[i],
                name,
            ) by {
                if i < last {
                    assert(rest[i] == names[i]);
                }
            }
            k
        }
    }
}

/// The compared teams stay in order.
pub proof fn toggling_keeps_order(names: Seq<Seq<char>>, name: Seq<char>)
    requires
        ascending(names),
    ensures
        ascending(toggled(names, name)),
        forall|n: Seq<char>|
            n != name ==> (#[trigger] toggled(names, name).contains(n) <==> names.contains(n)),
        toggled(names, name).contains(name) <==> !names.contains(name),
{
    let k = lemma_place_of(names, name);
    lemma_ascending_parts(names, name, k);
    let out = toggled(names, name);
    if names.contains(name) {
        assert(out == names.take(k) + names.skip(k + 1));
        assert forall|i: int, j: int| 0 <= i < j < out.len() implies text::text_less(
            #[trigger] out[i],
            #[trigger] out[j],
        ) by {
            let a = if i < k {
                i
            } else {
                i + 1
            };
            let b = if j < k {
                j
            } else {
                j + 1
            };
            assert(text::text_less(names[a], names[b]));
        }
        assert forall|n: Seq<char>| n != name implies (#[trigger] out.contains(n)
            <==> names.contains(n)) by {
            if names.contains(n) {
                let i = choose|i: int| 0 <= i < names.len() && names[i] == n;
                if i < k {
                    assert(out[i] == n);
                } else {
                    assert(out[i - 1] == n);
                }
            }
            if out.contains(n) {
                let i = choose|i: int| 0 <= i < out.len() && out[i] == n;
                if i < k {
                    assert(names[i] == n);
                } else {
                    assert(names[i + 1] == n);
                }
            }
        }
        if out.contains(name) {
            let i = choose|i: int| 0 <= i < out.len() && out[i] == name;
            text::text_order_is_total(name, name);
            if i < k {
                assert(text::text_less(names[i], name));
            } else {
                assert(text::text_less(names[k], names[i + 1]));
            }
        }
    } else {
        assert(out == names.take(k) + seq![name] + names.skip(k));
        assert forall|i: int, j: int| 0 <= i < j < out.len() implies text::text_less(
            #[trigger] out[i],
            #[trigger] out[j],
        ) by {
            if i < k && j == k {
                assert(text::text_less(names[i], name));
            } else if i < k && j > k {
                assert(text::text_less(names[i], names[j - 1]));
            } else if i < k {
                assert(text::text_less(names[i], names[j]));
            } else if i == k {
                assert(!text::text_less(names[j - 1], name));
                text::text_order_is_total(names[j - 1], name);
                assert(names.contains(names[j - 1]));
            } else {
                assert(text::text_less(names[i - 1], names[j - 1]));
            }
        }
        assert forall|n: Seq<char>| n != name implies (#[trigger] out.contains(n)
            <==> names.contains(n)) by {
            if names.contains(n) {
                let i = choose|i: int| 0 <= i < names.len() && names[i] == n;
                if i < k {
                    assert(out[i] == n);
                } else {
                    assert(out[i + 1] == n);
                }
            }
            if out.contains(n) {
                let i = choose|i: int| 0 <= i < out.len() && out[i] == n;
                if i < k {
                    assert(names[i] == n);
                } else if i > k {
                    assert(names[i - 1] == n);
                }
            }
        }
        assert(out[k] == name);
    }
}

/// Adding a team to the compared ones and taking it away again, or the other way
/// round, changes nothing.
pub proof fn toggling_twice_changes_nothing(names: Seq<Seq<char>>, name: Seq<char>)
    requires
        ascending(names),
    ensures
        toggled(toggled(names, name), name) == names,
{
    let k = lemma_place_of(names, name);
    let out = toggled(names, name);
    lemma_toggled(names, name, k);
    toggling_keeps_order(names, name);
    text::text_order_is_total(name, name);
    assert forall|i: int| 0 <= i < out.len() implies (text::text_less(#[trigger] out[i], name)
        <==> i < k) by {
        if i < k {
            assert(out[i] == names[i]);
        } else if names.contains(name) {
            assert(out[i] == names[i + 1]);
        } else if i > k {
            assert(out[i] == names[i - 1]);
        }
    }
    lemma_toggled(out, name, k);
    assert(toggled(out, name) =~= names);
}

proof fn lemma_toggled(names: Seq<Seq<char>>, name: Seq<char>, k: int)
    requires
        ascending(names),
        0 <= k <= names.len(),
        forall|i: int| 0 <= i < k ==> text::text_less(#[trigger] names[i], name),
        forall|i: int| k <= i < names.len() ==> !text::text_less(#[trigger] names[i], name),
    ensures
        names.contains(name) <==> k < names.len() && names[k] == name,
        toggled(names, name) == if names.contains(name) {
            names.take(k) + names.skip(k + 1)
        } else {
            names.take(k) + seq![name] + names.skip(k)
        },
{
    lemma_ascending_parts(names, name, k);
}

/// The screen where nothing has been loaded yet.
pub open spec fn blank(refresh_seconds: u64) -> AppView {
    AppView {
        latest_snapshot_id: None,
        leaderboard: Seq::empty(),
        filtered_indices: Seq::empty(),
        events: Seq::empty(),
        selected_team: None,
        compare_teams: Seq::empty(),
        chart_series: Seq::empty(),
        focus: Focus::Table,
        selected: None,
        search_mode: false,
        search_input: Seq::empty(),
        refresh_seconds: if refresh_seconds == 0 {
            1
        } else {
            refresh_seconds
        },
        status: Seq::empty(),
    }
}

/// The screen after the leaderboard and the events were loaded.
pub open spec fn with_events(a: AppView, s: StoreView, board: Seq<BoardRowView>) -> AppView {
    let b = with_state(a, db::greatest(db::snapshot_ids(s)), board);
    AppView {
        events: history::at_most(
            history::shown_events(s, None, b.selected_team),
            RECENT_EVENTS_LIMIT as nat,
        ),
        ..b
    }
}

/// The screen after the history was loaded: `board` is the leaderboard, `series`
/// the chart of the compared teams.
pub open spec fn reloaded(
    a: AppView,
    s: StoreView,
    board: Seq<BoardRowView>,
    series: Seq<SeriesView>,
) -> AppView {
    let b = with_events(a, s, board);
    AppView { chart_series: series, status: status_of(b), ..b }
}

impl App {
    /// A screen where nothing has been loaded yet. It is refreshed after that many
    /// seconds, but not more often than every second.
    pub fn new(refresh_seconds: u64) -> (app: Self)
        ensures
            app.deep_view() == blank(refresh_seconds),
            consistent(app.deep_view()),
    {
        let app = App {
            latest_snapshot_id: None,
            leaderboard: Vec::new(),
            filtered_indices: Vec::new(),
            events: Vec::new(),
            selected_team: None,
            compare_teams: Vec::new(),
            chart_series: Vec::new(),
            focus: Focus::Table,
            selected: None,
            search_mode: false,
            search_input: String::new(),
            refresh_seconds: if refresh_seconds == 0 {
                1
            } else {
                refresh_seconds
            },
            status: String::new(),
        };
        assert(app.deep_view() =~~= blank(refresh_seconds));
        app
    }

    /// Whether it is time for a refresh.
    pub fn is_due(&self, elapsed_millis: u64) -> (due: bool)
        ensures
            due == (elapsed_millis >= self.refresh_seconds * 1000),
    {
        elapsed_millis / 1000 >= self.refresh_seconds
    }

    /// Whether something has to be loaded, given the number of the latest
    /// snapshot.
    pub fn needs_reload(&self, force: bool, current_snapshot_id: Option<i64>) -> (needed: bool)
        ensures
            needed == (force || current_snapshot_id != self.latest_snapshot_id),
    {
        force || match (current_snapshot_id, self.latest_snapshot_id) {
            (Some(current), Some(known)) => current != known,
            (None, None) => false,
            _ => true,
        }
    }

    /// Carries the search out anew.
    pub fn apply_filter(&mut self)
        requires
            ascending(old(self).deep_view().compare_teams),
        ensures
            final(self).deep_view() == refiltered(old(self).deep_view()),
            consistent(final(self).deep_view()),
    {
        let ghost a = self.deep_view();
        proof {
            assert(a.leaderboard.len() == self.leaderboard.len());
            lemma_refiltered_consistent(a);
        }
        let lines = filter_lines(&self.leaderboard, self.search_input.as_str());
        let count: usize = lines.len();
        let place: usize = match self.selected {
            Some(place) => place,
            None => 0,
        };
        proof {
            assert(lines.deep_view() =~= lines@);
        }
        self.filtered_indices = lines;
        if count == 0 {
            self.selected = None;
            self.selected_team = None;
        } else {
            let kept: usize = if place < count {
                place
            } else {
                count - 1
            };
            self.selected = Some(kept);
            assert(refiltered(a).filtered_indices[kept as int] < a.leaderboard.len());
            self.sync_selected_team();
        }
        assert(self.deep_view() =~~= refiltered(a));
    }

    /// Makes the team of the selected line the selected team.
    pub fn sync_selected_team(&mut self)
        requires
            lines_on_board(old(self).deep_view()),
        ensures
            final(self).deep_view() == (match old(self).deep_view().selected {
                Some(place) if place < old(self).deep_view().filtered_indices.len() => AppView {
                    selected_team: team_selected(
                        old(self).deep_view().leaderboard,
                        old(self).deep_view().filtered_indices,
                        Some(place),
                    ),
                    ..old(self).deep_view()
                },
                _ => old(self).deep_view(),
            }),
    {
        if let Some(place) = self.selected {
            if place < self.filtered_indices.len() {
                let line: usize = self.filtered_indices[place];
                assert(self.deep_view().filtered_indices[place as int] == line);
                assert(self.deep_view().leaderboard[line as int]
                    == self.leaderboard@[line as int].deep_view());
                self.selected_team = Some(self.leaderboard[line].team_id.clone());
            }
        }
    }

    /// Moves the selection by `delta` lines, as far as there are lines.
    pub fn move_selection(&mut self, delta: isize)
        requires
            consistent(old(self).deep_view()),
        ensures
            final(self).deep_view() == moved(old(self).deep_view(), delta as int),
            consistent(final(self).deep_view()),
    {
        let ghost a = self.deep_view();
        let count: usize = self.filtered_indices.len();
        if count == 0 {
            return;
        }
        let current: usize = match self.selected {
            Some(place) => place,
            None => 0,
        };
        let wanted: i128 = current as i128 + delta as i128;
        let next: usize = if wanted < 0 {
            0
        } else if wanted > (count - 1) as i128 {
            count - 1
        } else {
            wanted as usize
        };
        self.selected = Some(next);
        assert(a.filtered_indices[next as int] < a.leaderboard.len());
        self.sync_selected_team();
        assert(self.deep_view() =~~= moved(a, delta as int));
    }

    /// Adds the selected team to the compared ones, or takes it from them.
    pub fn toggle_compare(&mut self)
        requires
            consistent(old(self).deep_view()),
        ensures
            final(self).deep_view() == compared(old(self).deep_view()),
            consistent(final(self).deep_view()),
    {
        let ghost a = self.deep_view();
        if let Some(team) = &self.selected_team {
            proof {
                toggling_keeps_order(a.compare_teams, team@);
            }
            let names = toggle(&self.compare_teams, team.as_str());
            self.compare_teams = names;
        }
        assert(self.deep_view() =~~= compared(a));
    }

    /// Moves the focus on.
    pub fn cycle_focus(&mut self)
        ensures
            final(self).deep_view() == (AppView {
                focus: next_focus(old(self).deep_view().focus),
                ..old(self).deep_view()
            }),
    {
        self.focus = match self.focus {
            Focus::Table => Focus::Events,
            Focus::Events => Focus::Chart,
            Focus::Chart => Focus::Table,
        };
    }

    /// Takes over a leaderboard that was loaded.
    pub fn take_state(&mut self, latest: Option<i64>, leaderboard: Vec<LeaderboardViewRow>)
        requires
            consistent(old(self).deep_view()),
        ensures
            final(self).deep_view() == with_state(
                old(self).deep_view(),
                latest,
                leaderboard.deep_view(),
            ),
            consistent(final(self).deep_view()),
    {
        self.latest_snapshot_id = latest;
        self.leaderboard = leaderboard;
        self.apply_filter();
    }

    /// Says what is shown.
    pub fn update_status(&mut self)
        ensures
            final(self).deep_view() == (AppView {
                status: status_of(old(self).deep_view()),
                ..old(self).deep_view()
            }),
    {
        let mut status = "snapshot=".to_owned();
        let id: i64 = match self.latest_snapshot_id {
            Some(id) => id,
            None => 0,
        };
        status.append(integer_text(id).as_str());
        status.append(" teams=");
        status.append(natural_text(self.leaderboard.len() as u64).as_str());
        status.append(" compare=");
        status.append(natural_text(self.compare_teams.len() as u64).as_str());
        self.status = status;
    }

    /// Loads the newest events of the selected team from the history.
    pub fn reload_events(&mut self, store: &Store)
        ensures
            final(self).deep_view() == (AppView {
                events: history::at_most(
                    history::shown_events(
                        store.deep_view(),
                        None,
                        old(self).deep_view().selected_team,
                    ),
                    RECENT_EVENTS_LIMIT as nat,
                ),
                ..old(self).deep_view()
            }),
    {
        let team: Option<&str> = match &self.selected_team {
            Some(team) => Some(team.as_str()),
            None => None,
        };
        let events = recent_events(store, None, team, RECENT_EVENTS_LIMIT);
        self.events = events;
    }

    /// Loads the chart of the compared teams from the history.
    pub fn reload_chart_series(&mut self, store: &Store) -> (result: Result<(), StoreError>)
        ensures
            match (
                result,
                history::series_of(
                    store.deep_view(),
                    history::distinct(old(self).deep_view().compare_teams),
                    None,
                ),
            ) {
                (Ok(()), Ok(series)) => final(self).deep_view() == (AppView {
                    chart_series: series,
                    ..old(self).deep_view()
                }),
                (Err(e), Err(expected)) => e == expected && *final(self) == *old(self),
                _ => false,
            },
    {
        match team_chart_series(store, &self.compare_teams, None) {
            Ok(series) => {
                self.chart_series = series;
                Ok(())
            },
            Err(e) => Err(e),
        }
    }

    /// Loads everything from the history, where it has a snapshot that is not
    /// shown yet or where that is asked for. Tells whether anything was loaded.
    pub fn reload(&mut self, store: &Store, force: bool) -> (result: Result<bool, StoreError>)
        requires
            consistent(old(self).deep_view()),
        ensures
            consistent(final(self).deep_view()),
            ({
                let a = old(self).deep_view();
                let s = store.deep_view();
                let needed = force || db::greatest(db::snapshot_ids(s)) != a.latest_snapshot_id;
                match result {
                    Ok(true) => needed && exists|board: Seq<BoardRowView>, series: Seq<SeriesView>|
                        {
                            &&& read::is_leaderboard(s, None, board)
                            &&& history::series_of(s, history::distinct(a.compare_teams), None)
                                == Ok::<Seq<SeriesView>, StoreError>(series)
                            &&& final(self).deep_view() == #[trigger] reloaded(a, s, board, series)
                        },
                    Ok(false) => !needed && *final(self) == *old(self),
                    Err(e) => needed && if read::board_complete(s, None) {
                        &&& history::series_of(s, history::distinct(a.compare_teams), None)
                            == Err::<Seq<SeriesView>, StoreError>(e)
                        &&& exists|board: Seq<BoardRowView>|
                            read::is_leaderboard(s, None, board) && final(self).deep_view()
                                == #[trigger] with_events(a, s, board)
                    } else {
                        &&& e == StoreError::MissingValue
                        &&& final(self).deep_view() == (AppView {
                            latest_snapshot_id: db::greatest(db::snapshot_ids(s)),
                            ..a
                        })
                    },
                }
            }),
    {
        let ghost a = self.deep_view();
        let ghost s = store.deep_view();
        let current = latest_snapshot_id(store);
        if !self.needs_reload(force, current) {
            return Ok(false);
        }
        let board = match leaderboard_state(store, None) {
            Ok(state) => state.leaderboard,
            Err(e) => {
                self.latest_snapshot_id = current;
                return Err(e);
            },
        };
        let ghost rows = board.deep_view();
        self.take_state(current, board);
        self.reload_events(store);
        assert(self.deep_view() =~~= with_events(a, s, rows));
        if let Err(e) = self.reload_chart_series(store) {
            return Err(e);
        }
        self.update_status();
        proof {
            let series = self.deep_view().chart_series;
            assert(self.deep_view() =~~= reloaded(a, s, rows, series));
        }
        Ok(true)
    }

    /// Reacts to a key, and tells what is to be done.
    pub fn on_key(&mut self, key: Key) -> (action: Action)
        requires
            consistent(old(self).deep_view()),
        ensures
            (final(self).deep_view(), action) == after_key(old(self).deep_view(), key),
            consistent(final(self).deep_view()),
    {
        let ghost a = self.deep_view();
        if self.search_mode {
            return self.on_search_key(key);
        }
        match key {
            Key::Char('q') => Action::Quit,
            Key::Char('r') => Action::Reload,
            Key::Esc => {
                if self.is_searching() {
                    self.search_input = String::new();
                    assert(self.deep_view() =~~= (AppView { search_input: Seq::empty(), ..a }));
                    self.apply_filter();
                    Action::LoadEvents
                } else {
                    Action::Nothing
                }
            },
            Key::Char('/') => {
                self.search_mode = true;
                self.status = "search mode".to_owned();
                Action::Nothing
            },
            Key::Tab => {
                self.cycle_focus();
                Action::Nothing
            },
            Key::Down | Key::Char('j') => {
                let any = self.filtered_indices.len() > 0;
                self.move_selection(1);
                if any {
                    Action::LoadEvents
                } else {
                    Action::Nothing
                }
            },
            Key::Up | Key::Char('k') => {
                let any = self.filtered_indices.len() > 0;
                self.move_selection(-1);
                if any {
                    Action::LoadEvents
                } else {
                    Action::Nothing
                }
            },
            Key::Enter => Action::LoadEvents,
            Key::Char(' ') => {
                let any = self.selected_team.is_some();
                self.toggle_compare();
                if any {
                    Action::LoadChart
                } else {
                    Action::Nothing
                }
            },
            _ => Action::Nothing,
        }
    }

    fn is_searching(&self) -> (searching: bool)
        ensures
            searching == (self.search_input@.len() > 0),
    {
        char_list(self.search_input.as_str()).len() > 0
    }

    fn on_search_key(&mut self, key: Key) -> (action: Action)
        requires
            consistent(old(self).deep_view()),
        ensures
            (final(self).deep_view(), action) == after_search_key(old(self).deep_view(), key),
            consistent(final(self).deep_view()),
    {
        let ghost a = self.deep_view();
        match key {
            Key::Esc => {
                self.search_mode = false;
                self.search_input = String::new();
                assert(self.deep_view() =~~= (AppView {
                    search_mode: false,
                    search_input: Seq::empty(),
                    ..a
                }));
                self.apply_filter();
                Action::LoadEvents
            },
            Key::Enter => {
                self.search_mode = false;
                self.apply_filter();
                Action::LoadEvents
            },
            Key::Backspace => {
                let chars = char_list(self.search_input.as_str());
                if chars.len() > 0 {
                    let shorter = string_of(&chars, 0, chars.len() - 1);
                    assert(shorter@ =~= a.search_input.drop_last());
                    self.search_input = shorter;
                }
                self.apply_filter();
                Action::Nothing
            },
            Key::Char(c) => {
                self.search_input.push(c);
                self.apply_filter();
                Action::Nothing
            },
            _ => Action::Nothing,
        }
    }
}

/// Going through the parts of the screen ends where it began.
pub proof fn focus_comes_round(focus: Focus)
    ensures
        next_focus(next_focus(next_focus(focus))) == focus,
        next_focus(focus) != focus,
{
}

/// The selection moves by one line, stops at the first and at the last one, and
/// nothing but the selection changes.
pub proof fn selection_stays_on_lines(a: AppView, delta: int)
    requires
        consistent(a),
        a.filtered_indices.len() <= usize::MAX,
    ensures
        consistent(moved(a, delta)),
        moved(a, delta).leaderboard == a.leaderboard,
        moved(a, delta).filtered_indices == a.filtered_indices,
        a.selected matches Some(place) ==> (0 <= place + delta < a.filtered_indices.len()
            ==> moved(a, delta).selected == Some((place + delta) as usize)),
{
    if a.filtered_indices.len() > 0 {
        let next = moved(a, delta).selected.unwrap();
        assert(a.filtered_indices[next as int] < a.leaderboard.len());
    }
}

/// No key and no loading breaks the screen.
pub proof fn keys_keep_the_screen_consistent(a: AppView, key: Key)
    requires
        consistent(a),
        a.leaderboard.len() <= usize::MAX,
        a.filtered_indices.len() <= usize::MAX,
    ensures
        consistent(after_key(a, key).0),
{
    lemma_refiltered_consistent(AppView { search_mode: false, search_input: Seq::empty(), ..a });
    lemma_refiltered_consistent(AppView { search_mode: false, ..a });
    lemma_refiltered_consistent(AppView { search_input: a.search_input.drop_last(), ..a });
    lemma_refiltered_consistent(a);
    lemma_refiltered_consistent(AppView { search_input: Seq::empty(), ..a });
    if let Key::Char(c) = key {
        lemma_refiltered_consistent(AppView { search_input: a.search_input.push(c), ..a });
    }
    selection_stays_on_lines(a, 1);
    selection_stays_on_lines(a, -1);
    if let Some(team) = a.selected_team {
        toggling_keeps_order(a.compare_teams, team);
    }
}

/// The filtered lines are those that match the search, in their order.
pub proof fn filtered_lines_match(board: Seq<BoardRowView>, query: Seq<char>, i: usize)
    requires
        board.len() <= usize::MAX,
        i < board.len(),
    ensures
        filtered(board, query).contains(i) <==> matches(board[i as int], query),
        forall|j: int, k: int|
            0 <= j < k < filtered(board, query).len() ==> #[trigger] filtered(board, query)[j]
                < #[trigger] filtered(board, query)[k],
{
    let names = board.map_values(|row: BoardRowView| bindings::lowered(row.team_id));
    let word = bindings::lowered(query);
    lemma_places_in_order(names, word, names.len() as int);
    assert(places(names.len()).take(names.len() as int) =~= places(names.len()));
}

proof fn lemma_places_in_order(names: Seq<Seq<char>>, query: Seq<char>, n: int)
    requires
        names.len() <= usize::MAX,
        0 <= n <= names.len(),
    ensures
        ({
            let holds = |i: usize| text::occurs(names[i as int], query);
            let lines = places(names.len()).take(n).filter(holds);
            &&& forall|j: int, k: int|
                0 <= j < k < lines.len() ==> #[trigger] lines[j] < #[trigger] lines[k]
            &&& forall|i: usize|
                i < n ==> (#[trigger] lines.contains(i) <==> text::occurs(names[i as int], query))
        }),
    decreases n,
{
    let holds = |i: usize| text::occurs(names[i as int], query);
    let range = places(names.len());
    let lines = range.take(n).filter(holds);
    lemma_places_held(names, query, n);
    if n == 0 {
        assert(range.take(0) =~= Seq::<usize>::empty());
        assert(lines.len() == 0) by {
            reveal(Seq::filter);
        }
    } else {
        lemma_places_in_order(names, query, n - 1);
        lemma_places_held(names, query, n - 1);
        let before = range.take(n - 1).filter(holds);
        let last = range[n - 1];
        range.take(n - 1).lemma_filter_push(last, holds);
        assert(range.take(n - 1).push(last) =~= range.take(n));
        assert forall|j: int, k: int| 0 <= j < k < lines.len() implies #[trigger] lines[j]
            < #[trigger] lines[k] by {
            assert(lines[j] == before[j]);
            if k < before.len() {
                assert(lines[k] == before[k]);
            }
        }
        assert forall|i: usize| i < n implies (#[trigger] lines.contains(i) <==> text::occurs(
            names[i as int],
            query,
        )) by {
            if i < n - 1 {
                assert(before.contains(i) <==> text::occurs(names[i as int], query));
                if before.contains(i) {
                    let k = choose|k: int| 0 <= k < before.len() && before[k] == i;
                    assert(lines[k] == i);
                }
                if lines.contains(i) {
                    let k = choose|k: int| 0 <= k < lines.len() && lines[k] == i;
                    assert(k < before.len());
                    assert(before[k] == i);
                }
            } else {
                assert(i == last);
                if holds(last) {
                    assert(lines[before.len() as int] == i);
                } else if lines.contains(i) {
                    let k = choose|k: int| 0 <= k < lines.len() && lines[k] == i;
                    assert(before[k] == i);
                }
            }
        }
    }
}

}
