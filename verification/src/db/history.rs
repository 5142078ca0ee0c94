//! The events and the development of the scores.
use crate::bindings::{self, parse_rfc3339};
use crate::db::read::{self, team_name, time_of};
use crate::db::{
    self, resolve_snapshot_id, EntryView, Store, StoreError, StoreView, StoredEventView,
};
use crate::score::{Score, ScoreView};
use crate::text::same_text;
use vstd::prelude::*;

verus! {

/// An event as it is shown.
#[derive(Debug)]
pub struct EventViewRow {
    pub fetched_at: String,
    pub team_id: String,
    pub event_type: String,
    pub old_rank: Option<i64>,
    pub new_rank: Option<i64>,
    pub old_score: Option<Score>,
    pub new_score: Option<Score>,
    pub old_version: Option<String>,
    pub new_version: Option<String>,
}

/// What an [`EventViewRow`] holds.
#[verifier::ext_equal]
pub struct ShownEventView {
    pub fetched_at: Seq<char>,
    pub team_id: Seq<char>,
    pub event_type: Seq<char>,
    pub old_rank: Option<i64>,
    pub new_rank: Option<i64>,
    pub old_score: Option<ScoreView>,
    pub new_score: Option<ScoreView>,
    pub old_version: Option<Seq<char>>,
    pub new_version: Option<Seq<char>>,
}

impl DeepView for EventViewRow {
    type V = ShownEventView;

    open spec fn deep_view(&self) -> ShownEventView {
        ShownEventView {
            fetched_at: self.fetched_at@,
            team_id: self.team_id@,
            event_type: self.event_type@,
            old_rank: self.old_rank,
            new_rank: self.new_rank,
            old_score: self.old_score.deep_view(),
            new_score: self.new_score.deep_view(),
            old_version: self.old_version.deep_view(),
            new_version: self.new_version.deep_view(),
        }
    }
}

impl Clone for EventViewRow {
    fn clone(&self) -> (copy: Self)
        ensures
            copy == *self,
    {
        EventViewRow {
            fetched_at: self.fetched_at.clone(),
            team_id: self.team_id.clone(),
            event_type: self.event_type.clone(),
            old_rank: self.old_rank,
            new_rank: self.new_rank,
            old_score: self.old_score.clone(),
            new_score: self.new_score.clone(),
            old_version: self.old_version.clone(),
            new_version: self.new_version.clone(),
        }
    }
}

/// How an event is shown, where it is of the snapshot and of the team that are
/// asked for.
pub open spec fn shown_event(
    s: StoreView,
    event: StoredEventView,
    snapshot_id: Option<i64>,
    team: Option<Seq<char>>,
) -> Option<ShownEventView> {
    let time = read::fetched_at_of(s.snapshots, event.snapshot_id);
    let name = read::name_of(s.teams, event.team_id);
    if time is Some && name is Some && (snapshot_id matches Some(id) ==> event.snapshot_id == id)
        && (team is Some ==> name == team) {
        Some(
            ShownEventView {
                fetched_at: time.unwrap(),
                team_id: name.unwrap(),
                event_type: event.event_type,
                old_rank: event.old_rank,
                new_rank: event.new_rank,
                old_score: event.old_score,
                new_score: event.new_score,
                old_version: event.old_version,
                new_version: event.new_version,
            },
        )
    } else {
        None
    }
}

/// All events that are asked for, the newest first.
pub open spec fn shown_events(s: StoreView, snapshot_id: Option<i64>, team: Option<Seq<char>>) -> Seq<
    ShownEventView,
> {
    s.events.filter_map(|e: StoredEventView| shown_event(s, e, snapshot_id, team)).reverse()
}

/// The first `limit` items, or all where there are fewer.
pub open spec fn at_most<A>(items: Seq<A>, limit: nat) -> Seq<A> {
    if limit < items.len() {
        items.take(limit as int)
    } else {
        items
    }
}

/// The newest events of the snapshot and of the team, at most `limit` of them.
/// Without a snapshot or a team those of all are meant.
pub fn recent_events(
    store: &Store,
    snapshot_id: Option<i64>,
    team_filter: Option<&str>,
    limit: usize,
) -> (events: Vec<EventViewRow>)
    ensures
        events.deep_view() == at_most(
            shown_events(store.deep_view(), snapshot_id, team_filter.deep_view()),
            limit as nat,
        ),
{
    let ghost s = store.deep_view();
    let ghost team = team_filter.deep_view();
    let ghost show = |e: StoredEventView| shown_event(s, e, snapshot_id, team);
    let ghost everything = shown_events(s, snapshot_id, team);
    let mut out: Vec<EventViewRow> = Vec::new();
    let mut i: usize = store.events.len();
    proof {
        assert(s.events.take(i as int) =~= s.events);
        assert(out.deep_view() =~= everything.take(0));
        assert(out.deep_view() + s.events.take(i as int).filter_map(show).reverse() =~= everything);
    }
    while i > 0 && out.len() < limit
        invariant
            i <= store.events@.len(),
            s == store.deep_view(),
            team == team_filter.deep_view(),
            show == (|e: StoredEventView| shown_event(s, e, snapshot_id, team)),
            everything == shown_events(s, snapshot_id, team),
            out@.len() <= limit,
            out.deep_view() + s.events.take(i as int).filter_map(show).reverse() == everything,
        decreases i,
    {
        i -= 1;
        let event = &store.events[i];
        let ghost done = out.deep_view();
        let ghost rest = s.events.take(i as int).filter_map(show);
        proof {
            s.events.lemma_filter_map_take_succ(show, i as int);
            assert(s.events[i as int] == event.deep_view());
        }
        let wanted = match snapshot_id {
            Some(id) => event.snapshot_id == id,
            None => true,
        };
        let mut shown = false;
        if wanted {
            if let (Some(fetched_at), Some(team_id)) = (
                time_of(store, event.snapshot_id),
                team_name(&store.teams, event.team_id),
            ) {
                let named = match team_filter {
                    Some(filter) => same_text(team_id.as_str(), filter),
                    None => true,
                };
                if named {
                    let row = EventViewRow {
                        fetched_at,
                        team_id,
                        event_type: event.event_type.clone(),
                        old_rank: event.old_rank,
                        new_rank: event.new_rank,
                        old_score: event.old_score.clone(),
                        new_score: event.new_score.clone(),
                        old_version: event.old_version.clone(),
                        new_version: event.new_version.clone(),
                    };
                    let ghost view = row.deep_view();
                    out.push(row);
                    shown = true;
                    proof {
                        assert(show(event.deep_view()) == Some(view));
                        assert(out.deep_view() =~= done.push(view));
                        assert(s.events.take(i + 1).filter_map(show) =~= rest.push(view));
                        assert(rest.push(view).reverse() =~= seq![view] + rest.reverse());
                        assert(out.deep_view() + rest.reverse() =~= done + rest.push(view).reverse());
                    }
                }
            }
        }
        if !shown {
            proof {
                assert(show(event.deep_view()) is None);
                assert(s.events.take(i + 1).filter_map(show) =~= rest);
            }
        }
    }
    proof {
        let rest = s.events.take(i as int).filter_map(show);
        if i == 0 {
            assert(rest =~= Seq::<ShownEventView>::empty()) by {
                reveal(Seq::filter_map);
            }
            assert(rest.reverse() =~= Seq::<ShownEventView>::empty());
            assert(out.deep_view() =~= everything);
        }
        assert(out.deep_view() =~= at_most(everything, limit as nat));
    }
    out
}

/// The newest events of the snapshot that the request means.
pub fn events_for_snapshot(
    store: &Store,
    requested_snapshot_id: Option<i64>,
    team_filter: Option<&str>,
    limit: usize,
) -> (events: Vec<EventViewRow>)
    ensures
        events.deep_view() == at_most(
            shown_events(
                store.deep_view(),
                db::resolved(store.deep_view(), requested_snapshot_id),
                team_filter.deep_view(),
            ),
            limit as nat,
        ),
{
    let snapshot_id = resolve_snapshot_id(store, requested_snapshot_id);
    recent_events(store, snapshot_id, team_filter, limit)
}

/// The place and the score of a team at one moment.
#[derive(Debug)]
pub struct ChartPoint {
    pub timestamp: i64,
    pub rank: i64,
    pub score: Score,
}

/// What a [`ChartPoint`] holds.
#[verifier::ext_equal]
pub struct PointView {
    pub timestamp: i64,
    pub rank: i64,
    pub score: ScoreView,
}

impl DeepView for ChartPoint {
    type V = PointView;

    open spec fn deep_view(&self) -> PointView {
        PointView { timestamp: self.timestamp, rank: self.rank, score: self.score.deep_view() }
    }
}

impl Clone for ChartPoint {
    fn clone(&self) -> (copy: Self)
        ensures
            copy == *self,
    {
        ChartPoint { timestamp: self.timestamp, rank: self.rank, score: self.score.clone() }
    }
}

/// The development of one team.
#[derive(Debug)]
pub struct TeamSeries {
    pub team_id: String,
    pub points: Vec<ChartPoint>,
}

/// What a [`TeamSeries`] holds.
#[verifier::ext_equal]
pub struct SeriesView {
    pub team_id: Seq<char>,
    pub points: Seq<PointView>,
}

impl DeepView for TeamSeries {
    type V = SeriesView;

    open spec fn deep_view(&self) -> SeriesView {
        SeriesView { team_id: self.team_id@, points: self.points.deep_view() }
    }
}

/// Whether the entry is a present one of the team, in a snapshot up to the
/// given one.
pub open spec fn charted(s: StoreView, entry: EntryView, team: Seq<char>, until: Option<i64>) -> bool {
    &&& read::name_of(s.teams, entry.team_id) == Some(team)
    &&& read::fetched_at_of(s.snapshots, entry.snapshot_id) is Some
    &&& entry.present
    &&& until matches Some(id) ==> entry.snapshot_id <= id
}

/// The point of a team that had that rank and score at that moment.
pub open spec fn point_at(
    seconds: Option<i64>,
    rank: Option<i64>,
    score: Option<ScoreView>,
) -> Result<PointView, StoreError> {
    match (seconds, score, rank) {
        (None, _, _) => Err(StoreError::InvalidTime),
        (Some(timestamp), Some(score), Some(rank)) => Ok(PointView { timestamp, rank, score }),
        _ => Err(StoreError::MissingValue),
    }
}

/// The point of an entry.
pub open spec fn point_of(s: StoreView, entry: EntryView) -> Result<PointView, StoreError> {
    point_at(
        bindings::rfc3339_seconds(read::fetched_at_of(s.snapshots, entry.snapshot_id).unwrap()),
        entry.rank,
        entry.score,
    )
}

/// The points of the team among the given entries, in order; the first failure
/// where there is one.
pub open spec fn points_of(
    s: StoreView,
    entries: Seq<EntryView>,
    team: Seq<char>,
    until: Option<i64>,
) -> Result<Seq<PointView>, StoreError>
    decreases entries.len(),
{
    if entries.len() == 0 {
        Ok(Seq::empty())
    } else {
        match points_of(s, entries.drop_last(), team, until) {
            Err(e) => Err(e),
            Ok(points) => if charted(s, entries.last(), team, until) {
                match point_of(s, entries.last()) {
                    Ok(point) => Ok(points.push(point)),
                    Err(e) => Err(e),
                }
            } else {
                Ok(points)
            },
        }
    }
}

/// The names without repetition, in the order of their first occurrence.
pub open spec fn distinct(names: Seq<Seq<char>>) -> Seq<Seq<char>>
    decreases names.len(),
{
    if names.len() == 0 {
        Seq::empty()
    } else {
        let rest = distinct(names.drop_last());
        if rest.contains(names.last()) {
            rest
        } else {
            rest.push(names.last())
        }
    }
}

/// The development of each named team; the first failure where there is one.
pub open spec fn series_of(s: StoreView, names: Seq<Seq<char>>, until: Option<i64>) -> Result<
    Seq<SeriesView>,
    StoreError,
>
    decreases names.len(),
{
    if names.len() == 0 {
        Ok(Seq::empty())
    } else {
        match series_of(s, names.drop_last(), until) {
            Err(e) => Err(e),
            Ok(done) => match points_of(s, s.entries, names.last(), until) {
                Ok(points) => Ok(done.push(SeriesView { team_id: names.last(), points })),
                Err(e) => Err(e),
            },
        }
    }
}

proof fn lemma_points_fail_early(
    s: StoreView,
    entries: Seq<EntryView>,
    k: int,
    team: Seq<char>,
    until: Option<i64>,
)
    requires
        0 <= k <= entries.len(),
        points_of(s, entries.take(k), team, until) is Err,
    ensures
        points_of(s, entries, team, until) == points_of(s, entries.take(k), team, until),
    decreases entries.len(),
{
    if k < entries.len() {
        assert(entries.drop_last().take(k) =~= entries.take(k));
        lemma_points_fail_early(s, entries.drop_last(), k, team, until);
    } else {
        assert(entries.take(k) =~= entries);
    }
}

proof fn lemma_series_fail_early(s: StoreView, names: Seq<Seq<char>>, k: int, until: Option<i64>)
    requires
        0 <= k <= names.len(),
        series_of(s, names.take(k), until) is Err,
    ensures
        series_of(s, names, until) == series_of(s, names.take(k), until),
    decreases names.len(),
{
    if k < names.len() {
        assert(names.drop_last().take(k) =~= names.take(k));
        lemma_series_fail_early(s, names.drop_last(), k, until);
    } else {
        assert(names.take(k) =~= names);
    }
}

/// The point of a team that had that rank and score at that moment, counted in
/// seconds; the moment is missing where the snapshot's time cannot be read.
pub fn chart_point(seconds: Option<i64>, rank: Option<i64>, score: &Option<Score>) -> (point: Result<
    ChartPoint,
    StoreError,
>)
    ensures
        match (point, point_at(seconds, rank, score.deep_view())) {
            (Ok(point), Ok(expected)) => point.deep_view() == expected,
            (Err(e), Err(expected)) => e == expected,
            _ => false,
        },
{
    let timestamp: i64 = match seconds {
        Some(seconds) => seconds,
        None => {
            return Err(StoreError::InvalidTime);
        },
    };
    match (score, rank) {
        (Some(score), Some(rank)) => Ok(ChartPoint { timestamp, rank, score: score.clone() }),
        _ => Err(StoreError::MissingValue),
    }
}

fn team_points(store: &Store, team: &str, until: Option<i64>) -> (points: Result<
    Vec<ChartPoint>,
    StoreError,
>)
    ensures
        match (points, points_of(store.deep_view(), store.deep_view().entries, team@, until)) {
            (Ok(points), Ok(expected)) => points.deep_view() == expected,
            (Err(e), Err(expected)) => e == expected,
            _ => false,
        },
{
    let ghost s = store.deep_view();
    let mut out: Vec<ChartPoint> = Vec::new();
    let mut i: usize = 0;
    assert(s.entries.take(0) =~= Seq::<EntryView>::empty());
    assert(out.deep_view() =~= Seq::<PointView>::empty());
    while i < store.entries.len()
        invariant
            i <= store.entries@.len(),
            s == store.deep_view(),
            points_of(s, s.entries.take(i as int), team@, until) == Ok::<
                Seq<PointView>,
                StoreError,
            >(out.deep_view()),
        decreases store.entries@.len() - i,
    {
        let entry = &store.entries[i];
        let ghost done = out.deep_view();
        proof {
            assert(s.entries.take(i + 1).drop_last() =~= s.entries.take(i as int));
            assert(s.entries.take(i + 1).last() == entry.deep_view());
        }
        let in_time = match until {
            Some(id) => entry.snapshot_id <= id,
            None => true,
        };
        if entry.present && in_time {
            if let (Some(name), Some(time)) = (
                team_name(&store.teams, entry.team_id),
                time_of(store, entry.snapshot_id),
            ) {
                if same_text(name.as_str(), team) {
                    assert(charted(s, entry.deep_view(), team@, until));
                    let seconds: Option<i64> = match parse_rfc3339(time.as_str()) {
                        Some(time) => Some(time.0),
                        None => None,
                    };
                    match chart_point(seconds, entry.rank, &entry.score) {
                        Ok(point) => {
                            let ghost view = point.deep_view();
                            out.push(point);
                            assert(out.deep_view() =~= done.push(view));
                        },
                        Err(e) => {
                            proof {
                                lemma_points_fail_early(s, s.entries, i + 1, team@, until);
                            }
                            return Err(e);
                        },
                    }
                }
            }
        }
        i += 1;
    }
    assert(s.entries.take(i as int) =~= s.entries);
    Ok(out)
}

/// Whether the name is in the list.
pub fn has_name(names: &Vec<String>, name: &str) -> (found: bool)
    ensures
        found == names.deep_view().contains(name@),
{
    let ghost all = names.deep_view();
    let mut i: usize = 0;
    while i < names.len()
        invariant
            i <= names@.len(),
            all == names.deep_view(),
            forall|k: int| 0 <= k < i ==> all[k] != name@,
        decreases names@.len() - i,
    {
        assert(all[i as int] == names@[i as int]@);
        if same_text(names[i].as_str(), name) {
            return true;
        }
        i += 1;
    }
    false
}

fn distinct_names(names: &Vec<String>) -> (out: Vec<String>)
    ensures
        out.deep_view() == distinct(names.deep_view()),
{
    let ghost all = names.deep_view();
    let mut out: Vec<String> = Vec::new();
    let mut i: usize = 0;
    assert(all.take(0) =~= Seq::<Seq<char>>::empty());
    assert(out.deep_view() =~= Seq::<Seq<char>>::empty());
    while i < names.len()
        invariant
            i <= names@.len(),
            all == names.deep_view(),
            out.deep_view() == distinct(all.take(i as int)),
        decreases names@.len() - i,
    {
        let ghost done = out.deep_view();
        proof {
            assert(all.take(i + 1).drop_last() =~= all.take(i as int));
            assert(all.take(i + 1).last() == names@[i as int]@);
        }
        if !has_name(&out, names[i].as_str()) {
            out.push(names[i].clone());
            assert(out.deep_view() =~= done.push(names@[i as int]@));
        }
        i += 1;
    }
    assert(all.take(i as int) =~= all);
    out
}

/// The development of each team up to the snapshot, one series for each name.
pub fn team_chart_series(store: &Store, team_ids: &Vec<String>, snapshot_id: Option<i64>) -> (series: Result<
    Vec<TeamSeries>,
    StoreError,
>)
    ensures
        match (
            series,
            series_of(store.deep_view(), distinct(team_ids.deep_view()), snapshot_id),
        ) {
            (Ok(series), Ok(expected)) => series.deep_view() == expected,
            (Err(e), Err(expected)) => e == expected,
            _ => false,
        },
{
    let ghost s = store.deep_view();
    let names = distinct_names(team_ids);
    let ghost all = names.deep_view();
    let mut out: Vec<TeamSeries> = Vec::new();
    let mut i: usize = 0;
    assert(all.take(0) =~= Seq::<Seq<char>>::empty());
    assert(out.deep_view() =~= Seq::<SeriesView>::empty());
    while i < names.len()
        invariant
            i <= names@.len(),
            s == store.deep_view(),
            all == names.deep_view(),
            all == distinct(team_ids.deep_view()),
            series_of(s, all.take(i as int), snapshot_id) == Ok::<Seq<SeriesView>, StoreError>(
                out.deep_view(),
            ),
        decreases names@.len() - i,
    {
        let ghost done = out.deep_view();
        proof {
            assert(all.take(i + 1).drop_last() =~= all.take(i as int));
            assert(all.take(i + 1).last() == names@[i as int]@);
        }
        match team_points(store, names[i].as_str(), snapshot_id) {
            Ok(points) => {
                let series = TeamSeries { team_id: names[i].clone(), points };
                let ghost view = series.deep_view();
                out.push(series);
                assert(out.deep_view() =~= done.push(view));
            },
            Err(e) => {
                proof {
                    lemma_series_fail_early(s, all, i + 1, snapshot_id);
                }
                return Err(e);
            },
        }
        i += 1;
    }
    assert(all.take(i as int) =~= all);
    Ok(out)
}

/// The development of each team up to the snapshot that the request means.
pub fn chart_series_to_snapshot(
    store: &Store,
    team_ids: &Vec<String>,
    requested_snapshot_id: Option<i64>,
) -> (series: Result<Vec<TeamSeries>, StoreError>)
    ensures
        match (
            series,
            series_of(
                store.deep_view(),
                distinct(team_ids.deep_view()),
                db::resolved(store.deep_view(), requested_snapshot_id),
            ),
        ) {
            (Ok(series), Ok(expected)) => series.deep_view() == expected,
            (Err(e), Err(expected)) => e == expected,
            _ => false,
        },
{
    let snapshot_id = resolve_snapshot_id(store, requested_snapshot_id);
    team_chart_series(store, team_ids, snapshot_id)
}

}
