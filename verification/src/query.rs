//! What is asked of the history.
use crate::db::history::{
    self, chart_series_to_snapshot, events_for_snapshot, recent_events, team_chart_series,
    EventViewRow, TeamSeries,
};
use crate::db::read::{self, leaderboard_state, LeaderboardViewRow};
use crate::db::{
    self, assert_has_snapshots, latest_snapshot_id, snapshot_meta, Store, StoreError,
    StoreView,
};
use vstd::prelude::*;

verus! {

/// Whether a history without snapshots may be asked.
#[derive(Debug, Clone, Copy, PartialEq, Eq, Structural)]
pub enum SnapshotPolicy {
    AllowEmpty,
    RequireExisting,
}

/// The number of the latest snapshot.
#[derive(Debug, Clone, Copy, PartialEq, Eq, Structural)]
pub struct SnapshotMeta {
    pub latest_snapshot_id: Option<i64>,
}

/// The leaderboard of the latest snapshot.
#[derive(Debug)]
pub struct LeaderboardState {
    pub latest_snapshot_id: Option<i64>,
    pub leaderboard: Vec<LeaderboardViewRow>,
}

/// Whether the history may be asked under the policy.
pub open spec fn admitted(s: StoreView, policy: SnapshotPolicy) -> bool {
    policy is AllowEmpty || s.snapshots.len() > 0
}

/// Fails where the history may not be asked under the policy.
pub fn check_policy(store: &Store, policy: SnapshotPolicy) -> (result: Result<(), StoreError>)
    ensures
        admitted(store.deep_view(), policy) ==> result == Ok::<(), StoreError>(()),
        !admitted(store.deep_view(), policy) ==> result == Err::<(), StoreError>(
            StoreError::NoSnapshots,
        ),
{
    match policy {
        SnapshotPolicy::AllowEmpty => Ok(()),
        SnapshotPolicy::RequireExisting => assert_has_snapshots(store),
    }
}

/// Whether the answer is the leaderboard of the snapshot that the request means.
pub open spec fn answers_state(
    s: StoreView,
    policy: SnapshotPolicy,
    requested: Option<i64>,
    answer: Result<read::LeaderboardState, StoreError>,
) -> bool {
    match answer {
        Ok(state) => {
            &&& admitted(s, policy)
            &&& read::board_complete(s, requested)
            &&& state.snapshot == db::meta_of(s, requested)
            &&& read::is_leaderboard(s, requested, state.leaderboard.deep_view())
        },
        Err(e) => if admitted(s, policy) {
            e == StoreError::MissingValue && !read::board_complete(s, requested)
        } else {
            e == StoreError::NoSnapshots
        },
    }
}

/// Whether the answer is the list of the newest events that are asked for.
pub open spec fn answers_events(
    s: StoreView,
    policy: SnapshotPolicy,
    snapshot_id: Option<i64>,
    team: Option<Seq<char>>,
    limit: nat,
    answer: Result<Vec<EventViewRow>, StoreError>,
) -> bool {
    match answer {
        Ok(events) => admitted(s, policy) && events.deep_view() == history::at_most(
            history::shown_events(s, snapshot_id, team),
            limit,
        ),
        Err(e) => !admitted(s, policy) && e == StoreError::NoSnapshots,
    }
}

/// Whether the answer is the development of the teams up to the snapshot.
pub open spec fn answers_chart(
    s: StoreView,
    policy: SnapshotPolicy,
    names: Seq<Seq<char>>,
    until: Option<i64>,
    answer: Result<Vec<TeamSeries>, StoreError>,
) -> bool {
    match answer {
        Ok(series) => admitted(s, policy) && history::series_of(s, history::distinct(names), until)
            == Ok::<Seq<history::SeriesView>, StoreError>(series.deep_view()),
        Err(e) => if admitted(s, policy) {
            history::series_of(s, history::distinct(names), until) == Err::<
                Seq<history::SeriesView>,
                StoreError,
            >(e)
        } else {
            e == StoreError::NoSnapshots
        },
    }
}

/// The leaderboard of the latest snapshot.
pub fn load_leaderboard_state(store: &Store, policy: SnapshotPolicy) -> (answer: Result<
    LeaderboardState,
    StoreError,
>)
    ensures
        match answer {
            Ok(state) => {
                &&& admitted(store.deep_view(), policy)
                &&& read::board_complete(store.deep_view(), None)
                &&& state.latest_snapshot_id == db::greatest(db::snapshot_ids(store.deep_view()))
                &&& read::is_leaderboard(store.deep_view(), None, state.leaderboard.deep_view())
            },
            Err(e) => if admitted(store.deep_view(), policy) {
                e == StoreError::MissingValue && !read::board_complete(store.deep_view(), None)
            } else {
                e == StoreError::NoSnapshots
            },
        },
{
    match load_state_at(store, policy, None) {
        Ok(state) => Ok(
            LeaderboardState {
                latest_snapshot_id: latest_snapshot_id(store),
                leaderboard: state.leaderboard,
            },
        ),
        Err(e) => Err(e),
    }
}

/// The newest events, of the team where one is given.
pub fn load_recent_events(
    store: &Store,
    team_filter: Option<&str>,
    limit: usize,
    policy: SnapshotPolicy,
) -> (answer: Result<Vec<EventViewRow>, StoreError>)
    ensures
        answers_events(
            store.deep_view(),
            policy,
            None,
            team_filter.deep_view(),
            limit as nat,
            answer,
        ),
{
    match check_policy(store, policy) {
        Ok(()) => Ok(recent_events(store, None, team_filter, limit)),
        Err(e) => Err(e),
    }
}

/// The whole development of the teams.
pub fn load_chart_series(store: &Store, team_ids: &Vec<String>, policy: SnapshotPolicy) -> (answer:
    Result<Vec<TeamSeries>, StoreError>)
    ensures
        answers_chart(store.deep_view(), policy, team_ids.deep_view(), None, answer),
{
    match check_policy(store, policy) {
        Ok(()) => team_chart_series(store, team_ids, None),
        Err(e) => Err(e),
    }
}

/// The number of the latest snapshot.
pub fn load_snapshot_meta(store: &Store) -> (meta: SnapshotMeta)
    ensures
        meta.latest_snapshot_id == db::greatest(db::snapshot_ids(store.deep_view())),
{
    SnapshotMeta { latest_snapshot_id: latest_snapshot_id(store) }
}

/// The leaderboard of the snapshot that the request means.
pub fn load_state_at(store: &Store, policy: SnapshotPolicy, snapshot_id: Option<i64>) -> (answer:
    Result<read::LeaderboardState, StoreError>)
    ensures
        answers_state(store.deep_view(), policy, snapshot_id, answer),
{
    match check_policy(store, policy) {
        Ok(()) => leaderboard_state(store, snapshot_id),
        Err(e) => Err(e),
    }
}

/// The newest events of the snapshot that the request means.
pub fn load_events_at(
    store: &Store,
    snapshot_id: Option<i64>,
    team_filter: Option<&str>,
    limit: usize,
    policy: SnapshotPolicy,
) -> (answer: Result<Vec<EventViewRow>, StoreError>)
    ensures
        answers_events(
            store.deep_view(),
            policy,
            db::resolved(store.deep_view(), snapshot_id),
            team_filter.deep_view(),
            limit as nat,
            answer,
        ),
{
    match check_policy(store, policy) {
        Ok(()) => Ok(events_for_snapshot(store, snapshot_id, team_filter, limit)),
        Err(e) => Err(e),
    }
}

/// The development of the teams up to the snapshot that the request means.
pub fn load_chart_at(
    store: &Store,
    team_ids: &Vec<String>,
    snapshot_id: Option<i64>,
    policy: SnapshotPolicy,
) -> (answer: Result<Vec<TeamSeries>, StoreError>)
    ensures
        answers_chart(
            store.deep_view(),
            policy,
            team_ids.deep_view(),
            db::resolved(store.deep_view(), snapshot_id),
            answer,
        ),
{
    match check_policy(store, policy) {
        Ok(()) => chart_series_to_snapshot(store, team_ids, snapshot_id),
        Err(e) => Err(e),
    }
}

/// Where the snapshot that the request means stands among the others.
pub fn load_meta_at(store: &Store, snapshot_id: Option<i64>) -> (meta: db::SnapshotMeta)
    ensures
        meta == db::meta_of(store.deep_view(), snapshot_id),
{
    snapshot_meta(store, snapshot_id)
}

}
