//! The interface over HTTP: which address a request has, and what it is
//! answered.
use crate::db::history::{EventViewRow, TeamSeries};
use crate::db::read::{self, LeaderboardState, LeaderboardViewRow};
use crate::db::{self, SnapshotMeta, Store, StoreError};
use crate::query::{
    self, load_chart_at, load_events_at, load_meta_at, load_state_at, SnapshotPolicy,
};
use crate::text::{self, integer_text, join, natural_text, split_filled, trim_end_char};
use vstd::prelude::*;
use vstd::string::*;

verus! {

pub const STATE_PATH: &'static str = "/api/v1/state";

pub const SNAPSHOT_PATH: &'static str = "/api/v1/snapshot";

pub const LEADERBOARD_PATH: &'static str = "/api/v1/leaderboard";

pub const EVENTS_PATH: &'static str = "/api/v1/events";

pub const CHART_PATH: &'static str = "/api/v1/chart";

/// The events that are answered where no number is asked for.
pub const DEFAULT_EVENT_LIMIT: usize = 100;

/// The status of an answer that could not be given.
pub const ERROR_STATUS: u16 = 500;

/// Asks a service for its data.
#[derive(Debug, Clone)]
pub struct ApiClient {
    pub base_url: String,
}

/// A parameter of a request that may be missing.
pub open spec fn parameter(prefix: Seq<char>, value: Option<Seq<char>>) -> Seq<char> {
    match value {
        Some(value) => prefix + value,
        None => Seq::empty(),
    }
}

/// A number as a parameter.
pub open spec fn number_text(number: Option<i64>) -> Option<Seq<char>> {
    match number {
        Some(number) => Some(text::decimal(number as int)),
        None => None,
    }
}

/// The request for a leaderboard.
pub open spec fn state_request(snapshot_id: Option<i64>) -> Seq<char> {
    STATE_PATH@ + parameter("?snapshot_id="@, number_text(snapshot_id))
}

/// The request for events.
pub open spec fn events_request(
    snapshot_id: Option<i64>,
    team: Option<Seq<char>>,
    limit: nat,
) -> Seq<char> {
    EVENTS_PATH@ + "?limit="@ + text::decimal(limit as int) + parameter(
        "&snapshot_id="@,
        number_text(snapshot_id),
    ) + parameter("&team="@, team)
}

/// The request for a chart.
pub open spec fn chart_request(snapshot_id: Option<i64>, team_ids: Seq<Seq<char>>) -> Seq<char> {
    CHART_PATH@ + parameter("?snapshot_id="@, number_text(snapshot_id)) + parameter(
        if snapshot_id is Some {
            "&team_ids="@
        } else {
            "?team_ids="@
        },
        if team_ids.len() > 0 {
            Some(text::joined(team_ids, ","@))
        } else {
            None
        },
    )
}

impl ApiClient {
    /// A client of the service at that address; slashes at its end are ignored.
    pub fn new(base_url: &str) -> (client: Self)
        ensures
            client.base_url@ == text::without_tail(base_url@, '/'),
    {
        ApiClient { base_url: trim_end_char(base_url, '/') }
    }

    /// The address at which the leaderboard is found.
    pub fn state(&self, snapshot_id: Option<i64>) -> (url: String)
        ensures
            url@ == self.base_url@ + state_request(snapshot_id),
    {
        let mut path = STATE_PATH.to_owned();
        if let Some(snapshot_id) = snapshot_id {
            path.append("?snapshot_id=");
            path.append(integer_text(snapshot_id).as_str());
        }
        assert(path@ =~= state_request(snapshot_id));
        self.url(path.as_str())
    }

    /// The address at which the events are found.
    pub fn events(&self, snapshot_id: Option<i64>, team: Option<&str>, limit: usize) -> (url: String)
        ensures
            url@ == self.base_url@ + events_request(snapshot_id, team.deep_view(), limit as nat),
    {
        let mut path = EVENTS_PATH.to_owned();
        path.append("?limit=");
        path.append(natural_text(limit as u64).as_str());
        if let Some(snapshot_id) = snapshot_id {
            path.append("&snapshot_id=");
            path.append(integer_text(snapshot_id).as_str());
        }
        if let Some(team) = team {
            path.append("&team=");
            path.append(team);
        }
        assert(path@ =~= events_request(snapshot_id, team.deep_view(), limit as nat));
        self.url(path.as_str())
    }

    /// The address at which the chart is found.
    pub fn chart(&self, snapshot_id: Option<i64>, team_ids: &Vec<String>) -> (url: String)
        ensures
            url@ == self.base_url@ + chart_request(snapshot_id, team_ids.deep_view()),
    {
        let mut path = CHART_PATH.to_owned();
        let mut has_query = false;
        if let Some(snapshot_id) = snapshot_id {
            path.append("?snapshot_id=");
            path.append(integer_text(snapshot_id).as_str());
            has_query = true;
        }
        if team_ids.len() > 0 {
            path.append(
                if has_query {
                    "&team_ids="
                } else {
                    "?team_ids="
                },
            );
            path.append(join(team_ids, ",").as_str());
        }
        assert(path@ =~= chart_request(snapshot_id, team_ids.deep_view()));
        self.url(path.as_str())
    }

    fn url(&self, path: &str) -> (url: String)
        ensures
            url@ == self.base_url@ + path@,
    {
        let mut url = self.base_url.clone();
        url.append(path);
        url
    }
}

/// A request for a snapshot.
#[derive(Debug)]
pub struct SnapshotQuery {
    pub snapshot_id: Option<i64>,
}

/// A request for events.
#[derive(Debug)]
pub struct EventQuery {
    pub snapshot_id: Option<i64>,
    pub team: Option<String>,
    pub limit: Option<usize>,
}

/// A request for a chart.
#[derive(Debug)]
pub struct ChartQuery {
    pub snapshot_id: Option<i64>,
    pub team_ids: Option<String>,
}

/// The teams that a request names, with commas between them.
pub open spec fn teams_asked_for(team_ids: Option<Seq<char>>) -> Seq<Seq<char>> {
    match team_ids {
        Some(value) => text::filled_pieces(value, ','),
        None => Seq::empty(),
    }
}

/// The leaderboard that is asked for.
pub fn get_state(store: &Store, query: &SnapshotQuery) -> (answer: Result<LeaderboardState, StoreError>)
    ensures
        query::answers_state(
            store.deep_view(),
            SnapshotPolicy::AllowEmpty,
            query.snapshot_id,
            answer,
        ),
{
    load_state_at(store, SnapshotPolicy::AllowEmpty, query.snapshot_id)
}

/// Where the snapshot that is asked for stands among the others.
pub fn get_snapshot(store: &Store, query: &SnapshotQuery) -> (answer: SnapshotMeta)
    ensures
        answer == db::meta_of(store.deep_view(), query.snapshot_id),
{
    load_meta_at(store, query.snapshot_id)
}

/// The lines of the leaderboard that is asked for.
pub fn get_leaderboard(store: &Store, query: &SnapshotQuery) -> (answer: Result<
    Vec<LeaderboardViewRow>,
    StoreError,
>)
    ensures
        match answer {
            Ok(rows) => read::board_complete(store.deep_view(), query.snapshot_id)
                && read::is_leaderboard(store.deep_view(), query.snapshot_id, rows.deep_view()),
            Err(e) => e == StoreError::MissingValue && !read::board_complete(
                store.deep_view(),
                query.snapshot_id,
            ),
        },
{
    match load_state_at(store, SnapshotPolicy::AllowEmpty, query.snapshot_id) {
        Ok(state) => Ok(state.leaderboard),
        Err(e) => Err(e),
    }
}

/// The events that are asked for.
pub fn get_events(store: &Store, query: &EventQuery) -> (answer: Result<Vec<EventViewRow>, StoreError>)
    ensures
        query::answers_events(
            store.deep_view(),
            SnapshotPolicy::AllowEmpty,
            db::resolved(store.deep_view(), query.snapshot_id),
            query.team.deep_view(),
            match query.limit {
                Some(limit) => limit as nat,
                None => DEFAULT_EVENT_LIMIT as nat,
            },
            answer,
        ),
{
    let limit: usize = match query.limit {
        Some(limit) => limit,
        None => DEFAULT_EVENT_LIMIT,
    };
    let team: Option<&str> = match &query.team {
        Some(team) => Some(team.as_str()),
        None => None,
    };
    load_events_at(store, query.snapshot_id, team, limit, SnapshotPolicy::AllowEmpty)
}

/// The chart that is asked for.
pub fn get_chart(store: &Store, query: &ChartQuery) -> (answer: Result<Vec<TeamSeries>, StoreError>)
    ensures
        query::answers_chart(
            store.deep_view(),
            SnapshotPolicy::AllowEmpty,
            teams_asked_for(query.team_ids.deep_view()),
            db::resolved(store.deep_view(), query.snapshot_id),
            answer,
        ),
{
    let team_ids: Vec<String> = match &query.team_ids {
        Some(value) => split_filled(value.as_str(), ','),
        None => Vec::new(),
    };
    assert(team_ids.deep_view() =~= teams_asked_for(query.team_ids.deep_view()));
    load_chart_at(store, &team_ids, query.snapshot_id, SnapshotPolicy::AllowEmpty)
}

/// The answer to a request that failed.
#[derive(Debug)]
pub struct ApiError {
    pub status: u16,
    pub message: String,
}

/// The answer to a request that failed for that reason.
pub fn refuse(error: StoreError) -> (answer: ApiError)
    ensures
        answer.status == ERROR_STATUS,
        answer.message@ == db::error_text(error),
{
    ApiError { status: ERROR_STATUS, message: error.message().to_owned() }
}

/// The teams that a client asks for are the teams that the service answers for,
/// where each name is filled and holds no comma.
pub proof fn teams_asked_for_are_answered(team_ids: Seq<Seq<char>>)
    requires
        forall|i: int|
            0 <= i < team_ids.len() ==> (#[trigger] team_ids[i]).len() > 0
                && !team_ids[i].contains(','),
    ensures
        teams_asked_for(
            if team_ids.len() > 0 {
                Some(text::joined(team_ids, ","@))
            } else {
                None
            },
        ) == team_ids,
{
    reveal_strlit(",");
    assert(","@ =~= seq![',']);
    if team_ids.len() > 0 {
        assert forall|i: int| 0 <= i < team_ids.len() implies !(#[trigger] team_ids[i]).contains(
            ',',
        ) by {
            assert(team_ids[i].len() > 0);
        }
        text::filled_split_undoes_join(team_ids, ',');
    } else {
        assert(team_ids =~= Seq::<Seq<char>>::empty());
    }
}

/// Slashes at the end of the address make no difference.
pub proof fn trailing_slashes_are_ignored(base_url: Seq<char>)
    ensures
        text::without_tail(base_url.push('/'), '/') == text::without_tail(base_url, '/'),
{
    assert(base_url.push('/').drop_last() =~= base_url);
}

}
