//! What a client asks, and what it is answered.
use crate::api;
use crate::db::history::{self, EventViewRow, TeamSeries};
use crate::db::read;
use crate::db::{self, StoreError, StoreView};
use crate::fetch::{self, FetchError};
use crate::notify::{self, NotifyError};
use crate::parse::ParseError;
use crate::query::{self, SnapshotPolicy};
use crate::text;
use vstd::prelude::*;

verus! {

/// A request names what is asked for, and nothing else: a snapshot by its number, a
/// team by its name, the number of events, and teams with commas between them.
pub proof fn requests_name_what_is_asked_for(
    id: i64,
    team: Seq<char>,
    limit: nat,
    teams: Seq<Seq<char>>,
)
    ensures
        api::state_request(None) == "/api/v1/state"@,
        api::state_request(Some(id)) == "/api/v1/state"@ + "?snapshot_id="@ + text::decimal(
            id as int,
        ),
        api::events_request(None, None, limit) == "/api/v1/events"@ + "?limit="@ + text::decimal(
            limit as int,
        ),
        api::events_request(Some(id), None, limit) == api::events_request(None, None, limit)
            + "&snapshot_id="@ + text::decimal(id as int),
        api::events_request(None, Some(team), limit) == api::events_request(None, None, limit)
            + "&team="@ + team,
        api::events_request(Some(id), Some(team), limit) == api::events_request(
            Some(id),
            None,
            limit,
        ) + "&team="@ + team,
        api::chart_request(None, Seq::empty()) == "/api/v1/chart"@,
        api::chart_request(Some(id), Seq::empty()) == "/api/v1/chart"@ + "?snapshot_id="@
            + text::decimal(id as int),
        teams.len() > 0 ==> api::chart_request(None, teams) == "/api/v1/chart"@ + "?team_ids="@
            + text::joined(teams, ","@),
        teams.len() > 0 ==> api::chart_request(Some(id), teams) == "/api/v1/chart"@
            + "?snapshot_id="@ + text::decimal(id as int) + "&team_ids="@ + text::joined(
            teams,
            ","@,
        ),
{
    assert(api::state_request(None) =~= "/api/v1/state"@);
    assert(api::state_request(Some(id)) =~= "/api/v1/state"@ + "?snapshot_id="@ + text::decimal(
        id as int,
    ));
    let plain = "/api/v1/events"@ + "?limit="@ + text::decimal(limit as int);
    assert(api::events_request(None, None, limit) =~= plain);
    assert(api::events_request(Some(id), None, limit) =~= plain + "&snapshot_id="@ + text::decimal(
        id as int,
    ));
    assert(api::events_request(None, Some(team), limit) =~= plain + "&team="@ + team);
    assert(api::events_request(Some(id), Some(team), limit) =~= plain + "&snapshot_id="@
        + text::decimal(id as int) + "&team="@ + team);
    assert(api::chart_request(None, Seq::empty()) =~= "/api/v1/chart"@);
    assert(api::chart_request(Some(id), Seq::empty()) =~= "/api/v1/chart"@ + "?snapshot_id="@
        + text::decimal(id as int));
    if teams.len() > 0 {
        let named = text::joined(teams, ","@);
        assert(api::chart_request(None, teams) =~= "/api/v1/chart"@ + "?team_ids="@ + named);
        assert(api::chart_request(Some(id), teams) =~= "/api/v1/chart"@ + "?snapshot_id="@
            + text::decimal(id as int) + "&team_ids="@ + named);
    }
}

/// A request without teams is for no team; one with teams is for the filled pieces
/// between its commas.
pub proof fn teams_are_cut_at_commas(value: Seq<char>)
    ensures
        api::teams_asked_for(None).len() == 0,
        api::teams_asked_for(Some(value)) == text::filled_pieces(value, ','),
{
}

/// A history with a snapshot is always answered for. One without is answered for
/// only where that is allowed, and then without lines; else the answer is that there
/// is no snapshot yet.
pub proof fn empty_history_is_refused_or_empty(
    s: StoreView,
    policy: SnapshotPolicy,
    requested: Option<i64>,
    answer: Result<read::LeaderboardState, StoreError>,
)
    requires
        query::answers_state(s, policy, requested, answer),
    ensures
        s.snapshots.len() == 0 && policy == SnapshotPolicy::RequireExisting ==> answer == Err::<
            read::LeaderboardState,
            StoreError,
        >(StoreError::NoSnapshots),
        s.snapshots.len() == 0 && policy == SnapshotPolicy::AllowEmpty ==> (answer matches Ok(state)
            && state.leaderboard.deep_view().len() == 0),
        s.snapshots.len() > 0 ==> (answer matches Err(e) ==> e == StoreError::MissingValue),
        answer matches Ok(state) ==> read::is_leaderboard(
            s,
            requested,
            state.leaderboard.deep_view(),
        ) && state.snapshot == db::meta_of(s, requested),
{
    db::greatest_below_is_greatest(db::snapshot_ids(s), i64::MAX + 1);
}

/// The events of a history are answered with where it may be asked: the newest of
/// those that are asked for, as many as the limit allows.
pub proof fn events_are_answered_up_to_the_limit(
    s: StoreView,
    policy: SnapshotPolicy,
    id: Option<i64>,
    team: Option<Seq<char>>,
    limit: nat,
    answer: Result<Vec<EventViewRow>, StoreError>,
)
    requires
        query::answers_events(s, policy, id, team, limit, answer),
    ensures
        s.snapshots.len() == 0 && policy == SnapshotPolicy::RequireExisting <==> answer is Err,
        answer matches Err(e) ==> e == StoreError::NoSnapshots,
        answer matches Ok(events) ==> {
            let all = history::shown_events(s, id, team);
            &&& events.deep_view().len() == if all.len() < limit {
                all.len()
            } else {
                limit
            }
            &&& forall|i: int|
                0 <= i < events.deep_view().len() ==> #[trigger] events.deep_view()[i] == all[i]
        },
{
}

/// The development of the teams is answered with where the history may be asked and
/// the development can be drawn.
pub proof fn chart_is_answered_where_it_can_be_drawn(
    s: StoreView,
    policy: SnapshotPolicy,
    names: Seq<Seq<char>>,
    until: Option<i64>,
    answer: Result<Vec<TeamSeries>, StoreError>,
)
    requires
        query::answers_chart(s, policy, names, until, answer),
    ensures
        s.snapshots.len() == 0 && policy == SnapshotPolicy::RequireExisting ==> answer == Err::<
            Vec<TeamSeries>,
            StoreError,
        >(StoreError::NoSnapshots),
        s.snapshots.len() > 0 || policy == SnapshotPolicy::AllowEmpty ==> match (
            answer,
            history::series_of(s, history::distinct(names), until),
        ) {
            (Ok(series), Ok(expected)) => series.deep_view() == expected,
            (Err(e), Err(expected)) => e == expected,
            _ => false,
        },
{
}

/// Failures are reported in these words.
pub proof fn failures_are_reported_in_words()
    ensures
        db::error_text(StoreError::Full) == "database has no number left"@,
        db::error_text(StoreError::DuplicateEntry) == "snapshot holds a team twice"@,
        db::error_text(StoreError::MissingValue) == "snapshot entry lacks a value"@,
        db::error_text(StoreError::InvalidTime) == "invalid snapshot time"@,
        db::error_text(StoreError::NoSnapshots)
            == "database has no snapshots yet, start `lb-monitor serve` first"@,
        fetch::error_text(FetchError::NoBundle) == "failed to locate leaderboard bundle"@,
        fetch::error_text(FetchError::InvalidUrl) == "invalid leaderboard url"@,
        fetch::error_text(FetchError::InvalidBundleUrl)
            == "failed to resolve leaderboard bundle url"@,
        fetch::error_text(FetchError::Parse(ParseError::NoRowsInPage))
            == "no leaderboard rows found in page"@,
        fetch::error_text(FetchError::Parse(ParseError::NoRowsInBundle))
            == "no leaderboard rows found in bundle"@,
        notify::error_text(NotifyError::NoHost) == "smtp host is required when mail is enabled"@,
        notify::error_text(NotifyError::NoSender) == "smtp from is required when mail is enabled"@,
        notify::error_text(NotifyError::InvalidSender) == "failed to parse smtp from address"@,
        notify::error_text(NotifyError::InvalidRecipient) == "failed to parse smtp recipient"@,
        notify::error_text(NotifyError::NoRecipients) == "at least one smtp recipient is required"@,
        notify::error_text(NotifyError::InvalidMail) == "failed to build mail message"@,
{
}

}
