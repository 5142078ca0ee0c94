//! What people are told, and when.
use crate::bindings;
use crate::db::insert;
use crate::db::laws;
use crate::db::read;
use crate::db::{StoreError, StoreView};
use crate::diff::{self, EventType, EventView};
use crate::monitor::{self, ServeAction, ServeEvent, ServePhase};
use crate::parse::PageView;
use crate::promises::compare;
use crate::score::ScoreView;
use crate::text;
use vstd::prelude::*;

verus! {

/// Every event has a line of its own, in the order of the events.
pub proof fn every_event_has_its_line(events: Seq<EventView>)
    ensures
        monitor::event_lines(events).len() == events.len(),
        forall|i: int|
            0 <= i < events.len() ==> #[trigger] monitor::event_lines(events)[i]
                == monitor::event_line(events[i]),
{
}

/// A rank as it is told; zero where it is missing.
pub open spec fn told_rank(rank: Option<i64>) -> Seq<char> {
    if rank is Some {
        text::decimal(rank->Some_0 as int)
    } else {
        "0"@
    }
}

/// A score as it is told, with four digits behind the point; zero where it is
/// missing.
pub open spec fn told_score(score: Option<ScoreView>) -> Seq<char> {
    if score is Some {
        score->Some_0.fixed
    } else {
        "0.0000"@
    }
}

/// A version as it is told; a dash where it is missing.
pub open spec fn told_version(version: Option<Seq<char>>) -> Seq<char> {
    if version is Some {
        version->Some_0
    } else {
        "-"@
    }
}

/// A rank with its presence spelled out.
pub open spec fn spelled_rank(rank: Option<i64>) -> Seq<char> {
    if rank is Some {
        "Some("@ + text::decimal(rank->Some_0 as int) + ")"@
    } else {
        "None"@
    }
}

/// A score with its presence spelled out.
pub open spec fn spelled_score(score: Option<ScoreView>) -> Seq<char> {
    if score is Some {
        "Some("@ + score->Some_0.debug + ")"@
    } else {
        "None"@
    }
}

/// A version with its presence spelled out, in quotes.
pub open spec fn spelled_version(version: Option<Seq<char>>) -> Seq<char> {
    if version is Some {
        "Some("@ + bindings::quoted(version->Some_0) + ")"@
    } else {
        "None"@
    }
}

/// The line of an event begins with a mark for its kind and the team, and has the
/// values that count: those of a team that came or went, the one that changed before
/// and after, or all of them before and after.
pub proof fn line_tells_the_event(event: EventView)
    ensures
        ({
            let line = monitor::event_line(event);
            let team = event.team_id;
            &&& event.event_type == EventType::NewTeam ==> line == "+ "@ + team + " rank="@
                + told_rank(event.new_rank) + " score="@ + told_score(event.new_score)
                + " version="@ + told_version(event.new_version)
            &&& event.event_type == EventType::DroppedTeam ==> line == "- "@ + team + " rank="@
                + told_rank(event.old_rank) + " score="@ + told_score(event.old_score)
                + " version="@ + told_version(event.old_version)
            &&& event.event_type == EventType::RankChanged ==> line == "~ "@ + team + " rank "@
                + told_rank(event.old_rank) + " -> "@ + told_rank(event.new_rank)
            &&& event.event_type == EventType::ScoreChanged ==> line == "~ "@ + team + " score "@
                + told_score(event.old_score) + " -> "@ + told_score(event.new_score)
            &&& event.event_type == EventType::VersionChanged ==> line == "~ "@ + team
                + " version "@ + told_version(event.old_version) + " -> "@ + told_version(
                event.new_version,
            )
            &&& event.event_type == EventType::MultiChanged ==> line == "~ "@ + team + " rank "@
                + spelled_rank(event.old_rank) + " score "@ + spelled_score(event.old_score)
                + " version "@ + spelled_version(event.old_version) + " -> "@ + spelled_rank(
                event.new_rank,
            ) + " "@ + spelled_score(event.new_score) + " "@ + spelled_version(event.new_version)
        }),
{
}

/// A mail about changes counts the events in its subject and has one line for each
/// of them, however many there are; the first mail counts the teams.
pub proof fn mail_tells_every_event(
    time: Seq<char>,
    team_count: nat,
    events: Seq<EventView>,
    lines: Seq<Seq<char>>,
)
    requires
        lines.len() == events.len(),
        forall|i: int|
            0 <= i < events.len() ==> #[trigger] lines[i] == monitor::event_line(events[i]),
    ensures
        ({
            let update = monitor::notification_of(false, time, team_count, events);
            let first = monitor::notification_of(true, time, team_count, events);
            &&& update.subject == "Leaderboard updated ("@ + text::decimal(events.len() as int)
                + " changes)"@
            &&& update.body == text::joined(
                seq!["Leaderboard updated at "@ + time, ""@] + lines,
                "\n"@,
            )
            &&& first.subject == "Initial leaderboard snapshot created ("@ + text::decimal(
                team_count as int,
            ) + " teams)"@
            &&& first.body == text::joined(
                seq![
                    "Initial leaderboard snapshot created at "@ + time,
                    "Tracked teams: "@ + text::decimal(team_count as int),
                    ""@,
                ] + lines,
                "\n"@,
            )
        }),
{
    reveal_strlit("");
    assert(""@ =~= Seq::<char>::empty());
    assert(lines =~= monitor::event_lines(events));
}

/// A leaderboard that differs in any way from the recorded one, or is the first, is
/// recorded and told of; the message has the events of the comparison.
pub proof fn changes_are_recorded_and_told(s: StoreView, page: PageView, time: Seq<char>)
    requires
        laws::valid(s),
        monitor::cycle_of(s, page, time) is Ok,
    ensures
        ({
            let previous = read::previous_rows_of(s);
            let told = diff::diff_of(previous, page.rows, page.source_updated_at);
            let (after, message) = monitor::cycle_of(s, page, time)->Ok_0;
            &&& previous.len() == 0 || told.events.len() > 0 ==> {
                &&& insert::snapshot_inserted(
                    s,
                    page.source_updated_at,
                    page.rows,
                    told,
                    time,
                ) == Ok::<StoreView, StoreError>(after)
                &&& after.snapshots.len() == s.snapshots.len() + 1
                &&& after.snapshots[s.snapshots.len() as int].fetched_at == time
                &&& after.snapshots[s.snapshots.len() as int].source_updated_at
                    == page.source_updated_at
                &&& message == Some(
                    monitor::notification_of(
                        previous.len() == 0,
                        time,
                        page.rows.len(),
                        told.events,
                    ),
                )
            }
            &&& previous.len() > 0 && told.events.len() == 0 ==> after == s && message is None
        }),
{
    let previous = read::previous_rows_of(s);
    let told = diff::diff_of(previous, page.rows, page.source_updated_at);
    let (listed, lost) = compare::comparison_in_full(
        previous,
        page.rows,
        page.source_updated_at,
    );
    if told.changed {
        laws::insertion_appends(s, page.source_updated_at, page.rows, told, time);
    }
}

/// A team whose rank, score or version is not as recorded, in whichever direction it
/// moved, makes its leaderboard recorded and told of.
pub proof fn any_change_of_a_team_is_told(
    s: StoreView,
    page: PageView,
    time: Seq<char>,
    i: int,
    p: int,
)
    requires
        laws::valid(s),
        monitor::cycle_of(s, page, time) is Ok,
        0 <= i < page.rows.len(),
        compare::is_record_of(read::previous_rows_of(s), p, page.rows[i].team_id),
        !compare::same_values(read::previous_rows_of(s)[p].entry, page.rows[i]),
    ensures
        (monitor::cycle_of(s, page, time)->Ok_0).1 is Some,
        (monitor::cycle_of(s, page, time)->Ok_0).0.snapshots.len() == s.snapshots.len() + 1,
{
    let previous = read::previous_rows_of(s);
    let (listed, lost) = compare::comparison_in_full(
        previous,
        page.rows,
        page.source_updated_at,
    );
    assert(listed.contains(i));
    changes_are_recorded_and_told(s, page, time);
}

/// The service starts with its server, runs a cycle, waits, and runs the next one;
/// it goes on like that until it is stopped or its server ends.
pub proof fn cycles_follow_one_another(ok: bool)
    ensures
        monitor::next_of(ServePhase::Idle, ServeEvent::Run { once: false }) == (
            ServePhase::Starting,
            ServeAction::StartServer,
        ),
        monitor::next_of(ServePhase::Starting, ServeEvent::ServerStarted { ok: true }) == (
            ServePhase::Fetching,
            ServeAction::StartCycle,
        ),
        monitor::next_of(
            ServePhase::Fetching,
            ServeEvent::CycleEnded { joined: true, ok, server_finished: false },
        ) == (ServePhase::Sleeping, ServeAction::Sleep),
        monitor::next_of(
            ServePhase::Sleeping,
            ServeEvent::SleepEnded { server_finished: false },
        ) == (ServePhase::Fetching, ServeAction::StartCycle),
{
}

/// The service ends with the success of what it ended with: of its only cycle, or of
/// its server. Where the server, a cycle or the request to stop cannot be had, it
/// ends without success.
pub proof fn service_ends_with_what_it_ran(joined: bool, ok: bool, server_finished: bool)
    ensures
        monitor::next_of(
            ServePhase::Once,
            ServeEvent::CycleEnded { joined, ok, server_finished },
        ) == (ServePhase::Ended, ServeAction::Exit { ok: joined && ok }),
        monitor::next_of(ServePhase::Starting, ServeEvent::ServerStarted { ok: false }) == (
            ServePhase::Ended,
            ServeAction::Exit { ok: false },
        ),
        monitor::next_of(
            ServePhase::Fetching,
            ServeEvent::CycleEnded { joined: false, ok, server_finished },
        ) == (ServePhase::Ended, ServeAction::Exit { ok: false }),
        monitor::next_of(
            ServePhase::Draining,
            ServeEvent::CycleEnded { joined: false, ok, server_finished },
        ) == (ServePhase::Ended, ServeAction::Exit { ok: false }),
        monitor::next_of(ServePhase::Fetching, ServeEvent::Signal { ok: false }) == (
            ServePhase::Ended,
            ServeAction::Exit { ok: false },
        ),
        monitor::next_of(ServePhase::Sleeping, ServeEvent::Signal { ok: false }) == (
            ServePhase::Ended,
            ServeAction::Exit { ok: false },
        ),
        monitor::next_of(
            ServePhase::Fetching,
            ServeEvent::CycleEnded { joined: true, ok, server_finished: true },
        ) == (ServePhase::Crashed, ServeAction::JoinServer),
        monitor::next_of(ServePhase::Sleeping, ServeEvent::SleepEnded { server_finished: true })
            == (ServePhase::Crashed, ServeAction::JoinServer),
        monitor::next_of(ServePhase::Crashed, ServeEvent::ServerJoined { ok }) == (
            ServePhase::Ended,
            ServeAction::Exit { ok },
        ),
        monitor::next_of(ServePhase::Stopping, ServeEvent::ServerJoined { ok }) == (
            ServePhase::Ended,
            ServeAction::Exit { ok },
        ),
{
}

/// Nothing follows once the service has ended.
pub proof fn ended_is_ended(event: ServeEvent)
    ensures
        monitor::next_of(ServePhase::Ended, event) == (ServePhase::Ended, ServeAction::Ignore),
{
}

/// What is said of a made-up history has its path and how much was made.
pub proof fn dummy_message_counts(path: Seq<char>, snapshots: nat, teams: nat)
    requires
        snapshots >= 1,
        teams >= 3,
    ensures
        monitor::dummy_message_of(path, snapshots, teams) == "generated dummy database at "@ + path
            + " with "@ + text::decimal(snapshots as int) + " snapshots and "@ + text::decimal(
            teams as int,
        ) + " teams"@,
        monitor::dummy_message_of(path, 0, teams) == monitor::dummy_message_of(path, 1, teams),
        monitor::dummy_message_of(path, snapshots, 0) == monitor::dummy_message_of(
            path,
            snapshots,
            3,
        ),
        monitor::dummy_message_of(path, snapshots, 2) == monitor::dummy_message_of(
            path,
            snapshots,
            3,
        ),
{
}

}
