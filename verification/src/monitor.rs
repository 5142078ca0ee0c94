//! The cycle of the service: a fetched leaderboard is compared with the history,
//! recorded where it changed, and told about.
use crate::bindings::{self, quote};
use crate::clock::{self, now};
use crate::db::insert::{self, insert_snapshot_at};
use crate::db::laws;
use crate::db::read::{self, previous_snapshot_rows};
use crate::db::{self, Store, StoreError, StoreView};
use crate::diff::{self, diff_rows, EventType, EventView, TeamEvent};
use crate::parse::{LeaderboardPage, PageView};
use crate::score::{self, Score, ScoreView};
use crate::text::{self, integer_text, join, natural_text};
use vstd::prelude::*;
use vstd::string::*;

verus! {

/// What people are told: a subject and a text.
#[derive(Debug)]
pub struct Notification {
    pub subject: String,
    pub body: String,
}

/// What a [`Notification`] holds.
#[verifier::ext_equal]
pub struct NotificationView {
    pub subject: Seq<char>,
    pub body: Seq<char>,
}

impl DeepView for Notification {
    type V = NotificationView;

    open spec fn deep_view(&self) -> NotificationView {
        NotificationView { subject: self.subject@, body: self.body@ }
    }
}

/// A rank; a missing one counts as zero.
pub open spec fn rank_text(rank: Option<i64>) -> Seq<char> {
    match rank {
        Some(rank) => text::decimal(rank as int),
        None => "0"@,
    }
}

/// A score with four digits behind the point; a missing one counts as zero.
pub open spec fn score_text(score: Option<ScoreView>) -> Seq<char> {
    match score {
        Some(score) => score.fixed,
        None => "0.0000"@,
    }
}

/// A version; a missing one is shown as a dash.
pub open spec fn version_text(version: Option<Seq<char>>) -> Seq<char> {
    match version {
        Some(version) => version,
        None => "-"@,
    }
}

/// A value that may be missing, with its presence spelled out.
pub open spec fn spelled(value: Option<Seq<char>>) -> Seq<char> {
    match value {
        Some(value) => "Some("@ + value + ")"@,
        None => "None"@,
    }
}

/// A rank with its presence spelled out.
pub open spec fn spelled_rank(rank: Option<i64>) -> Seq<char> {
    match rank {
        Some(rank) => spelled(Some(text::decimal(rank as int))),
        None => spelled(None),
    }
}

/// A score with its presence spelled out.
pub open spec fn spelled_score(score: Option<ScoreView>) -> Seq<char> {
    match score {
        Some(score) => spelled(Some(score.debug)),
        None => spelled(None),
    }
}

/// A version with its presence spelled out, given its quoted form.
pub open spec fn spelled_version(version: Option<Seq<char>>) -> Seq<char> {
    match version {
        Some(version) => spelled(Some(bindings::quoted(version))),
        None => spelled(None),
    }
}

/// The line that tells of an event.
pub open spec fn event_line(event: EventView) -> Seq<char> {
    match event.event_type {
        EventType::NewTeam => "+ "@ + event.team_id + " rank="@ + rank_text(event.new_rank)
            + " score="@ + score_text(event.new_score) + " version="@ + version_text(
            event.new_version,
        ),
        EventType::DroppedTeam => "- "@ + event.team_id + " rank="@ + rank_text(event.old_rank)
            + " score="@ + score_text(event.old_score) + " version="@ + version_text(
            event.old_version,
        ),
        EventType::RankChanged => "~ "@ + event.team_id + " rank "@ + rank_text(event.old_rank)
            + " -> "@ + rank_text(event.new_rank),
        EventType::ScoreChanged => "~ "@ + event.team_id + " score "@ + score_text(event.old_score)
            + " -> "@ + score_text(event.new_score),
        EventType::VersionChanged => "~ "@ + event.team_id + " version "@ + version_text(
            event.old_version,
        ) + " -> "@ + version_text(event.new_version),
        EventType::MultiChanged => "~ "@ + event.team_id + " rank "@ + spelled_rank(event.old_rank)
            + " score "@ + spelled_score(event.old_score) + " version "@ + spelled_version(
            event.old_version,
        ) + " -> "@ + spelled_rank(event.new_rank) + " "@ + spelled_score(event.new_score) + " "@
            + spelled_version(event.new_version),
    }
}

/// The lines that tell of the events.
pub open spec fn event_lines(events: Seq<EventView>) -> Seq<Seq<char>> {
    events.map_values(|event: EventView| event_line(event))
}

/// The text about the first leaderboard.
pub open spec fn initial_body(fetched_at: Seq<char>, team_count: nat, events: Seq<EventView>) -> Seq<
    char,
> {
    text::joined(
        seq![
            "Initial leaderboard snapshot created at "@ + fetched_at,
            "Tracked teams: "@ + text::decimal(team_count as int),
            Seq::empty(),
        ] + event_lines(events),
        "\n"@,
    )
}

/// The text about a changed leaderboard.
pub open spec fn update_body(fetched_at: Seq<char>, events: Seq<EventView>) -> Seq<char> {
    text::joined(
        seq!["Leaderboard updated at "@ + fetched_at, Seq::empty()] + event_lines(events),
        "\n"@,
    )
}

/// What people are told about a leaderboard.
pub open spec fn notification_of(
    is_initial_snapshot: bool,
    fetched_at: Seq<char>,
    team_count: nat,
    events: Seq<EventView>,
) -> NotificationView {
    if is_initial_snapshot {
        NotificationView {
            subject: "Initial leaderboard snapshot created ("@ + text::decimal(team_count as int)
                + " teams)"@,
            body: initial_body(fetched_at, team_count, events),
        }
    } else {
        NotificationView {
            subject: "Leaderboard updated ("@ + text::decimal(events.len() as int) + " changes)"@,
            body: update_body(fetched_at, events),
        }
    }
}

fn push_rank(out: &mut String, rank: Option<i64>)
    ensures
        final(out)@ == old(out)@ + rank_text(rank),
{
    match rank {
        Some(rank) => out.append(integer_text(rank).as_str()),
        None => out.append("0"),
    }
}

fn push_score(out: &mut String, score: &Option<Score>)
    ensures
        final(out)@ == old(out)@ + score_text(score.deep_view()),
{
    match score {
        Some(score) => out.append(score.fixed.as_str()),
        None => out.append("0.0000"),
    }
}

fn push_version(out: &mut String, version: &Option<String>)
    ensures
        final(out)@ == old(out)@ + version_text(version.deep_view()),
{
    match version {
        Some(version) => out.append(version.as_str()),
        None => out.append("-"),
    }
}

fn push_spelled(out: &mut String, value: Option<&str>)
    ensures
        final(out)@ == old(out)@ + spelled(value.deep_view()),
{
    let ghost before = out@;
    match value {
        Some(value) => {
            out.append("Some(");
            out.append(value);
            out.append(")");
        },
        None => out.append("None"),
    }
    assert(out@ =~= before + spelled(value.deep_view()));
}

fn push_spelled_rank(out: &mut String, rank: Option<i64>)
    ensures
        final(out)@ == old(out)@ + spelled_rank(rank),
{
    match rank {
        Some(rank) => push_spelled(out, Some(integer_text(rank).as_str())),
        None => push_spelled(out, None),
    }
}

fn push_spelled_score(out: &mut String, score: &Option<Score>)
    ensures
        final(out)@ == old(out)@ + spelled_score(score.deep_view()),
{
    match score {
        Some(score) => push_spelled(out, Some(score.debug.as_str())),
        None => push_spelled(out, None),
    }
}

fn push_spelled_version(out: &mut String, version: &Option<String>)
    ensures
        final(out)@ == old(out)@ + spelled_version(version.deep_view()),
{
    match version {
        Some(version) => push_spelled(out, Some(quote(version.as_str()).as_str())),
        None => push_spelled(out, None),
    }
}

/// The line that tells of an event.
pub fn format_event_line(event: &TeamEvent) -> (line: String)
    ensures
        line@ == event_line(event.deep_view()),
{
    match event.event_type {
        EventType::NewTeam => {
            let mut line = "+ ".to_owned();
            line.append(event.team_id.as_str());
            line.append(" rank=");
            push_rank(&mut line, event.new_rank);
            line.append(" score=");
            push_score(&mut line, &event.new_score);
            line.append(" version=");
            push_version(&mut line, &event.new_version);
            line
        },
        EventType::DroppedTeam => {
            let mut line = "- ".to_owned();
            line.append(event.team_id.as_str());
            line.append(" rank=");
            push_rank(&mut line, event.old_rank);
            line.append(" score=");
            push_score(&mut line, &event.old_score);
            line.append(" version=");
            push_version(&mut line, &event.old_version);
            line
        },
        EventType::RankChanged => {
            let mut line = "~ ".to_owned();
            line.append(event.team_id.as_str());
            line.append(" rank ");
            push_rank(&mut line, event.old_rank);
            line.append(" -> ");
            push_rank(&mut line, event.new_rank);
            line
        },
        EventType::ScoreChanged => {
            let mut line = "~ ".to_owned();
            line.append(event.team_id.as_str());
            line.append(" score ");
            push_score(&mut line, &event.old_score);
            line.append(" -> ");
            push_score(&mut line, &event.new_score);
            line
        },
        EventType::VersionChanged => {
            let mut line = "~ ".to_owned();
            line.append(event.team_id.as_str());
            line.append(" version ");
            push_version(&mut line, &event.old_version);
            line.append(" -> ");
            push_version(&mut line, &event.new_version);
            line
        },
        EventType::MultiChanged => {
            let mut line = "~ ".to_owned();
            line.append(event.team_id.as_str());
            line.append(" rank ");
            push_spelled_rank(&mut line, event.old_rank);
            line.append(" score ");
            push_spelled_score(&mut line, &event.old_score);
            line.append(" version ");
            push_spelled_version(&mut line, &event.old_version);
            line.append(" -> ");
            push_spelled_rank(&mut line, event.new_rank);
            line.append(" ");
            push_spelled_score(&mut line, &event.new_score);
            line.append(" ");
            push_spelled_version(&mut line, &event.new_version);
            line
        },
    }
}

/// The lines that tell of the events, in order.
pub fn format_event_lines(events: &Vec<TeamEvent>) -> (lines: Vec<String>)
    ensures
        lines.deep_view() == event_lines(events.deep_view()),
{
    let ghost all = events.deep_view();
    let mut lines: Vec<String> = Vec::new();
    let mut i: usize = 0;
    assert(lines.deep_view() =~= event_lines(all).take(0));
    while i < events.len()
        invariant
            i <= events@.len(),
            all == events.deep_view(),
            lines.deep_view() == event_lines(all).take(i as int),
        decreases events@.len() - i,
    {
        let ghost before = lines.deep_view();
        let line = format_event_line(&events[i]);
        let ghost view = line@;
        lines.push(line);
        proof {
            assert(all[i as int] == events@[i as int].deep_view());
            assert(lines.deep_view() =~= before.push(view));
            assert(event_lines(all).take(i + 1) =~= event_lines(all).take(i as int).push(view));
        }
        i += 1;
    }
    assert(event_lines(all).take(i as int) =~= event_lines(all));
    lines
}

/// The text about the first leaderboard.
pub fn format_initial_mail_body(fetched_at: &str, team_count: usize, events: &Vec<TeamEvent>) -> (body:
    String)
    ensures
        body@ == initial_body(fetched_at@, team_count as nat, events.deep_view()),
{
    let mut first = "Initial leaderboard snapshot created at ".to_owned();
    first.append(fetched_at);
    let mut second = "Tracked teams: ".to_owned();
    second.append(natural_text(team_count as u64).as_str());
    let third = String::new();
    let ghost heads = seq![first@, second@, third@];
    let mut lines: Vec<String> = Vec::new();
    lines.push(first);
    lines.push(second);
    lines.push(third);
    let mut more = format_event_lines(events);
    let ghost tail = more.deep_view();
    lines.append(&mut more);
    proof {
        assert(third@ =~= Seq::<char>::empty());
        assert(lines.deep_view() =~= heads + tail);
    }
    join(&lines, "\n")
}

/// The text about a changed leaderboard.
pub fn format_update_mail_body(fetched_at: &str, events: &Vec<TeamEvent>) -> (body: String)
    ensures
        body@ == update_body(fetched_at@, events.deep_view()),
{
    let mut first = "Leaderboard updated at ".to_owned();
    first.append(fetched_at);
    let second = String::new();
    let ghost heads = seq![first@, second@];
    let mut lines: Vec<String> = Vec::new();
    lines.push(first);
    lines.push(second);
    let mut more = format_event_lines(events);
    let ghost tail = more.deep_view();
    lines.append(&mut more);
    proof {
        assert(second@ =~= Seq::<char>::empty());
        assert(lines.deep_view() =~= heads + tail);
    }
    join(&lines, "\n")
}

/// What people are told about a leaderboard.
pub fn build_notification_message(
    is_initial_snapshot: bool,
    fetched_at: &str,
    team_count: usize,
    events: &Vec<TeamEvent>,
) -> (message: Notification)
    ensures
        message.deep_view() == notification_of(
            is_initial_snapshot,
            fetched_at@,
            team_count as nat,
            events.deep_view(),
        ),
{
    if is_initial_snapshot {
        let mut subject = "Initial leaderboard snapshot created (".to_owned();
        subject.append(natural_text(team_count as u64).as_str());
        subject.append(" teams)");
        let body = format_initial_mail_body(fetched_at, team_count, events);
        return Notification { subject, body };
    }
    let mut subject = "Leaderboard updated (".to_owned();
    subject.append(natural_text(events.len() as u64).as_str());
    subject.append(" changes)");
    let body = format_update_mail_body(fetched_at, events);
    Notification { subject, body }
}

/// The history after a cycle, and what people are told. A leaderboard that is the
/// same as the last one leaves the history as it is, and nobody is told.
pub open spec fn cycle_of(s: StoreView, page: PageView, time: Seq<char>) -> Result<
    (StoreView, Option<NotificationView>),
    StoreError,
> {
    let previous = read::previous_rows_of(s);
    let diff = diff::diff_of(previous, page.rows, page.source_updated_at);
    if !diff.changed {
        Ok((s, None))
    } else {
        match insert::snapshot_inserted(s, page.source_updated_at, page.rows, diff, time) {
            Ok(after) => Ok(
                (
                    after,
                    Some(
                        notification_of(
                            previous.len() == 0,
                            time,
                            page.rows.len(),
                            diff.events,
                        ),
                    ),
                ),
            ),
            Err(e) => Err(e),
        }
    }
}

/// Compares the leaderboard with the history and records it where it changed.
/// Gives what people are told, where there is something to tell.
pub fn run_fetch_cycle_at(store: &mut Store, page: &LeaderboardPage, fetched_at: &str) -> (result:
    Result<Option<Notification>, StoreError>)
    ensures
        match (result, cycle_of(old(store).deep_view(), page.deep_view(), fetched_at@)) {
            (Ok(message), Ok((after, expected))) => message.deep_view() == expected
                && final(store).deep_view() == after,
            (Err(e), Err(expected)) => e == expected && *final(store) == *old(store),
            _ => false,
        },
{
    let previous = previous_snapshot_rows(store);
    let date: Option<&str> = match &page.source_updated_at {
        Some(date) => Some(date.as_str()),
        None => None,
    };
    let diff = diff_rows(&previous, &page.rows, date);
    if !diff.changed {
        return Ok(None);
    }
    let is_initial_snapshot = previous.len() == 0;
    match insert_snapshot_at(store, date, &page.rows, &diff, fetched_at) {
        Ok(time) => Ok(
            Some(
                build_notification_message(
                    is_initial_snapshot,
                    time.as_str(),
                    page.rows.len(),
                    &diff.events,
                ),
            ),
        ),
        Err(e) => Err(e),
    }
}

/// Compares the leaderboard that is fetched now with the history and records it
/// where it changed. Gives what people are told, where there is something to tell.
pub fn run_fetch_cycle(store: &mut Store, page: &LeaderboardPage) -> (result: Result<
    Option<Notification>,
    StoreError,
>)
    ensures
        exists|time: Seq<char>|
            clock::is_now(time) && match (
                result,
                #[trigger] cycle_of(old(store).deep_view(), page.deep_view(), time),
            ) {
                (Ok(message), Ok((after, expected))) => message.deep_view() == expected
                    && final(store).deep_view() == after,
                (Err(e), Err(expected)) => e == expected && *final(store) == *old(store),
                _ => false,
            },
{
    let fetched_at = now();
    run_fetch_cycle_at(store, page, fetched_at.as_str())
}

/// A cycle keeps the tables fitting together.
pub proof fn cycle_keeps_valid(s: StoreView, page: PageView, time: Seq<char>)
    requires
        laws::valid(s),
    ensures
        cycle_of(s, page, time) matches Ok((after, message)) ==> laws::valid(after),
{
    let diff = diff::diff_of(read::previous_rows_of(s), page.rows, page.source_updated_at);
    if diff.changed && insert::snapshot_inserted(
        s,
        page.source_updated_at,
        page.rows,
        diff,
        time,
    ) is Ok {
        laws::insertion_keeps_valid(s, page.source_updated_at, page.rows, diff, time);
    }
}

/// A cycle on a valid history fails only where the page lists a team twice, or
/// where a numbering has given out its last number.
pub proof fn cycle_succeeds_iff_it_fits(s: StoreView, page: PageView, time: Seq<char>)
    requires
        laws::valid(s),
    ensures
        ({
            let diff = diff::diff_of(read::previous_rows_of(s), page.rows, page.source_updated_at);
            cycle_of(s, page, time) is Ok <==> !diff.changed || {
                &&& laws::teams_distinct(page.rows)
                &&& s.snapshot_seq < i64::MAX
                &&& s.team_seq + page.rows.len() + diff.dropped_team_ids.len() + laws::unlisted(
                    diff.events,
                    page.rows,
                ).len() <= i64::MAX
                &&& s.event_seq + diff.events.len() <= i64::MAX
            }
        }),
{
    let diff = diff::diff_of(read::previous_rows_of(s), page.rows, page.source_updated_at);
    laws::insertion_succeeds_iff_it_fits(s, page.source_updated_at, page.rows, diff, time);
    laws::drops_are_apart(s, page.rows, page.source_updated_at);
}

/// Nobody is told of a leaderboard that was recorded last, whatever its date, as
/// long as its scores are numbers; and the history stays as it is.
pub proof fn repeated_leaderboard_is_quiet(
    s: StoreView,
    page: PageView,
    time: Seq<char>,
    later_date: Option<Seq<char>>,
    later_time: Seq<char>,
)
    requires
        laws::valid(s),
        page.rows.len() > 0,
        forall|i: int|
            0 <= i < page.rows.len() ==> !score::is_nan((#[trigger] page.rows[i]).score.bits),
    ensures
        cycle_of(s, page, time) matches Ok((after, Some(message))) ==> cycle_of(
            after,
            PageView { source_updated_at: later_date, rows: page.rows },
            later_time,
        ) == Ok::<(StoreView, Option<NotificationView>), StoreError>((after, None)),
{
    let diff = diff::diff_of(read::previous_rows_of(s), page.rows, page.source_updated_at);
    if cycle_of(s, page, time) is Ok && diff.changed {
        laws::insertion_is_stable(
            s,
            page.source_updated_at,
            page.rows,
            diff,
            time,
            later_date,
        );
    }
}

/// The first leaderboard that is recorded is told of as the first one.
pub proof fn first_leaderboard_is_told_as_initial(s: StoreView, page: PageView, time: Seq<char>)
    requires
        s.snapshots.len() == 0,
    ensures
        cycle_of(s, page, time) matches Ok((after, message)) ==> message == Some(
            notification_of(
                true,
                time,
                page.rows.len(),
                diff::diff_of(Seq::empty(), page.rows, page.source_updated_at).events,
            ),
        ),
{
    let ids = db::snapshot_ids(s);
    db::greatest_below_is_greatest(ids, i64::MAX + 1);
    assert(read::previous_rows_of(s) =~= Seq::empty());
}

/// Once a leaderboard with rows is recorded, every later one is told of as an
/// update: the history never again counts as empty.
pub proof fn later_leaderboards_are_told_as_updates(
    s: StoreView,
    page: PageView,
    time: Seq<char>,
    later: PageView,
    later_time: Seq<char>,
)
    requires
        laws::valid(s),
        page.rows.len() > 0,
        cycle_of(s, page, time) is Ok,
    ensures
        ({
            let after = (cycle_of(s, page, time)->Ok_0).0;
            &&& read::previous_rows_of(after).len() > 0
            &&& cycle_of(after, later, later_time) matches Ok((end, Some(message))) ==> message
                == notification_of(
                false,
                later_time,
                later.rows.len(),
                diff::diff_of(
                    read::previous_rows_of(after),
                    later.rows,
                    later.source_updated_at,
                ).events,
            )
        }),
{
    let diff = diff::diff_of(read::previous_rows_of(s), page.rows, page.source_updated_at);
    if diff.changed {
        laws::read_gives_back_insertion(s, page.source_updated_at, page.rows, diff, time);
    }
}

/// People are told exactly where a snapshot is recorded: one message for each.
pub proof fn each_snapshot_is_told_once(s: StoreView, page: PageView, time: Seq<char>)
    requires
        laws::valid(s),
        cycle_of(s, page, time) is Ok,
    ensures
        ({
            let (after, message) = cycle_of(s, page, time)->Ok_0;
            &&& message is Some ==> after.snapshots.len() == s.snapshots.len() + 1
            &&& message is None ==> after == s
        }),
{
    let diff = diff::diff_of(read::previous_rows_of(s), page.rows, page.source_updated_at);
    if diff.changed {
        laws::insertion_appends(s, page.source_updated_at, page.rows, diff, time);
    }
}

/// Where the service stands.
#[derive(Debug, Clone, Copy, PartialEq, Eq, Structural)]
pub enum ServePhase {
    /// Nothing has begun.
    Idle,
    /// The only cycle runs.
    Once,
    /// The server is being started.
    Starting,
    /// A cycle runs.
    Fetching,
    /// A cycle runs for the last time.
    Draining,
    /// The next cycle is waited for.
    Sleeping,
    /// The server is being stopped.
    Stopping,
    /// The server has stopped by itself.
    Crashed,
    /// Everything has ended.
    Ended,
}

/// What happened.
#[derive(Debug, Clone, Copy, PartialEq, Eq, Structural)]
pub enum ServeEvent {
    /// The service is asked to run, for one cycle only or until it is stopped.
    Run { once: bool },
    /// The server was started, or could not be.
    ServerStarted { ok: bool },
    /// A cycle came to its end. `joined` tells whether it ran through at all,
    /// `ok` whether it succeeded, `server_finished` whether the server has
    /// stopped by itself meanwhile.
    CycleEnded { joined: bool, ok: bool, server_finished: bool },
    /// The service is asked to stop; `ok` tells whether that could be noticed.
    Signal { ok: bool },
    /// The time until the next cycle is over.
    SleepEnded { server_finished: bool },
    /// The server came to its end.
    ServerJoined { ok: bool },
}

/// What is to be done next.
#[derive(Debug, Clone, Copy, PartialEq, Eq, Structural)]
pub enum ServeAction {
    /// Start the server.
    StartServer,
    /// Start a cycle, and wait for its end or for a request to stop.
    StartCycle,
    /// Start a cycle, and wait for its end.
    StartOnlyCycle,
    /// Ask the server to stop, and wait for the end of the cycle that runs.
    FinishCycle,
    /// Wait for the interval to pass or for a request to stop.
    Sleep,
    /// Ask the server to stop, and wait for its end.
    StopServer,
    /// Wait for the end of the server.
    JoinServer,
    /// End, with success or not.
    Exit { ok: bool },
    /// Nothing: such an event does not belong here.
    Ignore,
}

/// What follows from an event.
pub open spec fn next_of(phase: ServePhase, event: ServeEvent) -> (ServePhase, ServeAction) {
    match (phase, event) {
        (ServePhase::Idle, ServeEvent::Run { once }) => if once {
            (ServePhase::Once, ServeAction::StartOnlyCycle)
        } else {
            (ServePhase::Starting, ServeAction::StartServer)
        },
        (ServePhase::Once, ServeEvent::CycleEnded { joined, ok, .. }) => (
            ServePhase::Ended,
            ServeAction::Exit { ok: joined && ok },
        ),
        (ServePhase::Starting, ServeEvent::ServerStarted { ok }) => if ok {
            (ServePhase::Fetching, ServeAction::StartCycle)
        } else {
            (ServePhase::Ended, ServeAction::Exit { ok: false })
        },
        (ServePhase::Fetching, ServeEvent::CycleEnded { joined, server_finished, .. }) => if !joined {
            (ServePhase::Ended, ServeAction::Exit { ok: false })
        } else if server_finished {
            (ServePhase::Crashed, ServeAction::JoinServer)
        } else {
            (ServePhase::Sleeping, ServeAction::Sleep)
        },
        (ServePhase::Fetching, ServeEvent::Signal { ok }) => if ok {
            (ServePhase::Draining, ServeAction::FinishCycle)
        } else {
            (ServePhase::Ended, ServeAction::Exit { ok: false })
        },
        (ServePhase::Draining, ServeEvent::CycleEnded { joined, .. }) => if joined {
            (ServePhase::Stopping, ServeAction::JoinServer)
        } else {
            (ServePhase::Ended, ServeAction::Exit { ok: false })
        },
        (ServePhase::Sleeping, ServeEvent::Signal { ok }) => if ok {
            (ServePhase::Stopping, ServeAction::StopServer)
        } else {
            (ServePhase::Ended, ServeAction::Exit { ok: false })
        },
        (ServePhase::Sleeping, ServeEvent::SleepEnded { server_finished }) => if server_finished {
            (ServePhase::Crashed, ServeAction::JoinServer)
        } else {
            (ServePhase::Fetching, ServeAction::StartCycle)
        },
        (ServePhase::Stopping, ServeEvent::ServerJoined { ok }) => (
            ServePhase::Ended,
            ServeAction::Exit { ok },
        ),
        (ServePhase::Crashed, ServeEvent::ServerJoined { ok }) => (
            ServePhase::Ended,
            ServeAction::Exit { ok },
        ),
        _ => (phase, ServeAction::Ignore),
    }
}

/// Tells what to do after an event, and where the service stands then.
pub fn serve_next(phase: ServePhase, event: ServeEvent) -> (next: (ServePhase, ServeAction))
    ensures
        next == next_of(phase, event),
{
    match (phase, event) {
        (ServePhase::Idle, ServeEvent::Run { once }) => if once {
            (ServePhase::Once, ServeAction::StartOnlyCycle)
        } else {
            (ServePhase::Starting, ServeAction::StartServer)
        },
        (ServePhase::Once, ServeEvent::CycleEnded { joined, ok, server_finished: _ }) => (
            ServePhase::Ended,
            ServeAction::Exit { ok: joined && ok },
        ),
        (ServePhase::Starting, ServeEvent::ServerStarted { ok }) => if ok {
            (ServePhase::Fetching, ServeAction::StartCycle)
        } else {
            (ServePhase::Ended, ServeAction::Exit { ok: false })
        },
        (ServePhase::Fetching, ServeEvent::CycleEnded { joined, ok: _, server_finished }) => if !joined {
            (ServePhase::Ended, ServeAction::Exit { ok: false })
        } else if server_finished {
            (ServePhase::Crashed, ServeAction::JoinServer)
        } else {
            (ServePhase::Sleeping, ServeAction::Sleep)
        },
        (ServePhase::Fetching, ServeEvent::Signal { ok }) => if ok {
            (ServePhase::Draining, ServeAction::FinishCycle)
        } else {
            (ServePhase::Ended, ServeAction::Exit { ok: false })
        },
        (ServePhase::Draining, ServeEvent::CycleEnded { joined, ok: _, server_finished: _ }) => if joined {
            (ServePhase::Stopping, ServeAction::JoinServer)
        } else {
            (ServePhase::Ended, ServeAction::Exit { ok: false })
        },
        (ServePhase::Sleeping, ServeEvent::Signal { ok }) => if ok {
            (ServePhase::Stopping, ServeAction::StopServer)
        } else {
            (ServePhase::Ended, ServeAction::Exit { ok: false })
        },
        (ServePhase::Sleeping, ServeEvent::SleepEnded { server_finished }) => if server_finished {
            (ServePhase::Crashed, ServeAction::JoinServer)
        } else {
            (ServePhase::Fetching, ServeAction::StartCycle)
        },
        (ServePhase::Stopping, ServeEvent::ServerJoined { ok }) => (
            ServePhase::Ended,
            ServeAction::Exit { ok },
        ),
        (ServePhase::Crashed, ServeEvent::ServerJoined { ok }) => (
            ServePhase::Ended,
            ServeAction::Exit { ok },
        ),
        _ => (phase, ServeAction::Ignore),
    }
}

/// The seconds between two cycles: at least one.
pub fn cycle_interval(interval_seconds: u64) -> (seconds: u64)
    ensures
        seconds == if interval_seconds == 0 {
            1
        } else {
            interval_seconds
        },
{
    if interval_seconds == 0 {
        1
    } else {
        interval_seconds
    }
}

/// The service for one cycle never starts the server, and ends with that cycle.
pub proof fn single_cycle_needs_no_server(event: ServeEvent)
    ensures
        next_of(ServePhase::Idle, ServeEvent::Run { once: true }) == (
            ServePhase::Once,
            ServeAction::StartOnlyCycle,
        ),
        next_of(ServePhase::Once, event).0 is Once || next_of(ServePhase::Once, event).0 is Ended,
{
}

/// A cycle that fails does not end the service: the next one is waited for.
pub proof fn failed_cycle_is_survived(ok: bool)
    ensures
        next_of(
            ServePhase::Fetching,
            ServeEvent::CycleEnded { joined: true, ok, server_finished: false },
        ) == (ServePhase::Sleeping, ServeAction::Sleep),
{
}

/// Whether the service is on its way to its end.
pub open spec fn is_closing(phase: ServePhase) -> bool {
    phase is Draining || phase is Stopping || phase is Crashed || phase is Ended
}

/// Once the service is on its way to its end it stays there, and no cycle is
/// started any more.
pub proof fn closing_starts_nothing(phase: ServePhase, event: ServeEvent)
    requires
        is_closing(phase),
    ensures
        is_closing(next_of(phase, event).0),
        next_of(phase, event).1 != ServeAction::StartCycle,
        next_of(phase, event).1 != ServeAction::StartOnlyCycle,
        next_of(phase, event).1 != ServeAction::StartServer,
{
}

/// A request to stop ends the service without breaking off a cycle: the one that
/// runs is waited for, then the server is stopped, then the service ends.
pub proof fn stop_is_graceful(ok: bool, server_finished: bool, joined: bool)
    ensures
        next_of(ServePhase::Fetching, ServeEvent::Signal { ok: true }) == (
            ServePhase::Draining,
            ServeAction::FinishCycle,
        ),
        next_of(
            ServePhase::Draining,
            ServeEvent::CycleEnded { joined: true, ok, server_finished },
        ) == (ServePhase::Stopping, ServeAction::JoinServer),
        next_of(ServePhase::Sleeping, ServeEvent::Signal { ok: true }) == (
            ServePhase::Stopping,
            ServeAction::StopServer,
        ),
        next_of(ServePhase::Stopping, ServeEvent::ServerJoined { ok: joined }) == (
            ServePhase::Ended,
            ServeAction::Exit { ok: joined },
        ),
{
}

/// What is said when a dummy history was made.
pub open spec fn dummy_message_of(path: Seq<char>, snapshots: nat, teams: nat) -> Seq<char> {
    "generated dummy database at "@ + path + " with "@ + text::decimal(
        if snapshots < 1 {
            1
        } else {
            snapshots as int
        },
    ) + " snapshots and "@ + text::decimal(
        if teams < 3 {
            3
        } else {
            teams as int
        },
    ) + " teams"@
}

/// What is said when a dummy history was made.
pub fn dummy_message(path: &str, snapshots: usize, teams: usize) -> (out: String)
    ensures
        out@ == dummy_message_of(path@, snapshots as nat, teams as nat),
{
    let mut out = "generated dummy database at ".to_owned();
    out.append(path);
    out.append(" with ");
    out.append(
        natural_text(
            if snapshots < 1 {
                1
            } else {
                snapshots as u64
            },
        ).as_str(),
    );
    out.append(" snapshots and ");
    out.append(
        natural_text(
            if teams < 3 {
                3
            } else {
                teams as u64
            },
        ).as_str(),
    );
    out.append(" teams");
    out
}

}
