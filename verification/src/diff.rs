//! Comparing a leaderboard with the one stored before.
use crate::bindings::{self, hex_encode, sha256};
use crate::parse::{LeaderboardRow, RowView};
use crate::score::{self, bits_equal, Score, ScoreView};
use crate::text::same_text;
use vstd::prelude::*;

verus! {

/// What happened to a team between two snapshots.
#[derive(Debug, Clone, Copy, PartialEq, Eq, Structural)]
pub enum EventType {
    NewTeam,
    DroppedTeam,
    RankChanged,
    ScoreChanged,
    VersionChanged,
    MultiChanged,
}

/// The name under which an event type is stored.
pub open spec fn event_name(event: EventType) -> Seq<char> {
    match event {
        EventType::NewTeam => "new_team"@,
        EventType::DroppedTeam => "dropped_team"@,
        EventType::RankChanged => "rank_changed"@,
        EventType::ScoreChanged => "score_changed"@,
        EventType::VersionChanged => "version_changed"@,
        EventType::MultiChanged => "multi_changed"@,
    }
}

impl EventType {
    /// The name under which the event type is stored.
    pub fn as_str(self) -> (name: &'static str)
        ensures
            name@ == event_name(self),
    {
        match self {
            EventType::NewTeam => "new_team",
            EventType::DroppedTeam => "dropped_team",
            EventType::RankChanged => "rank_changed",
            EventType::ScoreChanged => "score_changed",
            EventType::VersionChanged => "version_changed",
            EventType::MultiChanged => "multi_changed",
        }
    }
}

/// What the previous snapshot recorded of a team. A team that was dropped in
/// that snapshot is recorded as not present, without values.
#[derive(Debug)]
pub struct PreviousEntry {
    pub rank: Option<i64>,
    pub score: Option<Score>,
    pub version: Option<String>,
    pub present: bool,
}

/// What a [`PreviousEntry`] holds.
#[verifier::ext_equal]
pub struct PreviousView {
    pub rank: Option<i64>,
    pub score: Option<ScoreView>,
    pub version: Option<Seq<char>>,
    pub present: bool,
}

impl DeepView for PreviousEntry {
    type V = PreviousView;

    open spec fn deep_view(&self) -> PreviousView {
        PreviousView {
            rank: self.rank,
            score: self.score.deep_view(),
            version: self.version.deep_view(),
            present: self.present,
        }
    }
}

/// A team of the previous snapshot.
#[derive(Debug)]
pub struct PreviousTeam {
    pub team_id: String,
    pub entry: PreviousEntry,
}

/// What a [`PreviousTeam`] holds.
#[verifier::ext_equal]
pub struct PreviousTeamView {
    pub team_id: Seq<char>,
    pub entry: PreviousView,
}

impl DeepView for PreviousTeam {
    type V = PreviousTeamView;

    open spec fn deep_view(&self) -> PreviousTeamView {
        PreviousTeamView { team_id: self.team_id@, entry: self.entry.deep_view() }
    }
}

/// A change of one team, with the values before and after.
#[derive(Debug)]
pub struct TeamEvent {
    pub team_id: String,
    pub event_type: EventType,
    pub old_rank: Option<i64>,
    pub new_rank: Option<i64>,
    pub old_score: Option<Score>,
    pub new_score: Option<Score>,
    pub old_version: Option<String>,
    pub new_version: Option<String>,
}

/// What a [`TeamEvent`] holds.
#[verifier::ext_equal]
pub struct EventView {
    pub team_id: Seq<char>,
    pub event_type: EventType,
    pub old_rank: Option<i64>,
    pub new_rank: Option<i64>,
    pub old_score: Option<ScoreView>,
    pub new_score: Option<ScoreView>,
    pub old_version: Option<Seq<char>>,
    pub new_version: Option<Seq<char>>,
}

impl DeepView for TeamEvent {
    type V = EventView;

    open spec fn deep_view(&self) -> EventView {
        EventView {
            team_id: self.team_id@,
            event_type: self.event_type,
            old_rank: self.old_rank,
            new_rank: self.new_rank,
            old_score: self.old_score.deep_view(),
            new_score: self.new_score.deep_view(),
            old_version: self.old_version.deep_view(),
            new_version: self.new_version.deep_view(),
        }
    }
}

/// The outcome of a comparison.
#[derive(Debug)]
pub struct DiffResult {
    pub changed: bool,
    pub content_hash: String,
    pub events: Vec<TeamEvent>,
    pub dropped_team_ids: Vec<String>,
}

/// What a [`DiffResult`] holds.
#[verifier::ext_equal]
pub struct DiffView {
    pub changed: bool,
    pub content_hash: Seq<char>,
    pub events: Seq<EventView>,
    pub dropped_team_ids: Seq<Seq<char>>,
}

impl DeepView for DiffResult {
    type V = DiffView;

    open spec fn deep_view(&self) -> DiffView {
        DiffView {
            changed: self.changed,
            content_hash: self.content_hash@,
            events: self.events.deep_view(),
            dropped_team_ids: self.dropped_team_ids.deep_view(),
        }
    }
}

/// What the list records of a team: the first entry under its name.
pub open spec fn entry_of(previous: Seq<PreviousTeamView>, team_id: Seq<char>) -> Option<
    PreviousView,
>
    decreases previous.len(),
{
    if previous.len() == 0 {
        None
    } else if previous[0].team_id == team_id {
        Some(previous[0].entry)
    } else {
        entry_of(previous.drop_first(), team_id)
    }
}

/// Whether some row is of the team.
pub open spec fn lists_team(rows: Seq<RowView>, team_id: Seq<char>) -> bool {
    exists|i: int| 0 <= i < rows.len() && #[trigger] rows[i].team_id == team_id
}

pub open spec fn rank_differs(entry: PreviousView, row: RowView) -> bool {
    entry.rank != Some(row.rank)
}

pub open spec fn score_differs(entry: PreviousView, row: RowView) -> bool {
    match entry.score {
        Some(score) => !score::score_eq(score.bits, row.score.bits),
        None => true,
    }
}

pub open spec fn version_differs(entry: PreviousView, row: RowView) -> bool {
    entry.version != Some(row.version)
}

/// Whether the row says anything else than the entry: a value differs, or the
/// team was not present before.
pub open spec fn differs(entry: PreviousView, row: RowView) -> bool {
    rank_differs(entry, row) || score_differs(entry, row) || version_differs(entry, row)
        || !entry.present
}

/// The type of a change: the name of the single value that differs, or that of
/// a change in several respects. A team that is present again has changed in
/// several respects.
pub open spec fn change_type(entry: PreviousView, row: RowView) -> EventType {
    let rank = rank_differs(entry, row);
    let score = score_differs(entry, row);
    let version = version_differs(entry, row);
    if entry.present && rank && !score && !version {
        EventType::RankChanged
    } else if entry.present && !rank && score && !version {
        EventType::ScoreChanged
    } else if entry.present && !rank && !score && version {
        EventType::VersionChanged
    } else {
        EventType::MultiChanged
    }
}

/// The event of a row, where it differs from what was recorded.
pub open spec fn row_event(previous: Seq<PreviousTeamView>, row: RowView) -> Option<EventView> {
    match entry_of(previous, row.team_id) {
        None => Some(
            EventView {
                team_id: row.team_id,
                event_type: EventType::NewTeam,
                old_rank: None,
                new_rank: Some(row.rank),
                old_score: None,
                new_score: Some(row.score),
                old_version: None,
                new_version: Some(row.version),
            },
        ),
        Some(entry) => if differs(entry, row) {
            Some(
                EventView {
                    team_id: row.team_id,
                    event_type: change_type(entry, row),
                    old_rank: entry.rank,
                    new_rank: Some(row.rank),
                    old_score: entry.score,
                    new_score: Some(row.score),
                    old_version: entry.version,
                    new_version: Some(row.version),
                },
            )
        } else {
            None
        },
    }
}

/// Whether a recorded team was present and is listed no more.
pub open spec fn is_dropped(rows: Seq<RowView>, team: PreviousTeamView) -> bool {
    team.entry.present && !lists_team(rows, team.team_id)
}

/// The event of a team that is listed no more.
pub open spec fn drop_event(team: PreviousTeamView) -> EventView {
    EventView {
        team_id: team.team_id,
        event_type: EventType::DroppedTeam,
        old_rank: team.entry.rank,
        new_rank: None,
        old_score: team.entry.score,
        new_score: None,
        old_version: team.entry.version,
        new_version: None,
    }
}

/// The events of the rows, in the order of the rows.
pub open spec fn row_events(previous: Seq<PreviousTeamView>, rows: Seq<RowView>) -> Seq<EventView> {
    rows.filter_map(|row: RowView| row_event(previous, row))
}

/// The recorded teams that are listed no more, in the order of the record.
pub open spec fn dropped_teams(previous: Seq<PreviousTeamView>, rows: Seq<RowView>) -> Seq<
    PreviousTeamView,
> {
    previous.filter(|team: PreviousTeamView| is_dropped(rows, team))
}

/// The low `n` bytes of `x`, the lowest first.
pub open spec fn le_bytes(x: nat, n: nat) -> Seq<u8>
    decreases n,
{
    if n == 0 {
        Seq::empty()
    } else {
        seq![(x % 256) as u8] + le_bytes(x / 256, (n - 1) as nat)
    }
}

/// A signed number of 64 bits as its two's complement.
pub open spec fn twos_complement(n: i64) -> nat {
    if n >= 0 {
        n as nat
    } else {
        (n + 0x1_0000_0000_0000_0000) as nat
    }
}

/// The bytes of one row: its rank, its team, its score and its version.
pub open spec fn row_bytes(row: RowView) -> Seq<u8> {
    le_bytes(twos_complement(row.rank), 8) + vstd::utf8::encode_utf8(row.team_id) + le_bytes(
        row.score.bits as nat,
        8,
    ) + vstd::utf8::encode_utf8(row.version)
}

/// The bytes that stand for a leaderboard: its date, then its rows.
pub open spec fn content_bytes(rows: Seq<RowView>, source_updated_at: Option<Seq<char>>) -> Seq<u8>
    decreases rows.len(),
{
    if rows.len() == 0 {
        match source_updated_at {
            Some(date) => vstd::utf8::encode_utf8(date),
            None => Seq::empty(),
        }
    } else {
        content_bytes(rows.drop_last(), source_updated_at) + row_bytes(rows.last())
    }
}

/// The hash of a leaderboard.
pub open spec fn content_hash(rows: Seq<RowView>, source_updated_at: Option<Seq<char>>) -> Seq<
    char,
> {
    bindings::hex_text(bindings::sha256_digest(content_bytes(rows, source_updated_at)))
}

/// The comparison of a leaderboard with what was recorded before.
pub open spec fn diff_of(
    previous: Seq<PreviousTeamView>,
    rows: Seq<RowView>,
    source_updated_at: Option<Seq<char>>,
) -> DiffView {
    let dropped = dropped_teams(previous, rows);
    let events = row_events(previous, rows) + dropped.map_values(
        |team: PreviousTeamView| drop_event(team),
    );
    DiffView {
        changed: previous.len() == 0 || events.len() > 0,
        content_hash: content_hash(rows, source_updated_at),
        events,
        dropped_team_ids: dropped.map_values(|team: PreviousTeamView| team.team_id),
    }
}

/// Finds what the list records of a team.
fn find_entry<'a>(previous: &'a Vec<PreviousTeam>, team_id: &str) -> (found: Option<
    &'a PreviousEntry,
>)
    ensures
        found.deep_view() == entry_of(previous.deep_view(), team_id@),
{
    let ghost all = previous.deep_view();
    let mut i: usize = 0;
    assert(all.skip(0) =~= all);
    while i < previous.len()
        invariant
            i <= previous@.len(),
            all == previous.deep_view(),
            entry_of(all.skip(i as int), team_id@) == entry_of(all, team_id@),
        decreases previous@.len() - i,
    {
        assert(all.skip(i as int)[0] == previous@[i as int].deep_view());
        if same_text(previous[i].team_id.as_str(), team_id) {
            return Some(&previous[i].entry);
        }
        assert(all.skip(i as int).drop_first() =~= all.skip(i + 1));
        i += 1;
    }
    None
}

/// Whether some row is of the team.
pub fn has_row(rows: &Vec<LeaderboardRow>, team_id: &str) -> (found: bool)
    ensures
        found == lists_team(rows.deep_view(), team_id@),
{
    let ghost all = rows.deep_view();
    let mut i: usize = 0;
    while i < rows.len()
        invariant
            i <= rows@.len(),
            all == rows.deep_view(),
            forall|k: int| 0 <= k < i ==> (#[trigger] all[k]).team_id != team_id@,
        decreases rows@.len() - i,
    {
        assert(all[i as int] == rows@[i as int].deep_view());
        if same_text(rows[i].team_id.as_str(), team_id) {
            assert(all[i as int].team_id == team_id@);
            return true;
        }
        i += 1;
    }
    false
}

fn push_le_bytes(out: &mut Vec<u8>, x: u64)
    ensures
        final(out)@ == old(out)@ + le_bytes(x as nat, 8),
{
    let ghost start = out@;
    let mut rest: u64 = x;
    let mut i: u64 = 0;
    assert(start + le_bytes(x as nat, 8) =~= out@ + le_bytes(rest as nat, 8));
    while i < 8
        invariant
            i <= 8,
            start + le_bytes(x as nat, 8) == out@ + le_bytes(rest as nat, (8 - i) as nat),
        decreases 8 - i,
    {
        let ghost before = out@;
        out.push((rest % 256) as u8);
        proof {
            assert(before + le_bytes(rest as nat, (8 - i) as nat) =~= out@ + le_bytes(
                (rest / 256) as nat,
                (8 - i - 1) as nat,
            ));
        }
        rest = rest / 256;
        i += 1;
    }
    assert(out@ + le_bytes(rest as nat, 0) =~= out@);
}

fn push_text(out: &mut Vec<u8>, text: &str)
    ensures
        final(out)@ == old(out)@ + vstd::utf8::encode_utf8(text@),
{
    let ghost before = out@;
    let bytes = text.as_bytes();
    out.extend_from_slice(bytes);
    assert(out@ =~= before + bytes@);
}

/// The bytes that stand for a leaderboard: its date, then its rows.
pub fn content(rows: &Vec<LeaderboardRow>, source_updated_at: Option<&str>) -> (data: Vec<u8>)
    ensures
        data@ == content_bytes(rows.deep_view(), source_updated_at.deep_view()),
{
    let ghost all = rows.deep_view();
    let ghost date = source_updated_at.deep_view();
    let mut data: Vec<u8> = Vec::new();
    if let Some(text) = source_updated_at {
        push_text(&mut data, text);
    }
    assert(all.take(0) =~= Seq::<RowView>::empty());
    assert(data@ =~= content_bytes(all.take(0), date));
    let mut i: usize = 0;
    while i < rows.len()
        invariant
            i <= rows@.len(),
            all == rows.deep_view(),
            data@ == content_bytes(all.take(i as int), date),
        decreases rows@.len() - i,
    {
        let row = &rows[i];
        let ghost before = data@;
        let rank: u64 = if row.rank >= 0 {
            row.rank as u64
        } else {
            (row.rank as i128 + 0x1_0000_0000_0000_0000) as u64
        };
        push_le_bytes(&mut data, rank);
        push_text(&mut data, row.team_id.as_str());
        push_le_bytes(&mut data, row.score.bits);
        push_text(&mut data, row.version.as_str());
        proof {
            assert(all.take(i + 1).drop_last() =~= all.take(i as int));
            assert(all.take(i + 1).last() == row.deep_view());
            assert(data@ =~= before + row_bytes(row.deep_view()));
        }
        i += 1;
    }
    assert(all.take(i as int) =~= all);
    data
}

/// The hash of a leaderboard: the digest of its bytes in hexadecimal.
pub fn build_content_hash(rows: &Vec<LeaderboardRow>, source_updated_at: Option<&str>) -> (hash: String)
    ensures
        hash@ == content_hash(rows.deep_view(), source_updated_at.deep_view()),
        hash@.len() == 64,
{
    hex_encode(&sha256(&content(rows, source_updated_at)))
}

/// The event of one row, where it differs from what was recorded.
fn compare_row(previous: &Vec<PreviousTeam>, row: &LeaderboardRow) -> (event: Option<TeamEvent>)
    ensures
        event.deep_view() == row_event(previous.deep_view(), row.deep_view()),
{
    match find_entry(previous, row.team_id.as_str()) {
        None => Some(
            TeamEvent {
                team_id: row.team_id.clone(),
                event_type: EventType::NewTeam,
                old_rank: None,
                new_rank: Some(row.rank),
                old_score: None,
                new_score: Some(row.score.clone()),
                old_version: None,
                new_version: Some(row.version.clone()),
            },
        ),
        Some(entry) => {
            let rank = match entry.rank {
                Some(rank) => rank != row.rank,
                None => true,
            };
            let score = match &entry.score {
                Some(score) => !bits_equal(score.bits, row.score.bits),
                None => true,
            };
            let version = match &entry.version {
                Some(version) => !same_text(version.as_str(), row.version.as_str()),
                None => true,
            };
            if !rank && !score && !version && entry.present {
                return None;
            }
            let event_type = if !entry.present {
                EventType::MultiChanged
            } else if rank && !score && !version {
                EventType::RankChanged
            } else if !rank && score && !version {
                EventType::ScoreChanged
            } else if !rank && !score && version {
                EventType::VersionChanged
            } else {
                EventType::MultiChanged
            };
            Some(
                TeamEvent {
                    team_id: row.team_id.clone(),
                    event_type,
                    old_rank: entry.rank,
                    new_rank: Some(row.rank),
                    old_score: entry.score.clone(),
                    new_score: Some(row.score.clone()),
                    old_version: entry.version.clone(),
                    new_version: Some(row.version.clone()),
                },
            )
        },
    }
}

/// Compares the rows with what was recorded before: an event for each row that
/// is new or differs, then one for each team that is listed no more.
pub fn diff_rows(
    previous: &Vec<PreviousTeam>,
    current_rows: &Vec<LeaderboardRow>,
    source_updated_at: Option<&str>,
) -> (diff: DiffResult)
    ensures
        diff.deep_view() == diff_of(
            previous.deep_view(),
            current_rows.deep_view(),
            source_updated_at.deep_view(),
        ),
{
    let ghost before = previous.deep_view();
    let ghost rows = current_rows.deep_view();
    let ghost event_of = |row: RowView| row_event(before, row);
    let ghost gone = |team: PreviousTeamView| is_dropped(rows, team);
    let content_hash = build_content_hash(current_rows, source_updated_at);
    let mut events: Vec<TeamEvent> = Vec::new();
    let mut dropped_team_ids: Vec<String> = Vec::new();

    let mut i: usize = 0;
    assert(rows.take(0).filter_map(event_of) =~= Seq::<EventView>::empty()) by {
        reveal(Seq::filter_map);
    }
    assert(events.deep_view() =~= Seq::<EventView>::empty());
    while i < current_rows.len()
        invariant
            i <= current_rows@.len(),
            before == previous.deep_view(),
            rows == current_rows.deep_view(),
            event_of == (|row: RowView| row_event(before, row)),
            events.deep_view() == rows.take(i as int).filter_map(event_of),
        decreases current_rows@.len() - i,
    {
        let ghost done = events.deep_view();
        proof {
            rows.lemma_filter_map_take_succ(event_of, i as int);
            assert(rows[i as int] == current_rows@[i as int].deep_view());
        }
        if let Some(event) = compare_row(previous, &current_rows[i]) {
            let ghost view = event.deep_view();
            events.push(event);
            assert(events.deep_view() =~= done.push(view));
        }
        i += 1;
    }
    assert(rows.take(i as int) =~= rows);
    let ghost of_rows = events.deep_view();

    let mut j: usize = 0;
    assert(before.take(0).filter(gone) =~= Seq::<PreviousTeamView>::empty()) by {
        reveal(Seq::filter);
    }
    assert(dropped_team_ids.deep_view() =~= Seq::<Seq<char>>::empty());
    while j < previous.len()
        invariant
            j <= previous@.len(),
            before == previous.deep_view(),
            rows == current_rows.deep_view(),
            gone == (|team: PreviousTeamView| is_dropped(rows, team)),
            events.deep_view() =~= of_rows + before.take(j as int).filter(gone).map_values(
                |team: PreviousTeamView| drop_event(team),
            ),
            dropped_team_ids.deep_view() =~= before.take(j as int).filter(gone).map_values(
                |team: PreviousTeamView| team.team_id,
            ),
        decreases previous@.len() - j,
    {
        let team = &previous[j];
        let ghost kept = before.take(j as int).filter(gone);
        let ghost done = events.deep_view();
        let ghost ids = dropped_team_ids.deep_view();
        proof {
            assert(before.take(j + 1) =~= before.take(j as int).push(team.deep_view()));
            before.take(j as int).lemma_filter_push(team.deep_view(), gone);
        }
        if team.entry.present && !has_row(current_rows, team.team_id.as_str()) {
            dropped_team_ids.push(team.team_id.clone());
            events.push(
                TeamEvent {
                    team_id: team.team_id.clone(),
                    event_type: EventType::DroppedTeam,
                    old_rank: team.entry.rank,
                    new_rank: None,
                    old_score: team.entry.score.clone(),
                    new_score: None,
                    old_version: team.entry.version.clone(),
                    new_version: None,
                },
            );
            proof {
                assert(events.deep_view() =~= done.push(drop_event(team.deep_view())));
                assert(dropped_team_ids.deep_view() =~= ids.push(team.team_id@));
            }
        }
        j += 1;
    }
    assert(before.take(j as int) =~= before);

    let changed = previous.len() == 0 || events.len() > 0;
    assert(events.deep_view().len() == events@.len());
    DiffResult { changed, content_hash, events, dropped_team_ids }
}

}
