//! Questions to the history.
use crate::db::{
    self, latest_snapshot_id, snapshot_meta, EntryView, SnapshotMeta, SnapshotView, Store,
    StoreError, StoreView, TeamRecord, TeamView,
};
use crate::diff::{PreviousEntry, PreviousTeam, PreviousTeamView, PreviousView};
use crate::score::{Score, ScoreView};
use crate::text::{self, same_text, text_before};
use vstd::prelude::*;

verus! {

/// The name of the team of that number.
pub open spec fn name_of(teams: Seq<TeamView>, id: i64) -> Option<Seq<char>>
    decreases teams.len(),
{
    if teams.len() == 0 {
        None
    } else if teams.last().id == id {
        Some(teams.last().name)
    } else {
        name_of(teams.drop_last(), id)
    }
}

/// Finds the name of the team of that number.
pub fn team_name(teams: &Vec<TeamRecord>, id: i64) -> (name: Option<String>)
    ensures
        name.deep_view() == name_of(teams.deep_view(), id),
{
    let ghost all = teams.deep_view();
    let mut i: usize = teams.len();
    assert(all.take(i as int) =~= all);
    while i > 0
        invariant
            i <= teams@.len(),
            all == teams.deep_view(),
            name_of(all.take(i as int), id) == name_of(all, id),
        decreases i,
    {
        proof {
            assert(all.take(i as int).last() == teams@[i - 1].deep_view());
            assert(all.take(i as int).drop_last() =~= all.take(i - 1));
        }
        i -= 1;
        if teams[i].id == id {
            return Some(teams[i].external_team_id.clone());
        }
    }
    None
}

/// What the entry says of its team, where it is one of the snapshot.
pub open spec fn recorded_team(teams: Seq<TeamView>, entry: EntryView, snapshot_id: i64) -> Option<
    PreviousTeamView,
> {
    match name_of(teams, entry.team_id) {
        Some(name) if entry.snapshot_id == snapshot_id => Some(
            PreviousTeamView {
                team_id: name,
                entry: PreviousView {
                    rank: entry.rank,
                    score: entry.score,
                    version: entry.version,
                    present: entry.present,
                },
            },
        ),
        _ => None,
    }
}

/// What a snapshot recorded of its teams.
pub open spec fn recorded_teams(s: StoreView, snapshot_id: i64) -> Seq<PreviousTeamView> {
    s.entries.filter_map(|e: EntryView| recorded_team(s.teams, e, snapshot_id))
}

/// What the latest snapshot recorded of its teams.
pub open spec fn previous_rows_of(s: StoreView) -> Seq<PreviousTeamView> {
    match db::greatest(db::snapshot_ids(s)) {
        Some(id) => recorded_teams(s, id),
        None => Seq::empty(),
    }
}

/// What the latest snapshot recorded of its teams; nothing where there is no
/// snapshot yet.
pub fn previous_snapshot_rows(store: &Store) -> (teams: Vec<PreviousTeam>)
    ensures
        teams.deep_view() == previous_rows_of(store.deep_view()),
{
    let mut out: Vec<PreviousTeam> = Vec::new();
    let id = match latest_snapshot_id(store) {
        Some(id) => id,
        None => {
            assert(out.deep_view() =~= Seq::<PreviousTeamView>::empty());
            return out;
        },
    };
    let ghost s = store.deep_view();
    let ghost team_of = |e: EntryView| recorded_team(s.teams, e, id);
    let mut i: usize = 0;
    assert(s.entries.take(0).filter_map(team_of) =~= Seq::<PreviousTeamView>::empty()) by {
        reveal(Seq::filter_map);
    }
    assert(out.deep_view() =~= Seq::<PreviousTeamView>::empty());
    while i < store.entries.len()
        invariant
            i <= store.entries@.len(),
            s == store.deep_view(),
            team_of == (|e: EntryView| recorded_team(s.teams, e, id)),
            out.deep_view() == s.entries.take(i as int).filter_map(team_of),
        decreases store.entries@.len() - i,
    {
        let entry = &store.entries[i];
        let ghost done = out.deep_view();
        proof {
            s.entries.lemma_filter_map_take_succ(team_of, i as int);
            assert(s.entries[i as int] == entry.deep_view());
        }
        if entry.snapshot_id == id {
            if let Some(name) = team_name(&store.teams, entry.team_id) {
                let team = PreviousTeam {
                    team_id: name,
                    entry: PreviousEntry {
                        rank: entry.rank,
                        score: entry.score.clone(),
                        version: entry.version.clone(),
                        present: entry.present,
                    },
                };
                let ghost view = team.deep_view();
                out.push(team);
                proof {
                    assert(team_of(entry.deep_view()) == Some(view));
                    assert(out.deep_view() =~= done + seq![view]);
                }
            }
        }
        i += 1;
    }
    assert(s.entries.take(i as int) =~= s.entries);
    out
}

/// A change of a score.
#[derive(Debug)]
pub struct ScoreDelta {
    pub old: Score,
    pub new: Score,
}

/// What a [`ScoreDelta`] holds.
#[verifier::ext_equal]
pub struct ScoreDeltaView {
    pub old: ScoreView,
    pub new: ScoreView,
}

impl DeepView for ScoreDelta {
    type V = ScoreDeltaView;

    open spec fn deep_view(&self) -> ScoreDeltaView {
        ScoreDeltaView { old: self.old.deep_view(), new: self.new.deep_view() }
    }
}

/// A line of a leaderboard, compared with the snapshot before.
#[derive(Debug)]
pub struct LeaderboardViewRow {
    pub team_id: String,
    pub rank: i64,
    pub score: Score,
    pub version: String,
    pub fetched_at: String,
    pub rank_delta: Option<i64>,
    pub score_delta: Option<ScoreDelta>,
    pub is_new: bool,
}

/// What a [`LeaderboardViewRow`] holds.
#[verifier::ext_equal]
pub struct BoardRowView {
    pub team_id: Seq<char>,
    pub rank: i64,
    pub score: ScoreView,
    pub version: Seq<char>,
    pub fetched_at: Seq<char>,
    pub rank_delta: Option<i64>,
    pub score_delta: Option<ScoreDeltaView>,
    pub is_new: bool,
}

impl DeepView for LeaderboardViewRow {
    type V = BoardRowView;

    open spec fn deep_view(&self) -> BoardRowView {
        BoardRowView {
            team_id: self.team_id@,
            rank: self.rank,
            score: self.score.deep_view(),
            version: self.version@,
            fetched_at: self.fetched_at@,
            rank_delta: self.rank_delta,
            score_delta: self.score_delta.deep_view(),
            is_new: self.is_new,
        }
    }
}

impl Clone for ScoreDelta {
    fn clone(&self) -> (copy: Self)
        ensures
            copy == *self,
    {
        ScoreDelta { old: self.old.clone(), new: self.new.clone() }
    }
}

impl Clone for LeaderboardViewRow {
    fn clone(&self) -> (copy: Self)
        ensures
            copy == *self,
    {
        LeaderboardViewRow {
            team_id: self.team_id.clone(),
            rank: self.rank,
            score: self.score.clone(),
            version: self.version.clone(),
            fetched_at: self.fetched_at.clone(),
            rank_delta: self.rank_delta,
            score_delta: self.score_delta.clone(),
            is_new: self.is_new,
        }
    }
}

/// A leaderboard and where its snapshot stands among the others.
#[derive(Debug)]
pub struct LeaderboardState {
    pub snapshot: SnapshotMeta,
    pub leaderboard: Vec<LeaderboardViewRow>,
}

/// A team that is present in a snapshot, with what is recorded of it.
#[verifier::ext_equal]
pub struct ListedView {
    pub name: Seq<char>,
    pub rank: Option<i64>,
    pub score: Option<ScoreView>,
    pub version: Option<Seq<char>>,
}

/// The team of an entry, where it is present in the snapshot.
pub open spec fn listed_team(teams: Seq<TeamView>, entry: EntryView, snapshot_id: i64) -> Option<
    ListedView,
> {
    match name_of(teams, entry.team_id) {
        Some(name) if entry.snapshot_id == snapshot_id && entry.present => Some(
            ListedView { name, rank: entry.rank, score: entry.score, version: entry.version },
        ),
        _ => None,
    }
}

/// The teams that are present in a snapshot.
pub open spec fn listed_teams(s: StoreView, snapshot_id: i64) -> Seq<ListedView> {
    s.entries.filter_map(|e: EntryView| listed_team(s.teams, e, snapshot_id))
}

/// The teams that are present in the snapshot before; none where there is none.
pub open spec fn compared_teams(s: StoreView, previous: Option<i64>) -> Seq<ListedView> {
    match previous {
        Some(id) => listed_teams(s, id),
        None => Seq::empty(),
    }
}

/// Whether a rank and a score are recorded of every team.
pub open spec fn all_ranked(teams: Seq<ListedView>) -> bool {
    forall|i: int|
        0 <= i < teams.len() ==> (#[trigger] teams[i]).rank is Some && teams[i].score is Some
}

/// Whether a version is recorded of every team.
pub open spec fn all_versioned(teams: Seq<ListedView>) -> bool {
    forall|i: int| 0 <= i < teams.len() ==> (#[trigger] teams[i]).version is Some
}

/// The team of that name.
pub open spec fn listed_named(teams: Seq<ListedView>, name: Seq<char>) -> Option<ListedView>
    decreases teams.len(),
{
    if teams.len() == 0 {
        None
    } else if teams.last().name == name {
        Some(teams.last())
    } else {
        listed_named(teams.drop_last(), name)
    }
}

/// The time at which a snapshot was fetched.
pub open spec fn fetched_at_of(snapshots: Seq<SnapshotView>, id: i64) -> Option<Seq<char>>
    decreases snapshots.len(),
{
    if snapshots.len() == 0 {
        None
    } else if snapshots.last().id == id {
        Some(snapshots.last().fetched_at)
    } else {
        fetched_at_of(snapshots.drop_last(), id)
    }
}

/// The difference of two numbers of 64 bits, wrapped to 64 bits.
pub open spec fn wrapped_difference(a: i64, b: i64) -> i64 {
    let d = a - b;
    if d > i64::MAX {
        (d - 0x1_0000_0000_0000_0000) as i64
    } else if d < i64::MIN {
        (d + 0x1_0000_0000_0000_0000) as i64
    } else {
        d as i64
    }
}

/// A line of the leaderboard: the team with the places it gained and the change
/// of its score since the snapshot before.
pub open spec fn board_row(compared: Seq<ListedView>, team: ListedView, fetched_at: Seq<char>) -> BoardRowView {
    let before = listed_named(compared, team.name);
    BoardRowView {
        team_id: team.name,
        rank: team.rank.unwrap(),
        score: team.score.unwrap(),
        version: team.version.unwrap(),
        fetched_at,
        rank_delta: match before {
            Some(b) => Some(wrapped_difference(b.rank.unwrap(), team.rank.unwrap())),
            None => None,
        },
        score_delta: match before {
            Some(b) => Some(ScoreDeltaView { old: b.score.unwrap(), new: team.score.unwrap() }),
            None => None,
        },
        is_new: before is None,
    }
}

/// The lines of a leaderboard, in the order of the entries.
pub open spec fn board_rows(s: StoreView, id: i64, previous: Option<i64>) -> Seq<BoardRowView> {
    let compared = compared_teams(s, previous);
    let time = fetched_at_of(s.snapshots, id).unwrap();
    listed_teams(s, id).map_values(|t: ListedView| board_row(compared, t, time))
}

/// The order of a leaderboard: by rank, then by team.
pub open spec fn row_le(a: BoardRowView, b: BoardRowView) -> bool {
    a.rank < b.rank || (a.rank == b.rank && !text::text_less(b.team_id, a.team_id))
}

/// Whether the lines are in the order of a leaderboard.
pub open spec fn in_board_order(rows: Seq<BoardRowView>) -> bool {
    forall|i: int, j: int| 0 <= i <= j < rows.len() ==> row_le(#[trigger] rows[i], #[trigger] rows[j])
}

/// Whether the values that the leaderboard of the request needs are recorded.
pub open spec fn board_complete(s: StoreView, requested: Option<i64>) -> bool {
    let meta = db::meta_of(s, requested);
    match meta.current_snapshot_id {
        Some(id) => {
            &&& all_ranked(compared_teams(s, meta.previous_snapshot_id))
            &&& all_ranked(listed_teams(s, id))
            &&& all_versioned(listed_teams(s, id))
        },
        None => true,
    }
}

/// Whether `rows` is the leaderboard of the request: the lines of the snapshot
/// in order; none where there is no snapshot.
pub open spec fn is_leaderboard(s: StoreView, requested: Option<i64>, rows: Seq<BoardRowView>) -> bool {
    let meta = db::meta_of(s, requested);
    match meta.current_snapshot_id {
        Some(id) => {
            &&& in_board_order(rows)
            &&& rows.to_multiset() == board_rows(s, id, meta.previous_snapshot_id).to_multiset()
        },
        None => rows.len() == 0,
    }
}

/// A team that is present in a snapshot.
struct Listed {
    name: String,
    rank: Option<i64>,
    score: Option<Score>,
    version: Option<String>,
}

impl DeepView for Listed {
    type V = ListedView;

    closed spec fn deep_view(&self) -> ListedView {
        ListedView {
            name: self.name@,
            rank: self.rank,
            score: self.score.deep_view(),
            version: self.version.deep_view(),
        }
    }
}

fn list_teams(store: &Store, snapshot_id: i64) -> (teams: Vec<Listed>)
    ensures
        teams.deep_view() == listed_teams(store.deep_view(), snapshot_id),
{
    let ghost s = store.deep_view();
    let ghost team_of = |e: EntryView| listed_team(s.teams, e, snapshot_id);
    let mut out: Vec<Listed> = Vec::new();
    let mut i: usize = 0;
    assert(s.entries.take(0).filter_map(team_of) =~= Seq::<ListedView>::empty()) by {
        reveal(Seq::filter_map);
    }
    assert(out.deep_view() =~= Seq::<ListedView>::empty());
    while i < store.entries.len()
        invariant
            i <= store.entries@.len(),
            s == store.deep_view(),
            team_of == (|e: EntryView| listed_team(s.teams, e, snapshot_id)),
            out.deep_view() == s.entries.take(i as int).filter_map(team_of),
        decreases store.entries@.len() - i,
    {
        let entry = &store.entries[i];
        let ghost done = out.deep_view();
        proof {
            s.entries.lemma_filter_map_take_succ(team_of, i as int);
            assert(s.entries[i as int] == entry.deep_view());
        }
        if entry.snapshot_id == snapshot_id && entry.present {
            if let Some(name) = team_name(&store.teams, entry.team_id) {
                let team = Listed {
                    name,
                    rank: entry.rank,
                    score: entry.score.clone(),
                    version: entry.version.clone(),
                };
                let ghost view = team.deep_view();
                out.push(team);
                proof {
                    assert(team_of(entry.deep_view()) == Some(view));
                    assert(out.deep_view() =~= done + seq![view]);
                }
            }
        }
        i += 1;
    }
    assert(s.entries.take(i as int) =~= s.entries);
    out
}

fn have_rank_and_score(teams: &Vec<Listed>) -> (all: bool)
    ensures
        all == all_ranked(teams.deep_view()),
{
    let ghost views = teams.deep_view();
    let mut i: usize = 0;
    while i < teams.len()
        invariant
            i <= teams@.len(),
            views == teams.deep_view(),
            forall|k: int|
                0 <= k < i ==> (#[trigger] views[k]).rank is Some && views[k].score is Some,
        decreases teams@.len() - i,
    {
        assert(views[i as int] == teams@[i as int].deep_view());
        if teams[i].rank.is_none() || teams[i].score.is_none() {
            return false;
        }
        i += 1;
    }
    true
}

fn have_version(teams: &Vec<Listed>) -> (all: bool)
    ensures
        all == all_versioned(teams.deep_view()),
{
    let ghost views = teams.deep_view();
    let mut i: usize = 0;
    while i < teams.len()
        invariant
            i <= teams@.len(),
            views == teams.deep_view(),
            forall|k: int| 0 <= k < i ==> (#[trigger] views[k]).version is Some,
        decreases teams@.len() - i,
    {
        assert(views[i as int] == teams@[i as int].deep_view());
        if teams[i].version.is_none() {
            return false;
        }
        i += 1;
    }
    true
}

fn find_listed<'a>(teams: &'a Vec<Listed>, name: &str) -> (found: Option<&'a Listed>)
    ensures
        found.deep_view() == listed_named(teams.deep_view(), name@),
        found matches Some(team) ==> exists|i: int|
            0 <= i < teams@.len() && *team == #[trigger] teams@[i],
{
    let ghost all = teams.deep_view();
    let mut i: usize = teams.len();
    assert(all.take(i as int) =~= all);
    while i > 0
        invariant
            i <= teams@.len(),
            all == teams.deep_view(),
            listed_named(all.take(i as int), name@) == listed_named(all, name@),
        decreases i,
    {
        proof {
            assert(all.take(i as int).last() == teams@[i - 1].deep_view());
            assert(all.take(i as int).drop_last() =~= all.take(i - 1));
        }
        i -= 1;
        if same_text(teams[i].name.as_str(), name) {
            return Some(&teams[i]);
        }
    }
    None
}

pub(crate) fn time_of(store: &Store, id: i64) -> (time: Option<String>)
    ensures
        time.deep_view() == fetched_at_of(store.deep_view().snapshots, id),
{
    let ghost all = store.deep_view().snapshots;
    let mut i: usize = store.snapshots.len();
    assert(all.take(i as int) =~= all);
    while i > 0
        invariant
            i <= store.snapshots@.len(),
            all == store.deep_view().snapshots,
            fetched_at_of(all.take(i as int), id) == fetched_at_of(all, id),
        decreases i,
    {
        proof {
            assert(all.take(i as int).last() == store.snapshots@[i - 1].deep_view());
            assert(all.take(i as int).drop_last() =~= all.take(i - 1));
        }
        i -= 1;
        if store.snapshots[i].id == id {
            return Some(store.snapshots[i].fetched_at.clone());
        }
    }
    None
}

fn difference(a: i64, b: i64) -> (d: i64)
    ensures
        d == wrapped_difference(a, b),
{
    let d: i128 = a as i128 - b as i128;
    if d > i64::MAX as i128 {
        (d - 0x1_0000_0000_0000_0000) as i64
    } else if d < i64::MIN as i128 {
        (d + 0x1_0000_0000_0000_0000) as i64
    } else {
        d as i64
    }
}

/// Puts a line at its place among lines that are in order.
fn insert_row(rows: &mut Vec<LeaderboardViewRow>, row: LeaderboardViewRow)
    requires
        in_board_order(old(rows).deep_view()),
    ensures
        in_board_order(final(rows).deep_view()),
        final(rows).deep_view().to_multiset() == old(rows).deep_view().to_multiset().insert(
            row.deep_view(),
        ),
{
    let ghost before = rows.deep_view();
    let ghost new = row.deep_view();
    let mut at: usize = rows.len();
    while at > 0 && (row.rank < rows[at - 1].rank || (row.rank == rows[at - 1].rank && text_before(
        row.team_id.as_str(),
        rows[at - 1].team_id.as_str(),
    )))
        invariant
            at <= rows@.len(),
            before == rows.deep_view(),
            new == row.deep_view(),
            forall|k: int| at <= k < before.len() ==> row_le(new, #[trigger] before[k]),
        decreases at,
    {
        proof {
            assert(before[at - 1] == rows@[at - 1].deep_view());
            text::text_order_is_total(new.team_id, before[at - 1].team_id);
        }
        at -= 1;
    }
    proof {
        if at > 0 {
            assert(before[at - 1] == rows@[at - 1].deep_view());
            assert(row_le(before[at - 1], new));
            assert forall|k: int| 0 <= k < at implies row_le(#[trigger] before[k], new) by {
                assert(row_le(before[k], before[at - 1]));
                lemma_row_le_transitive(before[k], before[at - 1], new);
            }
        }
    }
    rows.insert(at, row);
    proof {
        let after = rows.deep_view();
        assert(after =~= before.insert(at as int, new));
        before.insert_ensures(at as int, new);
        text::text_order_is_total(new.team_id, new.team_id);
        assert forall|i: int, j: int| 0 <= i <= j < after.len() implies row_le(
            #[trigger] after[i],
            #[trigger] after[j],
        ) by {
            if i < at {
                assert(after[i] == before[i]);
            } else if i > at {
                assert(after[i] == before[i - 1]);
            }
            if j < at {
                assert(after[j] == before[j]);
            } else if j > at {
                assert(after[j] == before[j - 1]);
            }
        }
        lemma_insert_multiset(before, at as int, new);
    }
}

proof fn lemma_row_le_transitive(a: BoardRowView, b: BoardRowView, c: BoardRowView)
    requires
        row_le(a, b),
        row_le(b, c),
    ensures
        row_le(a, c),
{
    text::text_order_is_total(a.team_id, b.team_id);
    text::text_order_is_total(b.team_id, c.team_id);
    text::text_order_is_total(a.team_id, c.team_id);
    if a.rank == b.rank && b.rank == c.rank && a.team_id != b.team_id && b.team_id != c.team_id {
        text::text_order_is_transitive(a.team_id, b.team_id, c.team_id);
    }
}

proof fn lemma_insert_multiset<A>(s: Seq<A>, at: int, a: A)
    requires
        0 <= at <= s.len(),
    ensures
        s.insert(at, a).to_multiset() == s.to_multiset().insert(a),
{
    let after = s.insert(at, a);
    after.to_multiset_ensures();
    assert(after.remove(at) =~= s);
    assert(after[at] == a);
    assert(after.contains(a));
    assert(after.to_multiset() =~= s.to_multiset().insert(a));
}

/// The leaderboard of the snapshot that the request means. Fails where a value
/// of a present team was not kept.
pub fn leaderboard_state(store: &Store, requested_snapshot_id: Option<i64>) -> (state: Result<
    LeaderboardState,
    StoreError,
>)
    ensures
        match state {
            Ok(state) => {
                &&& board_complete(store.deep_view(), requested_snapshot_id)
                &&& state.snapshot == db::meta_of(store.deep_view(), requested_snapshot_id)
                &&& is_leaderboard(
                    store.deep_view(),
                    requested_snapshot_id,
                    state.leaderboard.deep_view(),
                )
            },
            Err(e) => e == StoreError::MissingValue && !board_complete(
                store.deep_view(),
                requested_snapshot_id,
            ),
        },
{
    let ghost s = store.deep_view();
    let snapshot = snapshot_meta(store, requested_snapshot_id);
    let snapshot_id = match snapshot.current_snapshot_id {
        Some(id) => id,
        None => {
            return Ok(LeaderboardState { snapshot, leaderboard: Vec::new() });
        },
    };
    let compared = match snapshot.previous_snapshot_id {
        Some(id) => list_teams(store, id),
        None => Vec::new(),
    };
    assert(compared.deep_view() =~= compared_teams(s, snapshot.previous_snapshot_id));
    if !have_rank_and_score(&compared) {
        return Err(StoreError::MissingValue);
    }
    let teams = list_teams(store, snapshot_id);
    if !have_rank_and_score(&teams) || !have_version(&teams) {
        return Err(StoreError::MissingValue);
    }
    proof {
        lemma_resolved_exists(s, requested_snapshot_id);
    }
    let time = time_of(store, snapshot_id).unwrap();
    let ghost expected = board_rows(s, snapshot_id, snapshot.previous_snapshot_id);
    let mut rows: Vec<LeaderboardViewRow> = Vec::new();
    let mut i: usize = 0;
    proof {
        assert(rows.deep_view() =~= expected.take(0));
    }
    while i < teams.len()
        invariant
            i <= teams@.len(),
            expected == teams.deep_view().map_values(
                |t: ListedView| board_row(compared.deep_view(), t, time@),
            ),
            all_ranked(compared.deep_view()),
            all_ranked(teams.deep_view()),
            all_versioned(teams.deep_view()),
            in_board_order(rows.deep_view()),
            rows.deep_view().to_multiset() == expected.take(i as int).to_multiset(),
        decreases teams@.len() - i,
    {
        let team = &teams[i];
        assert(teams.deep_view()[i as int] == team.deep_view());
        let (rank, score, version) = match (&team.rank, &team.score, &team.version) {
            (Some(rank), Some(score), Some(version)) => (*rank, score, version),
            _ => {
                assert(false);
                return Err(StoreError::MissingValue);
            },
        };
        let (rank_delta, score_delta, is_new) = match find_listed(&compared, team.name.as_str()) {
            Some(before) => {
                proof {
                    let k = choose|k: int|
                        0 <= k < compared@.len() && *before == #[trigger] compared@[k];
                    assert(compared.deep_view()[k] == before.deep_view());
                }
                match (&before.rank, &before.score) {
                    (Some(old_rank), Some(old_score)) => (
                        Some(difference(*old_rank, rank)),
                        Some(ScoreDelta { old: old_score.clone(), new: score.clone() }),
                        false,
                    ),
                    _ => {
                        assert(false);
                        return Err(StoreError::MissingValue);
                    },
                }
            },
            None => (None, None, true),
        };
        let row = LeaderboardViewRow {
            team_id: team.name.clone(),
            rank,
            score: score.clone(),
            version: version.clone(),
            fetched_at: time.clone(),
            rank_delta,
            score_delta,
            is_new,
        };
        proof {
            assert(row.deep_view() =~= board_row(compared.deep_view(), team.deep_view(), time@));
            assert(expected[i as int] == row.deep_view());
            assert(expected.take(i + 1) =~= expected.take(i as int).push(row.deep_view()));
            expected.take(i as int).to_multiset_ensures();
        }
        insert_row(&mut rows, row);
        i += 1;
    }
    assert(expected.take(i as int) =~= expected);
    Ok(LeaderboardState { snapshot, leaderboard: rows })
}

/// The snapshot that a request means is stored.
pub proof fn lemma_resolved_exists(s: StoreView, requested: Option<i64>)
    ensures
        db::resolved(s, requested) matches Some(id) ==> db::snapshot_ids(s).contains(id)
            && fetched_at_of(s.snapshots, id) is Some,
{
    let ids = db::snapshot_ids(s);
    db::greatest_below_is_greatest(ids, i64::MAX + 1);
    if let Some(id) = db::resolved(s, requested) {
        let i = choose|i: int| 0 <= i < ids.len() && ids[i] == id;
        lemma_fetched_at_exists(s.snapshots, i);
    }
}

proof fn lemma_fetched_at_exists(snapshots: Seq<SnapshotView>, i: int)
    requires
        0 <= i < snapshots.len(),
    ensures
        fetched_at_of(snapshots, snapshots[i].id) is Some,
    decreases snapshots.len(),
{
    if i < snapshots.len() - 1 {
        lemma_fetched_at_exists(snapshots.drop_last(), i);
    }
}

}
