//! The stored history: snapshots, the teams that occur in them, one entry for
//! each team of a snapshot, and the events. The four tables are lists in the
//! order in which their rows were added.
pub mod dummy;
pub mod history;
pub mod insert;
pub mod laws;
pub mod read;

use crate::score::{Score, ScoreView};
use vstd::prelude::*;

verus! {

/// One stored snapshot.
#[derive(Debug)]
pub struct SnapshotRecord {
    pub id: i64,
    pub fetched_at: String,
    pub source_updated_at: Option<String>,
    pub content_hash: String,
    pub row_count: i64,
}

/// A team that occurred in some snapshot.
#[derive(Debug)]
pub struct TeamRecord {
    pub id: i64,
    pub external_team_id: String,
    pub first_seen_at: String,
    pub last_seen_at: String,
}

/// What a snapshot says of a team. Of a team that was dropped it holds no
/// values and is not present.
#[derive(Debug)]
pub struct EntryRecord {
    pub snapshot_id: i64,
    pub team_id: i64,
    pub rank: Option<i64>,
    pub score: Option<Score>,
    pub version: Option<String>,
    pub present: bool,
}

/// One stored event.
#[derive(Debug)]
pub struct EventRecord {
    pub id: i64,
    pub snapshot_id: i64,
    pub team_id: i64,
    pub event_type: String,
    pub old_rank: Option<i64>,
    pub new_rank: Option<i64>,
    pub old_score: Option<Score>,
    pub new_score: Option<Score>,
    pub old_version: Option<String>,
    pub new_version: Option<String>,
}

/// The four tables, and the last number that each numbering has given out.
#[derive(Debug)]
pub struct Store {
    pub snapshots: Vec<SnapshotRecord>,
    pub teams: Vec<TeamRecord>,
    pub entries: Vec<EntryRecord>,
    pub events: Vec<EventRecord>,
    pub snapshot_seq: i64,
    pub team_seq: i64,
    pub event_seq: i64,
}

#[verifier::ext_equal]
pub struct SnapshotView {
    pub id: i64,
    pub fetched_at: Seq<char>,
    pub source_updated_at: Option<Seq<char>>,
    pub content_hash: Seq<char>,
    pub row_count: i64,
}

#[verifier::ext_equal]
pub struct TeamView {
    pub id: i64,
    pub name: Seq<char>,
    pub first_seen_at: Seq<char>,
    pub last_seen_at: Seq<char>,
}

#[verifier::ext_equal]
pub struct EntryView {
    pub snapshot_id: i64,
    pub team_id: i64,
    pub rank: Option<i64>,
    pub score: Option<ScoreView>,
    pub version: Option<Seq<char>>,
    pub present: bool,
}

#[verifier::ext_equal]
pub struct StoredEventView {
    pub id: i64,
    pub snapshot_id: i64,
    pub team_id: i64,
    pub event_type: Seq<char>,
    pub old_rank: Option<i64>,
    pub new_rank: Option<i64>,
    pub old_score: Option<ScoreView>,
    pub new_score: Option<ScoreView>,
    pub old_version: Option<Seq<char>>,
    pub new_version: Option<Seq<char>>,
}

/// What a [`Store`] holds.
#[verifier::ext_equal]
pub struct StoreView {
    pub snapshots: Seq<SnapshotView>,
    pub teams: Seq<TeamView>,
    pub entries: Seq<EntryView>,
    pub events: Seq<StoredEventView>,
    pub snapshot_seq: i64,
    pub team_seq: i64,
    pub event_seq: i64,
}

impl DeepView for SnapshotRecord {
    type V = SnapshotView;

    open spec fn deep_view(&self) -> SnapshotView {
        SnapshotView {
            id: self.id,
            fetched_at: self.fetched_at@,
            source_updated_at: self.source_updated_at.deep_view(),
            content_hash: self.content_hash@,
            row_count: self.row_count,
        }
    }
}

impl DeepView for TeamRecord {
    type V = TeamView;

    open spec fn deep_view(&self) -> TeamView {
        TeamView {
            id: self.id,
            name: self.external_team_id@,
            first_seen_at: self.first_seen_at@,
            last_seen_at: self.last_seen_at@,
        }
    }
}

impl DeepView for EntryRecord {
    type V = EntryView;

    open spec fn deep_view(&self) -> EntryView {
        EntryView {
            snapshot_id: self.snapshot_id,
            team_id: self.team_id,
            rank: self.rank,
            score: self.score.deep_view(),
            version: self.version.deep_view(),
            present: self.present,
        }
    }
}

impl DeepView for EventRecord {
    type V = StoredEventView;

    open spec fn deep_view(&self) -> StoredEventView {
        StoredEventView {
            id: self.id,
            snapshot_id: self.snapshot_id,
            team_id: self.team_id,
            event_type: self.event_type@,
            old_rank: self.old_rank,
            new_rank: self.new_rank,
            old_score: self.old_score.deep_view(),
            new_score: self.new_score.deep_view(),
            old_version: self.old_version.deep_view(),
            new_version: self.new_version.deep_view(),
        }
    }
}

impl DeepView for Store {
    type V = StoreView;

    open spec fn deep_view(&self) -> StoreView {
        StoreView {
            snapshots: self.snapshots.deep_view(),
            teams: self.teams.deep_view(),
            entries: self.entries.deep_view(),
            events: self.events.deep_view(),
            snapshot_seq: self.snapshot_seq,
            team_seq: self.team_seq,
            event_seq: self.event_seq,
        }
    }
}

impl Clone for SnapshotRecord {
    fn clone(&self) -> (copy: Self)
        ensures
            copy == *self,
    {
        SnapshotRecord {
            id: self.id,
            fetched_at: self.fetched_at.clone(),
            source_updated_at: self.source_updated_at.clone(),
            content_hash: self.content_hash.clone(),
            row_count: self.row_count,
        }
    }
}

impl Clone for TeamRecord {
    fn clone(&self) -> (copy: Self)
        ensures
            copy == *self,
    {
        TeamRecord {
            id: self.id,
            external_team_id: self.external_team_id.clone(),
            first_seen_at: self.first_seen_at.clone(),
            last_seen_at: self.last_seen_at.clone(),
        }
    }
}

impl Clone for EntryRecord {
    fn clone(&self) -> (copy: Self)
        ensures
            copy == *self,
    {
        EntryRecord {
            snapshot_id: self.snapshot_id,
            team_id: self.team_id,
            rank: self.rank,
            score: self.score.clone(),
            version: self.version.clone(),
            present: self.present,
        }
    }
}

impl Clone for EventRecord {
    fn clone(&self) -> (copy: Self)
        ensures
            copy == *self,
    {
        EventRecord {
            id: self.id,
            snapshot_id: self.snapshot_id,
            team_id: self.team_id,
            event_type: self.event_type.clone(),
            old_rank: self.old_rank,
            new_rank: self.new_rank,
            old_score: self.old_score.clone(),
            new_score: self.new_score.clone(),
            old_version: self.old_version.clone(),
            new_version: self.new_version.clone(),
        }
    }
}

impl Clone for Store {
    fn clone(&self) -> (copy: Self)
        ensures
            copy.deep_view() == self.deep_view(),
    {
        let copy = Store {
            snapshots: self.snapshots.clone(),
            teams: self.teams.clone(),
            entries: self.entries.clone(),
            events: self.events.clone(),
            snapshot_seq: self.snapshot_seq,
            team_seq: self.team_seq,
            event_seq: self.event_seq,
        };
        assert(copy.deep_view() =~~= self.deep_view());
        copy
    }
}

/// A history without anything in it.
pub open spec fn empty_store() -> StoreView {
    StoreView {
        snapshots: Seq::empty(),
        teams: Seq::empty(),
        entries: Seq::empty(),
        events: Seq::empty(),
        snapshot_seq: 0,
        team_seq: 0,
        event_seq: 0,
    }
}

impl Store {
    /// A history without anything in it.
    pub fn new() -> (store: Self)
        ensures
            store.deep_view() == empty_store(),
            laws::valid(store.deep_view()),
    {
        let store = Store {
            snapshots: Vec::new(),
            teams: Vec::new(),
            entries: Vec::new(),
            events: Vec::new(),
            snapshot_seq: 0,
            team_seq: 0,
            event_seq: 0,
        };
        assert(store.deep_view() =~~= empty_store());
        store
    }
}

/// Why the history could not be read or extended.
#[derive(Debug, Clone, Copy, PartialEq, Eq, Structural)]
pub enum StoreError {
    /// A numbering has given out its last number.
    Full,
    /// A snapshot would hold two entries of one team.
    DuplicateEntry,
    /// An entry lacks a value that a present team has.
    MissingValue,
    /// A stored time cannot be read.
    InvalidTime,
    /// There is no snapshot yet.
    NoSnapshots,
}

/// What an error says.
pub open spec fn error_text(error: StoreError) -> Seq<char> {
    match error {
        StoreError::Full => "database has no number left"@,
        StoreError::DuplicateEntry => "snapshot holds a team twice"@,
        StoreError::MissingValue => "snapshot entry lacks a value"@,
        StoreError::InvalidTime => "invalid snapshot time"@,
        StoreError::NoSnapshots =>
            "database has no snapshots yet, start `lb-monitor serve` first"@,
    }
}

impl StoreError {
    /// The message of the error.
    pub fn message(self) -> (text: &'static str)
        ensures
            text@ == error_text(self),
    {
        match self {
            StoreError::Full => "database has no number left",
            StoreError::DuplicateEntry => "snapshot holds a team twice",
            StoreError::MissingValue => "snapshot entry lacks a value",
            StoreError::InvalidTime => "invalid snapshot time",
            StoreError::NoSnapshots =>
                "database has no snapshots yet, start `lb-monitor serve` first",
        }
    }
}

/// The numbers of the snapshots.
pub open spec fn snapshot_ids(s: StoreView) -> Seq<i64> {
    s.snapshots.map_values(|r: SnapshotView| r.id)
}

/// The greatest number of the list below the bound.
pub open spec fn greatest_below(ids: Seq<i64>, bound: int) -> Option<i64>
    decreases ids.len(),
{
    if ids.len() == 0 {
        None
    } else {
        let rest = greatest_below(ids.drop_last(), bound);
        let id = ids.last();
        if id < bound && (rest matches Some(best) ==> best < id) {
            Some(id)
        } else {
            rest
        }
    }
}

/// The least number of the list above the bound.
pub open spec fn least_above(ids: Seq<i64>, bound: int) -> Option<i64>
    decreases ids.len(),
{
    if ids.len() == 0 {
        None
    } else {
        let rest = least_above(ids.drop_last(), bound);
        let id = ids.last();
        if id > bound && (rest matches Some(best) ==> id < best) {
            Some(id)
        } else {
            rest
        }
    }
}

/// The greatest number of the list.
pub open spec fn greatest(ids: Seq<i64>) -> Option<i64> {
    greatest_below(ids, i64::MAX + 1)
}

/// [`greatest_below`] is the greatest: it stands in the list below the bound,
/// and nothing below the bound exceeds it. Where it is `None`, nothing in the
/// list is below the bound.
pub proof fn greatest_below_is_greatest(ids: Seq<i64>, bound: int)
    ensures
        greatest_below(ids, bound) matches Some(best) ==> {
            &&& ids.contains(best)
            &&& best < bound
            &&& forall|id: i64| #[trigger] ids.contains(id) && id < bound ==> id <= best
        },
        greatest_below(ids, bound) is None ==> forall|id: i64| #[trigger]
            ids.contains(id) ==> id >= bound,
    decreases ids.len(),
{
    if ids.len() > 0 {
        let rest = ids.drop_last();
        greatest_below_is_greatest(rest, bound);
        assert(ids =~= rest.push(ids.last()));
        assert(ids.contains(ids.last())) by {
            assert(ids[ids.len() - 1] == ids.last());
        }
        assert forall|id: i64| #[trigger] rest.contains(id) implies ids.contains(id) by {
            let i = choose|i: int| 0 <= i < rest.len() && rest[i] == id;
            assert(ids[i] == id);
        }
        assert forall|id: i64| #[trigger] ids.contains(id) && id != ids.last() implies rest.contains(
            id,
        ) by {
            let i = choose|i: int| 0 <= i < ids.len() && ids[i] == id;
            assert(rest[i] == id);
        }
    }
}

/// [`least_above`] is the least: it stands in the list above the bound, and
/// nothing above the bound is less. Where it is `None`, nothing in the list is
/// above the bound.
pub proof fn least_above_is_least(ids: Seq<i64>, bound: int)
    ensures
        least_above(ids, bound) matches Some(best) ==> {
            &&& ids.contains(best)
            &&& best > bound
            &&& forall|id: i64| #[trigger] ids.contains(id) && id > bound ==> id >= best
        },
        least_above(ids, bound) is None ==> forall|id: i64| #[trigger]
            ids.contains(id) ==> id <= bound,
    decreases ids.len(),
{
    if ids.len() > 0 {
        let rest = ids.drop_last();
        least_above_is_least(rest, bound);
        assert(ids =~= rest.push(ids.last()));
        assert(ids.contains(ids.last())) by {
            assert(ids[ids.len() - 1] == ids.last());
        }
        assert forall|id: i64| #[trigger] rest.contains(id) implies ids.contains(id) by {
            let i = choose|i: int| 0 <= i < rest.len() && rest[i] == id;
            assert(ids[i] == id);
        }
        assert forall|id: i64| #[trigger] ids.contains(id) && id != ids.last() implies rest.contains(
            id,
        ) by {
            let i = choose|i: int| 0 <= i < ids.len() && ids[i] == id;
            assert(rest[i] == id);
        }
    }
}

/// The number of the latest snapshot.
pub fn latest_snapshot_id(store: &Store) -> (latest: Option<i64>)
    ensures
        latest == greatest(snapshot_ids(store.deep_view())),
{
    let ghost ids = snapshot_ids(store.deep_view());
    let mut best: Option<i64> = None;
    let mut i: usize = 0;
    assert(ids.take(0) =~= Seq::<i64>::empty());
    while i < store.snapshots.len()
        invariant
            i <= store.snapshots@.len(),
            ids == snapshot_ids(store.deep_view()),
            best == greatest(ids.take(i as int)),
        decreases store.snapshots@.len() - i,
    {
        let id = store.snapshots[i].id;
        proof {
            assert(ids.take(i + 1).drop_last() =~= ids.take(i as int));
            assert(ids.take(i + 1).last() == id);
        }
        let better = match best {
            Some(known) => known < id,
            None => true,
        };
        if better {
            best = Some(id);
        }
        i += 1;
    }
    assert(ids.take(i as int) =~= ids);
    best
}

/// Whether there is a snapshot of that number.
pub fn snapshot_exists(store: &Store, snapshot_id: i64) -> (exists_: bool)
    ensures
        exists_ == snapshot_ids(store.deep_view()).contains(snapshot_id),
{
    let ghost ids = snapshot_ids(store.deep_view());
    let mut i: usize = 0;
    while i < store.snapshots.len()
        invariant
            i <= store.snapshots@.len(),
            ids == snapshot_ids(store.deep_view()),
            forall|k: int| 0 <= k < i ==> ids[k] != snapshot_id,
        decreases store.snapshots@.len() - i,
    {
        assert(ids[i as int] == store.snapshots@[i as int].id);
        if store.snapshots[i].id == snapshot_id {
            return true;
        }
        i += 1;
    }
    assert(ids.len() == store.snapshots@.len());
    false
}

/// The snapshot that a request means: the one it names, or else the latest.
pub open spec fn resolved(s: StoreView, requested: Option<i64>) -> Option<i64> {
    match requested {
        Some(id) if snapshot_ids(s).contains(id) => Some(id),
        _ => greatest(snapshot_ids(s)),
    }
}

/// The snapshot that a request means: the one it names, or else the latest.
pub fn resolve_snapshot_id(store: &Store, requested_snapshot_id: Option<i64>) -> (id: Option<i64>)
    ensures
        id == resolved(store.deep_view(), requested_snapshot_id),
{
    if let Some(id) = requested_snapshot_id {
        if snapshot_exists(store, id) {
            return Some(id);
        }
    }
    latest_snapshot_id(store)
}

/// The snapshot before the given number.
pub fn previous_snapshot_id(store: &Store, snapshot_id: i64) -> (previous: Option<i64>)
    ensures
        previous == greatest_below(snapshot_ids(store.deep_view()), snapshot_id as int),
{
    let ghost ids = snapshot_ids(store.deep_view());
    let mut best: Option<i64> = None;
    let mut i: usize = 0;
    assert(ids.take(0) =~= Seq::<i64>::empty());
    while i < store.snapshots.len()
        invariant
            i <= store.snapshots@.len(),
            ids == snapshot_ids(store.deep_view()),
            best == greatest_below(ids.take(i as int), snapshot_id as int),
        decreases store.snapshots@.len() - i,
    {
        let id = store.snapshots[i].id;
        proof {
            assert(ids.take(i + 1).drop_last() =~= ids.take(i as int));
            assert(ids.take(i + 1).last() == id);
        }
        let better = match best {
            Some(known) => known < id,
            None => true,
        };
        if id < snapshot_id && better {
            best = Some(id);
        }
        i += 1;
    }
    assert(ids.take(i as int) =~= ids);
    best
}

/// The snapshot after the given number.
pub fn next_snapshot_id(store: &Store, snapshot_id: i64) -> (next: Option<i64>)
    ensures
        next == least_above(snapshot_ids(store.deep_view()), snapshot_id as int),
{
    let ghost ids = snapshot_ids(store.deep_view());
    let mut best: Option<i64> = None;
    let mut i: usize = 0;
    assert(ids.take(0) =~= Seq::<i64>::empty());
    while i < store.snapshots.len()
        invariant
            i <= store.snapshots@.len(),
            ids == snapshot_ids(store.deep_view()),
            best == least_above(ids.take(i as int), snapshot_id as int),
        decreases store.snapshots@.len() - i,
    {
        let id = store.snapshots[i].id;
        proof {
            assert(ids.take(i + 1).drop_last() =~= ids.take(i as int));
            assert(ids.take(i + 1).last() == id);
        }
        let better = match best {
            Some(known) => id < known,
            None => true,
        };
        if id > snapshot_id && better {
            best = Some(id);
        }
        i += 1;
    }
    assert(ids.take(i as int) =~= ids);
    best
}

/// Where a snapshot stands among the others.
#[derive(Debug, Clone, Copy, PartialEq, Eq, Structural)]
pub struct SnapshotMeta {
    pub latest_snapshot_id: Option<i64>,
    pub current_snapshot_id: Option<i64>,
    pub previous_snapshot_id: Option<i64>,
    pub next_snapshot_id: Option<i64>,
}

/// Where the snapshot that a request means stands among the others.
pub open spec fn meta_of(s: StoreView, requested: Option<i64>) -> SnapshotMeta {
    let ids = snapshot_ids(s);
    let current = resolved(s, requested);
    SnapshotMeta {
        latest_snapshot_id: greatest(ids),
        current_snapshot_id: current,
        previous_snapshot_id: match current {
            Some(id) => greatest_below(ids, id as int),
            None => None,
        },
        next_snapshot_id: match current {
            Some(id) => least_above(ids, id as int),
            None => None,
        },
    }
}

/// Where the snapshot that a request means stands among the others.
pub fn snapshot_meta(store: &Store, requested_snapshot_id: Option<i64>) -> (meta: SnapshotMeta)
    ensures
        meta == meta_of(store.deep_view(), requested_snapshot_id),
{
    let latest = latest_snapshot_id(store);
    let current = match requested_snapshot_id {
        Some(id) => if snapshot_exists(store, id) {
            Some(id)
        } else {
            latest
        },
        None => latest,
    };
    let previous = match current {
        Some(id) => previous_snapshot_id(store, id),
        None => None,
    };
    let next = match current {
        Some(id) => next_snapshot_id(store, id),
        None => None,
    };
    SnapshotMeta {
        latest_snapshot_id: latest,
        current_snapshot_id: current,
        previous_snapshot_id: previous,
        next_snapshot_id: next,
    }
}

/// Fails where there is no snapshot yet.
pub fn assert_has_snapshots(store: &Store) -> (result: Result<(), StoreError>)
    ensures
        store.deep_view().snapshots.len() > 0 ==> result == Ok::<(), StoreError>(()),
        store.deep_view().snapshots.len() == 0 ==> result == Err::<(), StoreError>(
            StoreError::NoSnapshots,
        ),
{
    proof {
        let ids = snapshot_ids(store.deep_view());
        greatest_below_is_greatest(ids, i64::MAX + 1);
        if ids.len() > 0 {
            assert(ids.contains(ids[0]));
        }
    }
    if latest_snapshot_id(store).is_some() {
        Ok(())
    } else {
        Err(StoreError::NoSnapshots)
    }
}

}
