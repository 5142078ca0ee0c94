//! What a comparison of a leaderboard with the recorded one tells.
use crate::bindings;
use crate::diff::{self, EventType, EventView, PreviousTeamView, PreviousView};
use crate::parse::RowView;
use crate::score;
use crate::seqs;
use vstd::prelude::*;

verus! {

/// Whether the team's record is the one at that place: the first under its name.
pub open spec fn is_record_of(previous: Seq<PreviousTeamView>, p: int, team: Seq<char>) -> bool {
    &&& 0 <= p < previous.len()
    &&& previous[p].team_id == team
    &&& forall|q: int| 0 <= q < p ==> (#[trigger] previous[q]).team_id != team
}

/// Whether nothing is recorded of the team.
pub open spec fn is_unknown(previous: Seq<PreviousTeamView>, team: Seq<char>) -> bool {
    forall|p: int| 0 <= p < previous.len() ==> (#[trigger] previous[p]).team_id != team
}

/// Whether no row is of the team.
pub open spec fn is_gone(rows: Seq<RowView>, team: Seq<char>) -> bool {
    forall|i: int| 0 <= i < rows.len() ==> (#[trigger] rows[i]).team_id != team
}

/// Whether the record has the row's score.
pub open spec fn same_score(entry: PreviousView, row: RowView) -> bool {
    entry.score matches Some(score) && score::score_eq(score.bits, row.score.bits)
}

/// Whether the record has the row's rank, score and version, and was present.
pub open spec fn same_values(entry: PreviousView, row: RowView) -> bool {
    entry.present && entry.rank == Some(row.rank) && same_score(entry, row) && entry.version
        == Some(row.version)
}

proof fn lemma_record(previous: Seq<PreviousTeamView>, p: int, team: Seq<char>)
    requires
        is_record_of(previous, p, team),
    ensures
        diff::entry_of(previous, team) == Some(previous[p].entry),
    decreases p,
{
    if p > 0 {
        let rest = previous.drop_first();
        assert(previous[0].team_id != team);
        assert forall|q: int| 0 <= q < p - 1 implies (#[trigger] rest[q]).team_id != team by {
            assert(rest[q] == previous[q + 1]);
        }
        lemma_record(rest, p - 1, team);
    }
}

proof fn lemma_unknown(previous: Seq<PreviousTeamView>, team: Seq<char>)
    requires
        is_unknown(previous, team),
    ensures
        diff::entry_of(previous, team) is None,
    decreases previous.len(),
{
    if previous.len() > 0 {
        let rest = previous.drop_first();
        assert(previous[0].team_id != team);
        assert forall|q: int| 0 <= q < rest.len() implies (#[trigger] rest[q]).team_id != team by {
            assert(rest[q] == previous[q + 1]);
        }
        lemma_unknown(rest, team);
    }
}

/// The record of a team, where there is one.
pub proof fn team_is_recorded_or_not(previous: Seq<PreviousTeamView>, team: Seq<char>) -> (p: int)
    ensures
        is_unknown(previous, team) || is_record_of(previous, p, team),
    decreases previous.len(),
{
    if previous.len() == 0 {
        0
    } else {
        let rest = previous.drop_last();
        let last = previous.len() - 1;
        let p = team_is_recorded_or_not(rest, team);
        assert(forall|q: int| 0 <= q < rest.len() ==> #[trigger] rest[q] == previous[q]);
        if is_record_of(rest, p, team) {
            assert forall|q: int| 0 <= q < p implies (#[trigger] previous[q]).team_id != team by {
                assert(rest[q] == previous[q]);
            }
            p
        } else {
            assert forall|q: int| 0 <= q < last implies (#[trigger] previous[q]).team_id != team by {
                assert(rest[q] == previous[q]);
            }
            last
        }
    }
}

/// A comparison in full. The events are those of some rows, in the order of the
/// rows, and then those of some records, in the order of the record. A row has an
/// event exactly where its team is unknown or any value is not as recorded, whether
/// it went up or down. The event has the recorded values and the row's values, and
/// is named after the only value that is another one. A record has an event exactly
/// where its team was present and is gone.
pub proof fn comparison_in_full(
    previous: Seq<PreviousTeamView>,
    rows: Seq<RowView>,
    date: Option<Seq<char>>,
) -> (places: (Seq<int>, Seq<int>))
    ensures
        seqs::are_places(places.0, rows.len()),
        seqs::are_places(places.1, previous.len()),
        ({
            let told = diff::diff_of(previous, rows, date);
            let (listed, lost) = places;
            &&& told.events.len() == listed.len() + lost.len()
            &&& told.changed == (previous.len() == 0 || told.events.len() > 0)
            &&& forall|i: int, p: int|
                0 <= i < rows.len() && #[trigger] is_record_of(previous, p, rows[i].team_id) ==> (
                listed.contains(i) <==> !same_values(previous[p].entry, rows[i]))
            &&& forall|i: int|
                0 <= i < rows.len() && is_unknown(previous, (#[trigger] rows[i]).team_id)
                    ==> listed.contains(i)
            &&& forall|k: int|
                0 <= k < listed.len() ==> {
                    let row = rows[#[trigger] listed[k]];
                    let event = told.events[k];
                    &&& event.team_id == row.team_id
                    &&& event.new_rank == Some(row.rank)
                    &&& event.new_score == Some(row.score)
                    &&& event.new_version == Some(row.version)
                    &&& is_unknown(previous, row.team_id) ==> event.event_type
                        == EventType::NewTeam && event.old_rank is None && event.old_score is None
                        && event.old_version is None
                }
            &&& forall|k: int, p: int|
                0 <= k < listed.len() && #[trigger] is_record_of(
                    previous,
                    p,
                    rows[listed[k]].team_id,
                ) ==> {
                    let row = rows[listed[k]];
                    let entry = previous[p].entry;
                    let event = told.events[k];
                    let rank = entry.rank == Some(row.rank);
                    let score = same_score(entry, row);
                    let version = entry.version == Some(row.version);
                    &&& event.old_rank == entry.rank
                    &&& event.old_score == entry.score
                    &&& event.old_version == entry.version
                    &&& event.event_type == EventType::RankChanged <==> entry.present && !rank
                        && score && version
                    &&& event.event_type == EventType::ScoreChanged <==> entry.present && rank
                        && !score && version
                    &&& event.event_type == EventType::VersionChanged <==> entry.present && rank
                        && score && !version
                    &&& event.event_type != EventType::NewTeam
                    &&& event.event_type != EventType::DroppedTeam
                }
            &&& told.dropped_team_ids.len() == lost.len()
            &&& forall|p: int|
                0 <= p < previous.len() ==> (#[trigger] lost.contains(p)
                    <==> previous[p].entry.present && is_gone(rows, previous[p].team_id))
            &&& forall|k: int|
                0 <= k < lost.len() ==> {
                    let team = previous[#[trigger] lost[k]];
                    &&& told.dropped_team_ids[k] == team.team_id
                    &&& told.events[listed.len() + k] == (EventView {
                        team_id: team.team_id,
                        event_type: EventType::DroppedTeam,
                        old_rank: team.entry.rank,
                        new_rank: None,
                        old_score: team.entry.score,
                        new_score: None,
                        old_version: team.entry.version,
                        new_version: None,
                    })
                }
        }),
{
    let event_of = |row: RowView| diff::row_event(previous, row);
    let gone = |team: PreviousTeamView| diff::is_dropped(rows, team);
    let listed = seqs::lemma_filter_map_places(rows, event_of);
    let lost = seqs::lemma_filter_places(previous, gone);
    let told = diff::diff_of(previous, rows, date);
    let first = diff::row_events(previous, rows);
    let dropped = diff::dropped_teams(previous, rows);
    assert forall|i: int, p: int|
        0 <= i < rows.len() && #[trigger] is_record_of(previous, p, rows[i].team_id) implies (
    listed.contains(i) <==> !same_values(previous[p].entry, rows[i])) by {
        lemma_record(previous, p, rows[i].team_id);
        assert(listed.contains(i) <==> event_of(rows[i]) is Some);
    }
    assert forall|i: int|
        0 <= i < rows.len() && is_unknown(previous, (#[trigger] rows[i]).team_id) implies listed.contains(
        i,
    ) by {
        lemma_unknown(previous, rows[i].team_id);
        assert(listed.contains(i) <==> event_of(rows[i]) is Some);
    }
    assert forall|k: int| 0 <= k < listed.len() implies event_of(rows[#[trigger] listed[k]]) == Some(
        told.events[k],
    ) && (is_unknown(previous, rows[listed[k]].team_id) ==> diff::entry_of(
        previous,
        rows[listed[k]].team_id,
    ) is None) by {
        assert(told.events[k] == first[k]);
        if is_unknown(previous, rows[listed[k]].team_id) {
            lemma_unknown(previous, rows[listed[k]].team_id);
        }
    }
    assert forall|k: int, p: int|
        0 <= k < listed.len() && #[trigger] is_record_of(
            previous,
            p,
            rows[listed[k]].team_id,
        ) implies diff::entry_of(previous, rows[listed[k]].team_id) == Some(previous[p].entry)
        && event_of(rows[listed[k]]) == Some(told.events[k]) by {
        lemma_record(previous, p, rows[listed[k]].team_id);
    }
    assert forall|p: int| 0 <= p < previous.len() implies (#[trigger] lost.contains(p)
        <==> previous[p].entry.present && is_gone(rows, previous[p].team_id)) by {
        let team = previous[p].team_id;
        assert(lost.contains(p) <==> gone(previous[p]));
        if !is_gone(rows, team) {
            let i = choose|i: int| 0 <= i < rows.len() && (#[trigger] rows[i]).team_id == team;
            assert(rows[i].team_id == team);
            assert(diff::lists_team(rows, team));
        }
    }
    assert forall|k: int| 0 <= k < lost.len() implies told.dropped_team_ids[k]
        == previous[#[trigger] lost[k]].team_id && told.events[listed.len() + k] == diff::drop_event(
        previous[lost[k]],
    ) by {
        assert(dropped[k] == previous[lost[k]]);
    }
    (listed, lost)
}

/// A row whose team is recorded as present with another rank, another score or
/// another version is told of; where only the rank is another one, as a change of
/// rank.
pub proof fn changed_rows_are_told(
    previous: Seq<PreviousTeamView>,
    rows: Seq<RowView>,
    date: Option<Seq<char>>,
    i: int,
    p: int,
)
    requires
        0 <= i < rows.len(),
        is_record_of(previous, p, rows[i].team_id),
        previous[p].entry.present,
        previous[p].entry.rank != Some(rows[i].rank) || !same_score(previous[p].entry, rows[i])
            || previous[p].entry.version != Some(rows[i].version),
    ensures
        diff::diff_of(previous, rows, date).changed,
        exists|k: int|
            0 <= k < diff::diff_of(previous, rows, date).events.len() && {
                let event = #[trigger] diff::diff_of(previous, rows, date).events[k];
                &&& event.team_id == rows[i].team_id
                &&& event.old_rank == previous[p].entry.rank
                &&& event.new_rank == Some(rows[i].rank)
                &&& same_score(previous[p].entry, rows[i]) && previous[p].entry.version == Some(
                    rows[i].version,
                ) ==> event.event_type == EventType::RankChanged
            },
{
    let (listed, lost) = comparison_in_full(previous, rows, date);
    let told = diff::diff_of(previous, rows, date);
    assert(listed.contains(i));
    let k = choose|k: int| 0 <= k < listed.len() && listed[k] == i;
    assert(is_record_of(previous, p, rows[listed[k]].team_id));
    assert(told.events[k].team_id == rows[i].team_id);
}

/// A leaderboard whose rows are all as recorded, and that has every present team,
/// is told of with no event.
pub proof fn unchanged_rows_are_not_told(
    previous: Seq<PreviousTeamView>,
    rows: Seq<RowView>,
    date: Option<Seq<char>>,
)
    requires
        previous.len() > 0,
        forall|i: int|
            0 <= i < rows.len() ==> exists|p: int|
                is_record_of(previous, p, (#[trigger] rows[i]).team_id) && same_values(
                    previous[p].entry,
                    rows[i],
                ),
        forall|p: int|
            0 <= p < previous.len() && (#[trigger] previous[p]).entry.present ==> !is_gone(
                rows,
                previous[p].team_id,
            ),
    ensures
        !diff::diff_of(previous, rows, date).changed,
        diff::diff_of(previous, rows, date).events.len() == 0,
        diff::diff_of(previous, rows, date).dropped_team_ids.len() == 0,
{
    let (listed, lost) = comparison_in_full(previous, rows, date);
    if listed.len() > 0 {
        let i = listed[0];
        assert(listed.contains(i));
        let p = choose|p: int|
            is_record_of(previous, p, (#[trigger] rows[i]).team_id) && same_values(
                previous[p].entry,
                rows[i],
            );
        assert(is_record_of(previous, p, rows[i].team_id));
    }
    if lost.len() > 0 {
        assert(lost.contains(lost[0]));
    }
}

/// The hash of a comparison is that of the rows and the date, whatever was recorded.
pub proof fn hash_is_of_the_leaderboard(
    previous: Seq<PreviousTeamView>,
    rows: Seq<RowView>,
    date: Option<Seq<char>>,
)
    ensures
        diff::diff_of(previous, rows, date).content_hash == diff::content_hash(rows, date),
{
}

/// The eight bytes of a number below two to the power of sixty-four, the lowest
/// first.
pub open spec fn bytes_of(x: int) -> Seq<u8> {
    seq![
        (x % 256) as u8,
        (x / 256 % 256) as u8,
        (x / 65_536 % 256) as u8,
        (x / 16_777_216 % 256) as u8,
        (x / 4_294_967_296 % 256) as u8,
        (x / 1_099_511_627_776 % 256) as u8,
        (x / 281_474_976_710_656 % 256) as u8,
        (x / 72_057_594_037_927_936 % 256) as u8,
    ]
}

proof fn lemma_bytes(x: nat)
    ensures
        diff::le_bytes(x, 8) == bytes_of(x as int),
{
    reveal_with_fuel(diff::le_bytes, 9);
    assert(x / 256 / 256 == x / 65_536);
    assert(x / 256 / 256 / 256 == x / 16_777_216);
    assert(x / 256 / 256 / 256 / 256 == x / 4_294_967_296);
    assert(x / 256 / 256 / 256 / 256 / 256 == x / 1_099_511_627_776);
    assert(x / 256 / 256 / 256 / 256 / 256 / 256 == x / 281_474_976_710_656);
    assert(x / 256 / 256 / 256 / 256 / 256 / 256 / 256 == x / 72_057_594_037_927_936);
    assert(diff::le_bytes(x, 8) =~= bytes_of(x as int));
}

/// The hash of a leaderboard is taken over its date and then, row by row, over the
/// rank, the team, the score and the version, so that any of them can change it.
pub proof fn hash_covers_everything(
    rows: Seq<RowView>,
    row: RowView,
    date: Option<Seq<char>>,
    day: Seq<char>,
)
    ensures
        diff::content_hash(rows, date) == bindings::hex_text(
            bindings::sha256_digest(diff::content_bytes(rows, date)),
        ),
        diff::content_bytes(Seq::empty(), None) == Seq::<u8>::empty(),
        diff::content_bytes(Seq::empty(), Some(day)) == vstd::utf8::encode_utf8(day),
        diff::content_bytes(rows.push(row), date) == diff::content_bytes(rows, date) + bytes_of(
            if row.rank >= 0 {
                row.rank as int
            } else {
                row.rank + 18_446_744_073_709_551_616
            },
        ) + vstd::utf8::encode_utf8(row.team_id) + bytes_of(row.score.bits as int)
            + vstd::utf8::encode_utf8(row.version),
{
    assert(rows.push(row).drop_last() =~= rows);
    lemma_bytes(diff::twos_complement(row.rank));
    lemma_bytes(row.score.bits as nat);
    assert(diff::content_bytes(rows.push(row), date) =~= diff::content_bytes(rows, date) + bytes_of(
        if row.rank >= 0 {
            row.rank as int
        } else {
            row.rank + 18_446_744_073_709_551_616
        },
    ) + vstd::utf8::encode_utf8(row.team_id) + bytes_of(row.score.bits as int)
        + vstd::utf8::encode_utf8(row.version));
}

}
