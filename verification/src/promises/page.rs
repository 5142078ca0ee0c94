//! What is read out of a page, out of its script bundle and out of its cells.
use crate::bindings;
use crate::fetch::{self, FetchError, StepView};
use crate::parse::{
    self, ParseError, ReadingView, RowView, ARRAY_PATTERN, DATE_PATTERN, ELEMENT_PATTERN,
    LINE_PATTERN,
};
use crate::seqs;
use crate::text;
use vstd::prelude::*;

verus! {

/// Whether the text's reading is the one at that place: the first of that text.
pub open spec fn is_reading_of(readings: Seq<ReadingView>, r: int, text: Seq<char>) -> bool {
    &&& 0 <= r < readings.len()
    &&& readings[r].text == text
    &&& forall|q: int| 0 <= q < r ==> (#[trigger] readings[q]).text != text
}

/// Whether the text is known to be a number.
pub open spec fn is_number(readings: Seq<ReadingView>, text: Seq<char>) -> bool {
    exists|r: int| 0 <= r < readings.len() && (#[trigger] readings[r]).text == text
}

/// The number of a text is that of its first reading.
pub proof fn number_is_the_first_reading(readings: Seq<ReadingView>, text: Seq<char>)
    ensures
        parse::score_of(readings, text) is Some <==> is_number(readings, text),
        forall|r: int| #[trigger]
            is_reading_of(readings, r, text) ==> parse::score_of(readings, text) == Some(
                readings[r].score,
            ),
    decreases readings.len(),
{
    if readings.len() > 0 {
        let rest = readings.drop_first();
        number_is_the_first_reading(rest, text);
        assert(forall|q: int| 0 <= q < rest.len() ==> #[trigger] rest[q] == readings[q + 1]);
        if readings[0].text != text && is_number(readings, text) {
            let r = choose|r: int| 0 <= r < readings.len() && (#[trigger] readings[r]).text == text;
            assert(rest[r - 1].text == text);
        }
        if is_number(rest, text) {
            let r = choose|r: int| 0 <= r < rest.len() && (#[trigger] rest[r]).text == text;
            assert(readings[r + 1].text == text);
        }
        assert forall|r: int| #[trigger] is_reading_of(readings, r, text) implies parse::score_of(
            readings,
            text,
        ) == Some(readings[r].score) by {
            if r > 0 {
                assert(readings[0].text != text);
                assert forall|q: int| 0 <= q < r - 1 implies (#[trigger] rest[q]).text != text by {
                    assert(readings[q + 1].text != text);
                }
                assert(is_reading_of(rest, r - 1, text));
            }
        }
    }
}

/// Whether the texts are those of the row: an integer, a name, a number and a
/// version.
pub open spec fn are_texts_of(
    readings: Seq<ReadingView>,
    rank: Seq<char>,
    team: Seq<char>,
    score: Seq<char>,
    version: Seq<char>,
    row: RowView,
) -> bool {
    &&& text::integer_value(rank) == Some(row.rank as int)
    &&& row.team_id == team
    &&& row.version == version
    &&& forall|r: int| #[trigger] is_reading_of(readings, r, score) ==> row.score == readings[r].score
}

/// Whether a row can be read out of the cells of a table row: there are four, the
/// first is an integer, and the third without its commas is a number.
pub open spec fn are_row_cells(readings: Seq<ReadingView>, cells: Seq<Seq<char>>) -> bool {
    &&& cells.len() >= 4
    &&& text::integer_value(cells[0]) is Some
    &&& is_number(readings, parse::plain_score(cells[2]))
}

/// Every table row whose filled cells make a row gives one, in order, and no other
/// does.
pub proof fn table_rows_are_all_read(
    readings: Seq<ReadingView>,
    table: Seq<Seq<Seq<Seq<char>>>>,
) -> (places: Seq<int>)
    ensures
        seqs::are_places(places, table.len()),
        parse::rows_of_table(readings, table).len() == places.len(),
        forall|i: int|
            0 <= i < table.len() ==> (#[trigger] places.contains(i) <==> are_row_cells(
                readings,
                parse::filled_cells(table[i]),
            )),
        forall|k: int|
            0 <= k < places.len() ==> {
                let cells = parse::filled_cells(table[#[trigger] places[k]]);
                are_texts_of(
                    readings,
                    cells[0],
                    cells[1],
                    parse::plain_score(cells[2]),
                    cells[3],
                    parse::rows_of_table(readings, table)[k],
                )
            },
{
    let f = |cells: Seq<Seq<Seq<char>>>| parse::row_of_cells(readings, parse::filled_cells(cells));
    let places = seqs::lemma_filter_map_places(table, f);
    assert forall|i: int| 0 <= i < table.len() implies (#[trigger] places.contains(i)
        <==> are_row_cells(readings, parse::filled_cells(table[i]))) by {
        let cells = parse::filled_cells(table[i]);
        number_is_the_first_reading(readings, parse::plain_score(cells[2]));
        assert(places.contains(i) <==> f(table[i]) is Some);
    }
    assert forall|k: int| 0 <= k < places.len() implies {
        let cells = parse::filled_cells(table[#[trigger] places[k]]);
        are_texts_of(
            readings,
            cells[0],
            cells[1],
            parse::plain_score(cells[2]),
            cells[3],
            parse::rows_of_table(readings, table)[k],
        )
    } by {
        let cells = parse::filled_cells(table[places[k]]);
        number_is_the_first_reading(readings, parse::plain_score(cells[2]));
        assert(f(table[places[k]]) == Some(parse::rows_of_table(readings, table)[k]));
    }
    places
}

/// Whether a row can be read out of the groups of a match.
pub open spec fn are_row_groups(readings: Seq<ReadingView>, groups: Seq<Option<Seq<char>>>) -> bool {
    &&& groups.len() > 4
    &&& groups[1] matches Some(rank) && text::integer_value(rank) is Some
    &&& groups[2] is Some
    &&& groups[3] matches Some(score) && is_number(readings, score)
    &&& groups[4] is Some
}

/// Every match whose groups make a row gives one, in order, and no other does.
pub proof fn matches_are_all_read(
    readings: Seq<ReadingView>,
    matches: Seq<Seq<Option<Seq<char>>>>,
) -> (places: Seq<int>)
    ensures
        seqs::are_places(places, matches.len()),
        parse::rows_of_matches(readings, matches).len() == places.len(),
        forall|i: int|
            0 <= i < matches.len() ==> (#[trigger] places.contains(i) <==> are_row_groups(
                readings,
                matches[i],
            )),
        forall|k: int|
            0 <= k < places.len() ==> {
                let groups = matches[#[trigger] places[k]];
                are_texts_of(
                    readings,
                    groups[1]->Some_0,
                    groups[2]->Some_0,
                    groups[3]->Some_0,
                    groups[4]->Some_0,
                    parse::rows_of_matches(readings, matches)[k],
                )
            },
{
    let f = |groups: Seq<Option<Seq<char>>>| parse::row_of_groups(readings, groups);
    let places = seqs::lemma_filter_map_places(matches, f);
    assert forall|i: int| 0 <= i < matches.len() implies (#[trigger] places.contains(i)
        <==> are_row_groups(readings, matches[i])) by {
        if matches[i].len() > 3 && matches[i][3] is Some {
            number_is_the_first_reading(readings, matches[i][3]->Some_0);
        }
        assert(places.contains(i) <==> f(matches[i]) is Some);
    }
    assert forall|k: int| 0 <= k < places.len() implies {
        let groups = matches[#[trigger] places[k]];
        are_texts_of(
            readings,
            groups[1]->Some_0,
            groups[2]->Some_0,
            groups[3]->Some_0,
            groups[4]->Some_0,
            parse::rows_of_matches(readings, matches)[k],
        )
    } by {
        let groups = matches[places[k]];
        assert(f(groups) == Some(parse::rows_of_matches(readings, matches)[k]));
        number_is_the_first_reading(readings, groups[3]->Some_0);
    }
    places
}

/// The filled cells are what the cells say, white space at the ends aside, without
/// those that say nothing.
pub proof fn filled_cells_are_what_cells_say(cells: Seq<Seq<Seq<char>>>) -> (places: Seq<int>)
    ensures
        seqs::are_places(places, cells.len()),
        parse::filled_cells(cells).len() == places.len(),
        forall|i: int|
            0 <= i < cells.len() ==> (#[trigger] places.contains(i) <==> text::trimmed(
                text::joined(cells[i], " "@),
            ).len() > 0),
        forall|k: int|
            0 <= k < places.len() ==> parse::filled_cells(cells)[k] == text::trimmed(
                text::joined(cells[#[trigger] places[k]], " "@),
            ),
{
    let said = cells.map_values(|texts: Seq<Seq<char>>| parse::cell_text(texts));
    let keep = |cell: Seq<char>| cell.len() > 0;
    let places = seqs::lemma_filter_places(said, keep);
    assert forall|i: int| 0 <= i < cells.len() implies (#[trigger] places.contains(i)
        <==> text::trimmed(text::joined(cells[i], " "@)).len() > 0) by {
        assert(places.contains(i) <==> keep(said[i]));
    }
    places
}

/// A score without its commas has every other character, in order, and no comma.
pub proof fn only_commas_are_left_out(cell: Seq<char>) -> (places: Seq<int>)
    ensures
        seqs::are_places(places, cell.len()),
        parse::plain_score(cell).len() == places.len(),
        forall|i: int| 0 <= i < cell.len() ==> (#[trigger] places.contains(i) <==> cell[i] != ','),
        forall|k: int|
            0 <= k < places.len() ==> parse::plain_score(cell)[k] == cell[#[trigger] places[k]],
{
    seqs::lemma_filter_places(cell, |c: char| c != ',')
}

/// The text of a document has every piece that is more than white space, each on a
/// line of its own, in order.
pub proof fn document_text_has_every_piece(pieces: Seq<Seq<char>>, lines: Seq<Seq<char>>) -> (places:
    Seq<int>)
    ensures
        seqs::are_places(places, pieces.len()),
        forall|i: int|
            0 <= i < pieces.len() ==> (#[trigger] places.contains(i) <==> text::trimmed(
                pieces[i],
            ).len() > 0),
        lines.len() == places.len() && (forall|k: int|
            0 <= k < places.len() ==> #[trigger] lines[k] == text::trimmed(pieces[places[k]]))
            ==> parse::text_of_pieces(pieces) == text::joined(lines, "\n"@),
{
    let said = pieces.map_values(|piece: Seq<char>| text::trimmed(piece));
    let keep = |piece: Seq<char>| piece.len() > 0;
    let places = seqs::lemma_filter_places(said, keep);
    assert forall|i: int| 0 <= i < pieces.len() implies (#[trigger] places.contains(i)
        <==> text::trimmed(pieces[i]).len() > 0) by {
        assert(places.contains(i) <==> keep(said[i]));
    }
    if lines.len() == places.len() && (forall|k: int|
        0 <= k < places.len() ==> #[trigger] lines[k] == text::trimmed(pieces[places[k]])) {
        assert forall|k: int| 0 <= k < lines.len() implies lines[k] == said.filter(keep)[k] by {
            assert(said.filter(keep)[k] == said[places[k]]);
        }
        assert(lines =~= said.filter(keep));
    }
    places
}

/// A page has a leaderboard exactly where its tables or its lines give a row. All
/// rows of the tables are its rows; the lines count only where the tables give
/// none.
pub proof fn page_has_the_rows_of_its_tables_or_lines(readings: Seq<ReadingView>, html: Seq<char>)
    ensures
        ({
            let table = match bindings::nested_texts(html, "table tr"@, "td"@) {
                Some(table) => table,
                None => Seq::empty(),
            };
            let shown = parse::text_of_pieces(bindings::document_texts(html));
            let in_tables = parse::rows_of_table(readings, table);
            let in_lines = parse::rows_of_matches(
                readings,
                bindings::matches_found(LINE_PATTERN@, shown),
            );
            match parse::page_of(readings, html) {
                Ok(page) => {
                    &&& in_tables.len() > 0 ==> page.rows == in_tables
                    &&& in_tables.len() == 0 ==> page.rows == in_lines && in_lines.len() > 0
                    &&& page.source_updated_at == parse::date_in_text(shown)
                },
                Err(e) => e == ParseError::NoRowsInPage && in_tables.len() == 0 && in_lines.len()
                    == 0,
            }
        }),
{
}

/// A script bundle has a leaderboard exactly where the elements of its array give
/// a row, and has all of these rows.
pub proof fn bundle_has_the_rows_of_its_array(
    readings: Seq<ReadingView>,
    bundle: Seq<char>,
    groups: Seq<Option<Seq<char>>>,
)
    ensures
        bindings::match_found(ARRAY_PATTERN@, bundle) == Some(groups) && groups.len() > 1
            && groups[1] is Some ==> ({
            let rows = parse::rows_of_matches(
                readings,
                bindings::matches_found(ELEMENT_PATTERN@, groups[1]->Some_0),
            );
            match parse::bundle_of(readings, bundle) {
                Ok(page) => rows.len() > 0 && page.rows == rows && page.source_updated_at
                    == parse::date_in_text(bundle),
                Err(e) => e == ParseError::NoRowsInBundle && rows.len() == 0,
            }
        }),
        bindings::match_found(ARRAY_PATTERN@, bundle) is None ==> parse::bundle_of(readings, bundle)
            == Err::<parse::PageView, ParseError>(ParseError::NoRowsInBundle),
{
    if bindings::match_found(ARRAY_PATTERN@, bundle) is None {
        matches_are_all_read(readings, Seq::empty());
    }
}

/// The date of a text is the day that follows the words about the latest update,
/// as year, month and day.
pub proof fn date_is_the_day_that_is_named(
    text: Seq<char>,
    groups: Seq<Option<Seq<char>>>,
    named: Seq<char>,
    year: i32,
    month: u32,
    day: u32,
)
    requires
        0 <= year <= 9999,
    ensures
        bindings::match_found(DATE_PATTERN@, text) is None ==> parse::date_in_text(text) is None,
        bindings::match_found(DATE_PATTERN@, text) == Some(groups) && (groups.len() <= 1
            || groups[1] is None) ==> parse::date_in_text(text) is None,
        bindings::match_found(DATE_PATTERN@, text) == Some(groups) && groups.len() > 1 && groups[1]
            == Some(named) && bindings::date_found(text::trimmed(named), "%B %d, %Y"@) == Some(
            (year, month, day),
        ) ==> parse::date_in_text(text) == Some(
            text::padded(year as nat, 4) + "-"@ + text::padded(month as nat, 2) + "-"@
                + text::padded(day as nat, 2),
        ),
        bindings::match_found(DATE_PATTERN@, text) == Some(groups) && groups.len() > 1 && groups[1]
            == Some(named) && bindings::date_found(text::trimmed(named), "%B %d, %Y"@) is None
            && bindings::date_found(text::trimmed(named), "%B %-d, %Y"@) == Some(
            (year, month, day),
        ) ==> parse::date_in_text(text) == Some(
            text::padded(year as nat, 4) + "-"@ + text::padded(month as nat, 2) + "-"@
                + text::padded(day as nat, 2),
        ),
        bindings::match_found(DATE_PATTERN@, text) == Some(groups) && groups.len() > 1 && groups[1]
            == Some(named) && bindings::date_found(text::trimmed(named), "%B %d, %Y"@) is None
            && bindings::date_found(text::trimmed(named), "%B %-d, %Y"@) is None
            ==> parse::date_in_text(text) is None,
{
    reveal_strlit("-");
    assert(parse::day_text(year as int, month as int, day as int) =~= text::padded(year as nat, 4)
        + "-"@ + text::padded(month as nat, 2) + "-"@ + text::padded(day as nat, 2));
}

/// A year of more than four digits has a plus sign, one before the year zero a minus
/// sign.
pub proof fn years_out_of_range_have_a_sign(year: int, month: nat, day: nat)
    requires
        year > 0,
    ensures
        ({
            let rest = "-"@ + text::padded(month, 2) + "-"@ + text::padded(day, 2);
            &&& year > 9999 ==> parse::day_text(year, month as int, day as int) == "+"@
                + text::padded(year as nat, 4) + rest
            &&& parse::day_text(-year, month as int, day as int) == "-"@ + text::padded(
                year as nat,
                4,
            ) + rest
        }),
{
    reveal_strlit("-");
    reveal_strlit("+");
    let rest = "-"@ + text::padded(month, 2) + "-"@ + text::padded(day, 2);
    if year > 9999 {
        assert(parse::day_text(year, month as int, day as int) =~= "+"@ + text::padded(
            year as nat,
            4,
        ) + rest);
    }
    assert(parse::day_text(-year, month as int, day as int) =~= "-"@ + text::padded(year as nat, 4)
        + rest);
}

/// Whether a source is one of a bundle: it has `/assets/index-` somewhere in it and
/// ends in `.js`.
pub open spec fn names_bundle(source: Option<Seq<char>>) -> bool {
    source matches Some(path) && exists|a: Seq<char>, b: Seq<char>|
        path == #[trigger] (a + "/assets/index-"@ + b) && ".js"@.is_suffix_of(path)
}

proof fn lemma_names_bundle(source: Option<Seq<char>>)
    ensures
        names_bundle(source) == parse::is_bundle(source),
{
    let middle = "/assets/index-"@;
    if let Some(path) = source {
        if parse::is_bundle(source) {
            let i = choose|i: int|
                0 <= i <= path.len() - middle.len() && #[trigger] path.subrange(
                    i,
                    i + middle.len(),
                ) == middle;
            let a = path.take(i);
            let b = path.skip(i + middle.len());
            assert(path =~= a + middle + b);
        }
        if names_bundle(source) {
            let (a, b) = choose|a: Seq<char>, b: Seq<char>|
                path == #[trigger] (a + middle + b) && ".js"@.is_suffix_of(path);
            assert(path.subrange(a.len() as int, (a.len() + middle.len()) as int) =~= middle);
        }
    }
}

/// The bundle of a page is the first script source that names one; there is none
/// where no source does.
pub proof fn bundle_is_the_first_one_named(sources: Seq<Option<Seq<char>>>)
    ensures
        forall|i: int|
            0 <= i < sources.len() && names_bundle(#[trigger] sources[i]) && (forall|j: int|
                0 <= j < i ==> !names_bundle(#[trigger] sources[j])) ==> parse::bundle_among(sources)
                == sources[i],
        (forall|i: int| 0 <= i < sources.len() ==> !names_bundle(#[trigger] sources[i]))
            ==> parse::bundle_among(sources) is None,
    decreases sources.len(),
{
    if sources.len() > 0 {
        let rest = sources.drop_first();
        bundle_is_the_first_one_named(rest);
        lemma_names_bundle(sources[0]);
        assert(forall|q: int| 0 <= q < rest.len() ==> #[trigger] rest[q] == sources[q + 1]);
        assert forall|i: int|
            0 <= i < sources.len() && names_bundle(#[trigger] sources[i]) && (forall|j: int|
                0 <= j < i ==> !names_bundle(#[trigger] sources[j])) implies parse::bundle_among(
            sources,
        ) == sources[i] by {
            if i > 0 {
                assert(!names_bundle(sources[0]));
                assert(rest[i - 1] == sources[i]);
                assert forall|j: int| 0 <= j < i - 1 implies !names_bundle(#[trigger] rest[j]) by {
                    assert(!names_bundle(sources[j + 1]));
                }
            }
        }
        if forall|i: int| 0 <= i < sources.len() ==> !names_bundle(#[trigger] sources[i]) {
            assert(!names_bundle(sources[0]));
            assert forall|j: int| 0 <= j < rest.len() implies !names_bundle(#[trigger] rest[j]) by {
                assert(!names_bundle(sources[j + 1]));
            }
        }
    }
}

/// A page with a leaderboard needs no bundle. A page without one asks for its
/// bundle: at the bundle's own address where that is a whole one, else at the
/// address that it means on the page.
pub proof fn bundle_is_fetched_only_where_needed(
    readings: Seq<ReadingView>,
    url: Seq<char>,
    html: Seq<char>,
    path: Seq<char>,
)
    ensures
        parse::page_of(readings, html) matches Ok(page) ==> fetch::step_of(readings, url, html)
            == Ok::<StepView, FetchError>(StepView::Done(page)),
        parse::page_of(readings, html) is Err && parse::bundle_path_of(html) is None
            ==> fetch::step_of(readings, url, html) == Err::<StepView, FetchError>(
            FetchError::NoBundle,
        ),
        parse::page_of(readings, html) is Err && parse::bundle_path_of(html) == Some(path) ==> {
            let whole = "http://"@.is_prefix_of(path) || "https://"@.is_prefix_of(path);
            let step = fetch::step_of(readings, url, html);
            &&& whole ==> step == Ok::<StepView, FetchError>(StepView::FetchBundle(path))
            &&& !whole ==> match bindings::url_joined(url, path) {
                Some(Some(joined)) => step == Ok::<StepView, FetchError>(
                    StepView::FetchBundle(joined),
                ),
                Some(None) => step == Err::<StepView, FetchError>(FetchError::InvalidBundleUrl),
                None => step == Err::<StepView, FetchError>(FetchError::InvalidUrl),
            }
        },
        bindings::attributes_found(html, "script[src]"@, "src"@) is None ==> parse::bundle_path_of(
            html,
        ) is None,
        bindings::attributes_found(html, "script[src]"@, "src"@) matches Some(sources) ==> (
        parse::bundle_path_of(html) == parse::bundle_among(sources)),
{
}

}
