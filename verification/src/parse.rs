//! Reading the leaderboard out of its page.
use crate::bindings::{
    self, find_match, find_matches, parse_date, select_attributes, select_nested_texts,
    texts_of_document, LONGEST_DOCUMENT,
};
use crate::score::{Score, ScoreView};
use crate::seqs;
use crate::text::{
    self, char_list, contains, ends_with, join, padded_text, parse_integer, remove_char, same_text, trim,
};
use vstd::prelude::*;
use vstd::string::*;

verus! {

/// One line of the leaderboard.
#[derive(Debug)]
pub struct LeaderboardRow {
    pub rank: i64,
    pub team_id: String,
    pub score: Score,
    pub version: String,
}

/// What a [`LeaderboardRow`] holds.
#[verifier::ext_equal]
pub struct RowView {
    pub rank: i64,
    pub team_id: Seq<char>,
    pub score: ScoreView,
    pub version: Seq<char>,
}

impl DeepView for LeaderboardRow {
    type V = RowView;

    open spec fn deep_view(&self) -> RowView {
        RowView {
            rank: self.rank,
            team_id: self.team_id@,
            score: self.score.deep_view(),
            version: self.version@,
        }
    }
}

impl Clone for LeaderboardRow {
    fn clone(&self) -> (copy: Self)
        ensures
            copy == *self,
    {
        LeaderboardRow {
            rank: self.rank,
            team_id: self.team_id.clone(),
            score: self.score.clone(),
            version: self.version.clone(),
        }
    }
}

/// The leaderboard as a page shows it.
#[derive(Debug)]
pub struct LeaderboardPage {
    pub source_updated_at: Option<String>,
    pub rows: Vec<LeaderboardRow>,
}

/// What a [`LeaderboardPage`] holds.
#[verifier::ext_equal]
pub struct PageView {
    pub source_updated_at: Option<Seq<char>>,
    pub rows: Seq<RowView>,
}

impl DeepView for LeaderboardPage {
    type V = PageView;

    open spec fn deep_view(&self) -> PageView {
        PageView {
            source_updated_at: self.source_updated_at.deep_view(),
            rows: self.rows.deep_view(),
        }
    }
}

/// A text that denotes a number, and the number.
#[derive(Debug)]
pub struct ScoreReading {
    pub text: String,
    pub score: Score,
}

/// What a [`ScoreReading`] holds.
#[verifier::ext_equal]
pub struct ReadingView {
    pub text: Seq<char>,
    pub score: ScoreView,
}

impl DeepView for ScoreReading {
    type V = ReadingView;

    open spec fn deep_view(&self) -> ReadingView {
        ReadingView { text: self.text@, score: self.score.deep_view() }
    }
}

/// Why a text holds no leaderboard.
#[derive(Debug, Clone, Copy, PartialEq, Eq, Structural)]
pub enum ParseError {
    NoRowsInPage,
    NoRowsInBundle,
}

/// The date of a leaderboard.
pub const DATE_PATTERN: &'static str = r"Latest(?:\s+Update\s+Date| update:)\s*([A-Za-z]+ \d{1,2}, \d{4})";

/// A line of a leaderboard: rank, team, score and version.
pub const LINE_PATTERN: &'static str =
    r"(?m)^\s*#?(\d+)\s+([A-Za-z0-9._-]+)\s+(-?\d+(?:\.\d+)?)\s+([A-Za-z0-9._-]+)\s*$";

/// The array of a script bundle that holds the leaderboard.
pub const ARRAY_PATTERN: &'static str = r"const OT=\[(?s)(.*?)\];function";

/// An element of that array: rank, team, score and version.
pub const ELEMENT_PATTERN: &'static str =
    r#"\{rank:(\d+),team:"([^"]+)",score:([0-9.]+),version:"([^"]+)"\}"#;

/// The number that the text denotes, by the first reading of it.
pub open spec fn score_of(readings: Seq<ReadingView>, text: Seq<char>) -> Option<ScoreView>
    decreases readings.len(),
{
    if readings.len() == 0 {
        None
    } else if readings[0].text == text {
        Some(readings[0].score)
    } else {
        score_of(readings.drop_first(), text)
    }
}

/// The row of the four texts; `None` where the rank is no integer or the score
/// no number.
pub open spec fn row_of_texts(
    readings: Seq<ReadingView>,
    rank: Seq<char>,
    team_id: Seq<char>,
    score: Seq<char>,
    version: Seq<char>,
) -> Option<RowView> {
    match (text::integer_value(rank), score_of(readings, score)) {
        (Some(rank), Some(score)) => Some(RowView { rank: rank as i64, team_id, score, version }),
        _ => None,
    }
}

/// A group of a match; `None` where it took no part.
pub open spec fn group(groups: Seq<Option<Seq<char>>>, i: int) -> Option<Seq<char>> {
    if i < groups.len() {
        groups[i]
    } else {
        None
    }
}

/// The row of a match whose groups are rank, team, score and version.
pub open spec fn row_of_groups(
    readings: Seq<ReadingView>,
    groups: Seq<Option<Seq<char>>>,
) -> Option<RowView> {
    match (group(groups, 1), group(groups, 2), group(groups, 3), group(groups, 4)) {
        (Some(rank), Some(team_id), Some(score), Some(version)) => row_of_texts(
            readings,
            rank,
            team_id,
            score,
            version,
        ),
        _ => None,
    }
}

/// The rows of the matches, in order; a match that gives none is left out.
pub open spec fn rows_of_matches(
    readings: Seq<ReadingView>,
    matches: Seq<Seq<Option<Seq<char>>>>,
) -> Seq<RowView> {
    matches.filter_map(|groups: Seq<Option<Seq<char>>>| row_of_groups(readings, groups))
}

/// A score without the commas that group its digits.
pub open spec fn plain_score(cell: Seq<char>) -> Seq<char> {
    cell.filter(|c: char| c != ',')
}

/// The row of a table row's cells: rank, team, score and version; further cells
/// are ignored.
pub open spec fn row_of_cells(readings: Seq<ReadingView>, cells: Seq<Seq<char>>) -> Option<RowView> {
    if cells.len() < 4 {
        None
    } else {
        row_of_texts(readings, cells[0], cells[1], plain_score(cells[2]), cells[3])
    }
}

/// What a cell says: its pieces of text behind one another, without white space
/// at the ends.
pub open spec fn cell_text(texts: Seq<Seq<char>>) -> Seq<char> {
    text::trimmed(text::joined(texts, " "@))
}

/// The cells of a table row that say anything.
pub open spec fn filled_cells(cells: Seq<Seq<Seq<char>>>) -> Seq<Seq<char>> {
    cells.map_values(|texts: Seq<Seq<char>>| cell_text(texts)).filter(
        |cell: Seq<char>| cell.len() > 0,
    )
}

/// The rows of a table, in order; a table row that gives none is left out.
pub open spec fn rows_of_table(readings: Seq<ReadingView>, table: Seq<Seq<Seq<Seq<char>>>>) -> Seq<
    RowView,
> {
    table.filter_map(|cells: Seq<Seq<Seq<char>>>| row_of_cells(readings, filled_cells(cells)))
}

/// The text of a document: its pieces without white space at the ends, one to a
/// line; empty pieces are left out.
pub open spec fn text_of_pieces(texts: Seq<Seq<char>>) -> Seq<char> {
    text::joined(
        texts.map_values(|piece: Seq<char>| text::trimmed(piece)).filter(
            |piece: Seq<char>| piece.len() > 0,
        ),
        "\n"@,
    )
}

/// A day in the form year-month-day. A year beyond four digits, or before the
/// year zero, has its sign.
pub open spec fn day_text(year: int, month: int, day: int) -> Seq<char> {
    let sign = if year < 0 {
        seq!['-']
    } else if year > 9999 {
        seq!['+']
    } else {
        Seq::empty()
    };
    let years = text::padded(
        if year < 0 {
            (-year) as nat
        } else {
            year as nat
        },
        4,
    );
    sign + years + seq!['-'] + text::padded(month as nat, 2) + seq!['-'] + text::padded(
        day as nat,
        2,
    )
}

/// The day that a text like `May 7, 2026` denotes.
pub open spec fn normalized_date(input: Seq<char>) -> Option<Seq<char>> {
    let date = match bindings::date_found(text::trimmed(input), "%B %d, %Y"@) {
        Some(date) => Some(date),
        None => bindings::date_found(text::trimmed(input), "%B %-d, %Y"@),
    };
    match date {
        Some((year, month, day)) => Some(day_text(year as int, month as int, day as int)),
        None => None,
    }
}

/// The date of the leaderboard that a text shows.
pub open spec fn date_in_text(text: Seq<char>) -> Option<Seq<char>> {
    match bindings::match_found(DATE_PATTERN@, text) {
        Some(groups) => match group(groups, 1) {
            Some(date) => normalized_date(date),
            None => None,
        },
        None => None,
    }
}

/// The text that a document shows.
pub open spec fn document_text(html: Seq<char>) -> Seq<char> {
    text_of_pieces(bindings::document_texts(html))
}

/// The table rows of a document.
pub open spec fn table_of(html: Seq<char>) -> Seq<Seq<Seq<Seq<char>>>> {
    match bindings::nested_texts(html, "table tr"@, "td"@) {
        Some(table) => table,
        None => Seq::empty(),
    }
}

/// The lines of a document that look like rows.
pub open spec fn lines_of(html: Seq<char>) -> Seq<Seq<Option<Seq<char>>>> {
    bindings::matches_found(LINE_PATTERN@, document_text(html))
}

/// The rows of a page: those of its tables; where these give none, those of its
/// lines.
pub open spec fn page_rows(readings: Seq<ReadingView>, html: Seq<char>) -> Seq<RowView> {
    let rows = rows_of_table(readings, table_of(html));
    if rows.len() == 0 {
        rows_of_matches(readings, lines_of(html))
    } else {
        rows
    }
}

/// The leaderboard of a page.
pub open spec fn page_of(readings: Seq<ReadingView>, html: Seq<char>) -> Result<PageView, ParseError> {
    let rows = page_rows(readings, html);
    if rows.len() == 0 {
        Err(ParseError::NoRowsInPage)
    } else {
        Ok(PageView { source_updated_at: date_in_text(document_text(html)), rows })
    }
}

/// The elements of the array of a script bundle.
pub open spec fn elements_of(bundle: Seq<char>) -> Seq<Seq<Option<Seq<char>>>> {
    match bindings::match_found(ARRAY_PATTERN@, bundle) {
        Some(groups) => match group(groups, 1) {
            Some(array) => bindings::matches_found(ELEMENT_PATTERN@, array),
            None => Seq::empty(),
        },
        None => Seq::empty(),
    }
}

/// The leaderboard of a script bundle.
pub open spec fn bundle_of(readings: Seq<ReadingView>, bundle: Seq<char>) -> Result<
    PageView,
    ParseError,
> {
    let rows = rows_of_matches(readings, elements_of(bundle));
    if rows.len() == 0 {
        Err(ParseError::NoRowsInBundle)
    } else {
        Ok(PageView { source_updated_at: date_in_text(bundle), rows })
    }
}

/// Whether a script's source is the bundle of the page.
pub open spec fn is_bundle(source: Option<Seq<char>>) -> bool {
    source matches Some(path) && text::occurs(path, "/assets/index-"@) && ".js"@.is_suffix_of(path)
}

/// The first source that is the bundle of the page.
pub open spec fn bundle_among(sources: Seq<Option<Seq<char>>>) -> Option<Seq<char>>
    decreases sources.len(),
{
    if sources.len() == 0 {
        None
    } else if is_bundle(sources[0]) {
        sources[0]
    } else {
        bundle_among(sources.drop_first())
    }
}

/// The path of the script bundle of a page.
pub open spec fn bundle_path_of(html: Seq<char>) -> Option<Seq<char>> {
    match bindings::attributes_found(html, "script[src]"@, "src"@) {
        Some(sources) => bundle_among(sources),
        None => None,
    }
}

impl ParseError {
    /// The message of the error.
    pub fn message(self) -> (text: &'static str)
        ensures
            text@ == match self {
                ParseError::NoRowsInPage => "no leaderboard rows found in page"@,
                ParseError::NoRowsInBundle => "no leaderboard rows found in bundle"@,
            },
    {
        match self {
            ParseError::NoRowsInPage => "no leaderboard rows found in page",
            ParseError::NoRowsInBundle => "no leaderboard rows found in bundle",
        }
    }
}

/// Looks the number of a text up.
pub fn read_score(readings: &Vec<ScoreReading>, text: &str) -> (score: Option<Score>)
    ensures
        score.deep_view() == score_of(readings.deep_view(), text@),
{
    let ghost all = readings.deep_view();
    let mut i: usize = 0;
    assert(all.skip(0) =~= all);
    while i < readings.len()
        invariant
            i <= readings@.len(),
            all == readings.deep_view(),
            score_of(all, text@) == score_of(all.skip(i as int), text@),
        decreases readings@.len() - i,
    {
        proof {
            assert(all.skip(i as int)[0] == readings@[i as int].deep_view());
            assert(all.skip(i as int).drop_first() =~= all.skip(i + 1));
        }
        if same_text(readings[i].text.as_str(), text) {
            return Some(readings[i].score.clone());
        }
        i += 1;
    }
    None
}

fn parse_texts(
    readings: &Vec<ScoreReading>,
    rank: &str,
    team_id: &str,
    score: &str,
    version: &str,
) -> (row: Option<LeaderboardRow>)
    ensures
        row.deep_view() == row_of_texts(
            readings.deep_view(),
            rank@,
            team_id@,
            score@,
            version@,
        ),
{
    match (parse_integer(rank), read_score(readings, score)) {
        (Some(rank), Some(score)) => Some(
            LeaderboardRow {
                rank,
                team_id: team_id.to_owned(),
                score,
                version: version.to_owned(),
            },
        ),
        _ => None,
    }
}

fn group_text<'a>(groups: &'a Vec<Option<String>>, i: usize) -> (text: Option<&'a String>)
    ensures
        text.deep_view() == group(groups.deep_view(), i as int),
{
    if i < groups.len() {
        match &groups[i] {
            Some(text) => Some(text),
            None => None,
        }
    } else {
        None
    }
}

/// The row of a match whose groups are rank, team, score and version.
pub fn parse_groups(readings: &Vec<ScoreReading>, groups: &Vec<Option<String>>) -> (row: Option<
    LeaderboardRow,
>)
    ensures
        row.deep_view() == row_of_groups(readings.deep_view(), groups.deep_view()),
{
    match (group_text(groups, 1), group_text(groups, 2), group_text(groups, 3), group_text(groups, 4)) {
        (Some(rank), Some(team_id), Some(score), Some(version)) => parse_texts(
            readings,
            rank.as_str(),
            team_id.as_str(),
            score.as_str(),
            version.as_str(),
        ),
        _ => None,
    }
}

/// The rows of the matches, in order.
pub fn parse_matches(readings: &Vec<ScoreReading>, matches: &Vec<Vec<Option<String>>>) -> (rows: Vec<
    LeaderboardRow,
>)
    ensures
        rows.deep_view() == rows_of_matches(readings.deep_view(), matches.deep_view()),
{
    let ghost all = matches.deep_view();
    let ghost known = readings.deep_view();
    let ghost f = |groups: Seq<Option<Seq<char>>>| row_of_groups(known, groups);
    let mut rows: Vec<LeaderboardRow> = Vec::new();
    let mut i: usize = 0;
    proof {
        reveal(Seq::filter_map);
        assert(all.take(0).filter_map(f) =~= Seq::<RowView>::empty());
        assert(rows.deep_view() =~= Seq::<RowView>::empty());
    }
    while i < matches.len()
        invariant
            i <= matches@.len(),
            all == matches.deep_view(),
            known == readings.deep_view(),
            f == (|groups: Seq<Option<Seq<char>>>| row_of_groups(known, groups)),
            rows.deep_view() == all.take(i as int).filter_map(f),
        decreases matches@.len() - i,
    {
        let ghost before = rows.deep_view();
        proof {
            all.lemma_filter_map_take_succ(f, i as int);
            assert(all[i as int] == matches@[i as int].deep_view());
        }
        if let Some(row) = parse_groups(readings, &matches[i]) {
            let ghost view = row.deep_view();
            rows.push(row);
            assert(rows.deep_view() =~= before.push(view));
        }
        i += 1;
    }
    assert(all.take(i as int) =~= all);
    rows
}

/// The row of a table row's cells.
pub fn parse_cells(readings: &Vec<ScoreReading>, cells: &Vec<String>) -> (row: Option<LeaderboardRow>)
    ensures
        row.deep_view() == row_of_cells(readings.deep_view(), cells.deep_view()),
{
    if cells.len() < 4 {
        return None;
    }
    let score = remove_char(cells[2].as_str(), ',');
    parse_texts(
        readings,
        cells[0].as_str(),
        cells[1].as_str(),
        score.as_str(),
        cells[3].as_str(),
    )
}

/// Whether the text has no character.
fn is_empty(text: &str) -> (empty: bool)
    ensures
        empty == (text@.len() == 0),
{
    char_list(text).len() == 0
}

/// The cells of a table row that say anything.
pub fn fill_cells(cells: &Vec<Vec<String>>) -> (filled: Vec<String>)
    ensures
        filled.deep_view() == filled_cells(cells.deep_view()),
{
    let ghost all = cells.deep_view();
    let ghost said = all.map_values(|texts: Seq<Seq<char>>| cell_text(texts));
    let ghost keep = |cell: Seq<char>| cell.len() > 0;
    let mut filled: Vec<String> = Vec::new();
    let mut i: usize = 0;
    proof {
        reveal(Seq::filter);
        assert(said.take(0).filter(keep) =~= Seq::<Seq<char>>::empty());
        assert(filled.deep_view() =~= Seq::<Seq<char>>::empty());
    }
    while i < cells.len()
        invariant
            i <= cells@.len(),
            all == cells.deep_view(),
            said == all.map_values(|texts: Seq<Seq<char>>| cell_text(texts)),
            keep == (|cell: Seq<char>| cell.len() > 0),
            filled.deep_view() == said.take(i as int).filter(keep),
        decreases cells@.len() - i,
    {
        let ghost before = filled.deep_view();
        let cell = trim(join(&cells[i], " ").as_str());
        proof {
            assert(all[i as int] == cells@[i as int].deep_view());
            said.take(i as int).lemma_filter_push(cell@, keep);
            assert(said.take(i as int).push(cell@) =~= said.take(i + 1));
        }
        if !is_empty(cell.as_str()) {
            let ghost view = cell@;
            filled.push(cell);
            assert(filled.deep_view() =~= before.push(view));
        }
        i += 1;
    }
    assert(said.take(i as int) =~= said);
    filled
}

/// The rows of a table, in order.
pub fn parse_table(readings: &Vec<ScoreReading>, table: &Vec<Vec<Vec<String>>>) -> (rows: Vec<
    LeaderboardRow,
>)
    ensures
        rows.deep_view() == rows_of_table(readings.deep_view(), table.deep_view()),
{
    let ghost all = table.deep_view();
    let ghost known = readings.deep_view();
    let ghost f = |cells: Seq<Seq<Seq<char>>>| row_of_cells(known, filled_cells(cells));
    let mut rows: Vec<LeaderboardRow> = Vec::new();
    let mut i: usize = 0;
    proof {
        reveal(Seq::filter_map);
        assert(all.take(0).filter_map(f) =~= Seq::<RowView>::empty());
        assert(rows.deep_view() =~= Seq::<RowView>::empty());
    }
    while i < table.len()
        invariant
            i <= table@.len(),
            all == table.deep_view(),
            known == readings.deep_view(),
            f == (|cells: Seq<Seq<Seq<char>>>| row_of_cells(known, filled_cells(cells))),
            rows.deep_view() == all.take(i as int).filter_map(f),
        decreases table@.len() - i,
    {
        let ghost before = rows.deep_view();
        let cells = fill_cells(&table[i]);
        proof {
            all.lemma_filter_map_take_succ(f, i as int);
            assert(all[i as int] == table@[i as int].deep_view());
        }
        if let Some(row) = parse_cells(readings, &cells) {
            let ghost view = row.deep_view();
            rows.push(row);
            assert(rows.deep_view() =~= before.push(view));
        }
        i += 1;
    }
    assert(all.take(i as int) =~= all);
    rows
}

/// The pieces of text of a document, one to a line.
pub fn join_pieces(texts: &Vec<String>) -> (out: String)
    ensures
        out@ == text_of_pieces(texts.deep_view()),
{
    let ghost all = texts.deep_view();
    let ghost said = all.map_values(|piece: Seq<char>| text::trimmed(piece));
    let ghost keep = |piece: Seq<char>| piece.len() > 0;
    let mut lines: Vec<String> = Vec::new();
    let mut i: usize = 0;
    proof {
        reveal(Seq::filter);
        assert(said.take(0).filter(keep) =~= Seq::<Seq<char>>::empty());
        assert(lines.deep_view() =~= Seq::<Seq<char>>::empty());
    }
    while i < texts.len()
        invariant
            i <= texts@.len(),
            all == texts.deep_view(),
            said == all.map_values(|piece: Seq<char>| text::trimmed(piece)),
            keep == (|piece: Seq<char>| piece.len() > 0),
            lines.deep_view() == said.take(i as int).filter(keep),
        decreases texts@.len() - i,
    {
        let ghost before = lines.deep_view();
        let line = trim(texts[i].as_str());
        proof {
            assert(all[i as int] == texts@[i as int].deep_view());
            said.take(i as int).lemma_filter_push(line@, keep);
            assert(said.take(i as int).push(line@) =~= said.take(i + 1));
        }
        if !is_empty(line.as_str()) {
            let ghost view = line@;
            lines.push(line);
            assert(lines.deep_view() =~= before.push(view));
        }
        i += 1;
    }
    assert(said.take(i as int) =~= said);
    join(&lines, "\n")
}

/// The text that a document shows.
pub fn collect_text(html: &str) -> (text: String)
    requires
        html@.len() <= LONGEST_DOCUMENT,
    ensures
        text@ == document_text(html@),
{
    join_pieces(&texts_of_document(html))
}

/// Writes a day in the form year-month-day.
pub fn write_day(year: i32, month: u32, day: u32) -> (out: String)
    ensures
        out@ == day_text(year as int, month as int, day as int),
{
    let mut out = String::new();
    let years: u64 = if year < 0 {
        out.push('-');
        (-(year as i64)) as u64
    } else {
        if year > 9999 {
            out.push('+');
        }
        year as u64
    };
    let ghost sign = out@;
    out.append(padded_text(years, 4).as_str());
    out.push('-');
    out.append(padded_text(month as u64, 2).as_str());
    out.push('-');
    out.append(padded_text(day as u64, 2).as_str());
    assert(out@ =~= day_text(year as int, month as int, day as int));
    out
}

/// The day that a text like `May 7, 2026` denotes.
pub fn normalize_date(input: &str) -> (date: Option<String>)
    ensures
        date.deep_view() == normalized_date(input@),
{
    let day = trim(input);
    let found = match parse_date(day.as_str(), "%B %d, %Y") {
        Some(date) => Some(date),
        None => parse_date(day.as_str(), "%B %-d, %Y"),
    };
    match found {
        Some(date) => Some(write_day(date.0, date.1, date.2)),
        None => None,
    }
}

/// The date of the leaderboard that a text shows.
pub fn extract_source_updated_at_from_text(text: &str) -> (date: Option<String>)
    ensures
        date.deep_view() == date_in_text(text@),
{
    match find_match(DATE_PATTERN, text) {
        Some(groups) => match group_text(&groups, 1) {
            Some(date) => normalize_date(date.as_str()),
            None => None,
        },
        None => None,
    }
}

/// The date of the leaderboard that a page shows.
pub fn extract_source_updated_at(html: &str) -> (date: Option<String>)
    requires
        html@.len() <= LONGEST_DOCUMENT,
    ensures
        date.deep_view() == date_in_text(document_text(html@)),
{
    extract_source_updated_at_from_text(collect_text(html).as_str())
}

fn table_texts(html: &str) -> (table: Vec<Vec<Vec<String>>>)
    requires
        html@.len() <= LONGEST_DOCUMENT,
    ensures
        table.deep_view() == table_of(html@),
{
    proof {
        reveal_strlit("table tr");
        reveal_strlit("td");
    }
    match select_nested_texts(html, "table tr", "td") {
        Some(table) => table,
        None => {
            let table: Vec<Vec<Vec<String>>> = Vec::new();
            assert(table.deep_view() =~= Seq::<Seq<Seq<Seq<char>>>>::empty());
            table
        },
    }
}

fn line_matches(html: &str) -> (matches: Vec<Vec<Option<String>>>)
    requires
        html@.len() <= LONGEST_DOCUMENT,
    ensures
        matches.deep_view() == lines_of(html@),
{
    find_matches(LINE_PATTERN, collect_text(html).as_str())
}

fn element_matches(bundle: &str) -> (matches: Vec<Vec<Option<String>>>)
    ensures
        matches.deep_view() == elements_of(bundle@),
{
    let none: Vec<Vec<Option<String>>> = Vec::new();
    assert(none.deep_view() =~= Seq::<Seq<Option<Seq<char>>>>::empty());
    match find_match(ARRAY_PATTERN, bundle) {
        Some(groups) => match group_text(&groups, 1) {
            Some(array) => find_matches(ELEMENT_PATTERN, array.as_str()),
            None => none,
        },
        None => none,
    }
}

/// The rows of the tables of a page.
pub fn parse_structured_rows(html: &str, readings: &Vec<ScoreReading>) -> (rows: Vec<LeaderboardRow>)
    requires
        html@.len() <= LONGEST_DOCUMENT,
    ensures
        rows.deep_view() == rows_of_table(readings.deep_view(), table_of(html@)),
{
    parse_table(readings, &table_texts(html))
}

/// The rows of the lines of a page.
pub fn parse_text_rows(html: &str, readings: &Vec<ScoreReading>) -> (rows: Vec<LeaderboardRow>)
    requires
        html@.len() <= LONGEST_DOCUMENT,
    ensures
        rows.deep_view() == rows_of_matches(readings.deep_view(), lines_of(html@)),
{
    parse_matches(readings, &line_matches(html))
}

/// The rows of a script bundle.
pub fn parse_bundle_rows(bundle: &str, readings: &Vec<ScoreReading>) -> (rows: Vec<LeaderboardRow>)
    ensures
        rows.deep_view() == rows_of_matches(readings.deep_view(), elements_of(bundle@)),
{
    parse_matches(readings, &element_matches(bundle))
}

/// The leaderboard of a page. `readings` tells which texts are numbers.
pub fn parse_leaderboard(html: &str, readings: &Vec<ScoreReading>) -> (page: Result<
    LeaderboardPage,
    ParseError,
>)
    requires
        html@.len() <= LONGEST_DOCUMENT,
    ensures
        match (page, page_of(readings.deep_view(), html@)) {
            (Ok(page), Ok(expected)) => page.deep_view() == expected,
            (Err(e), Err(expected)) => e == expected,
            _ => false,
        },
{
    let source_updated_at = extract_source_updated_at(html);
    let structured_rows = parse_structured_rows(html, readings);
    let rows = if structured_rows.len() == 0 {
        parse_text_rows(html, readings)
    } else {
        structured_rows
    };
    if rows.len() == 0 {
        return Err(ParseError::NoRowsInPage);
    }
    Ok(LeaderboardPage { source_updated_at, rows })
}

/// The leaderboard of a script bundle. `readings` tells which texts are numbers.
pub fn parse_leaderboard_bundle(bundle: &str, readings: &Vec<ScoreReading>) -> (page: Result<
    LeaderboardPage,
    ParseError,
>)
    ensures
        match (page, bundle_of(readings.deep_view(), bundle@)) {
            (Ok(page), Ok(expected)) => page.deep_view() == expected,
            (Err(e), Err(expected)) => e == expected,
            _ => false,
        },
{
    let source_updated_at = extract_source_updated_at_from_text(bundle);
    let rows = parse_bundle_rows(bundle, readings);
    if rows.len() == 0 {
        return Err(ParseError::NoRowsInBundle);
    }
    Ok(LeaderboardPage { source_updated_at, rows })
}

/// The first script source that is the bundle of a page.
pub fn choose_bundle(sources: &Vec<Option<String>>) -> (path: Option<String>)
    ensures
        path.deep_view() == bundle_among(sources.deep_view()),
{
    let ghost all = sources.deep_view();
    let mut i: usize = 0;
    assert(all.skip(0) =~= all);
    while i < sources.len()
        invariant
            i <= sources@.len(),
            all == sources.deep_view(),
            bundle_among(all) == bundle_among(all.skip(i as int)),
        decreases sources@.len() - i,
    {
        proof {
            assert(all.skip(i as int)[0] == sources@[i as int].deep_view());
            assert(all.skip(i as int).drop_first() =~= all.skip(i + 1));
        }
        if let Some(path) = &sources[i] {
            if contains(path.as_str(), "/assets/index-") && ends_with(path.as_str(), ".js") {
                return Some(path.clone());
            }
        }
        i += 1;
    }
    None
}

/// The path of the script bundle of a page.
pub fn extract_bundle_path(html: &str) -> (path: Option<String>)
    requires
        html@.len() <= LONGEST_DOCUMENT,
    ensures
        path.deep_view() == bundle_path_of(html@),
{
    proof {
        reveal_strlit("script[src]");
    }
    match select_attributes(html, "script[src]", "src") {
        Some(sources) => choose_bundle(&sources),
        None => None,
    }
}

/// The score text among a table row's cells.
pub open spec fn score_cell(cells: Seq<Seq<char>>) -> Option<Seq<char>> {
    if cells.len() < 4 {
        None
    } else {
        Some(plain_score(cells[2]))
    }
}

/// The score texts of a table.
pub open spec fn table_scores(table: Seq<Seq<Seq<Seq<char>>>>) -> Seq<Seq<char>> {
    table.filter_map(|cells: Seq<Seq<Seq<char>>>| score_cell(filled_cells(cells)))
}

/// The score texts of matches.
pub open spec fn match_scores(matches: Seq<Seq<Option<Seq<char>>>>) -> Seq<Seq<char>> {
    matches.filter_map(|groups: Seq<Option<Seq<char>>>| group(groups, 3))
}

fn scores_of_matches(matches: &Vec<Vec<Option<String>>>) -> (texts: Vec<String>)
    ensures
        texts.deep_view() == match_scores(matches.deep_view()),
{
    let ghost all = matches.deep_view();
    let ghost f = |groups: Seq<Option<Seq<char>>>| group(groups, 3);
    let mut texts: Vec<String> = Vec::new();
    let mut i: usize = 0;
    proof {
        reveal(Seq::filter_map);
        assert(all.take(0).filter_map(f) =~= Seq::<Seq<char>>::empty());
        assert(texts.deep_view() =~= Seq::<Seq<char>>::empty());
    }
    while i < matches.len()
        invariant
            i <= matches@.len(),
            all == matches.deep_view(),
            f == (|groups: Seq<Option<Seq<char>>>| group(groups, 3)),
            texts.deep_view() == all.take(i as int).filter_map(f),
        decreases matches@.len() - i,
    {
        let ghost before = texts.deep_view();
        proof {
            all.lemma_filter_map_take_succ(f, i as int);
            assert(all[i as int] == matches@[i as int].deep_view());
        }
        if let Some(text) = group_text(&matches[i], 3) {
            texts.push(text.clone());
            assert(texts.deep_view() =~= before.push(text@));
        }
        i += 1;
    }
    assert(all.take(i as int) =~= all);
    texts
}

fn scores_of_table(table: &Vec<Vec<Vec<String>>>) -> (texts: Vec<String>)
    ensures
        texts.deep_view() == table_scores(table.deep_view()),
{
    let ghost all = table.deep_view();
    let ghost f = |cells: Seq<Seq<Seq<char>>>| score_cell(filled_cells(cells));
    let mut texts: Vec<String> = Vec::new();
    let mut i: usize = 0;
    proof {
        reveal(Seq::filter_map);
        assert(all.take(0).filter_map(f) =~= Seq::<Seq<char>>::empty());
        assert(texts.deep_view() =~= Seq::<Seq<char>>::empty());
    }
    while i < table.len()
        invariant
            i <= table@.len(),
            all == table.deep_view(),
            f == (|cells: Seq<Seq<Seq<char>>>| score_cell(filled_cells(cells))),
            texts.deep_view() == all.take(i as int).filter_map(f),
        decreases table@.len() - i,
    {
        let ghost before = texts.deep_view();
        let cells = fill_cells(&table[i]);
        proof {
            all.lemma_filter_map_take_succ(f, i as int);
            assert(all[i as int] == table@[i as int].deep_view());
        }
        if cells.len() >= 4 {
            let text = remove_char(cells[2].as_str(), ',');
            let ghost view = text@;
            texts.push(text);
            assert(texts.deep_view() =~= before.push(view));
        }
        i += 1;
    }
    assert(all.take(i as int) =~= all);
    texts
}

/// The texts of a page whose numbers its leaderboard depends on.
pub fn page_score_texts(html: &str) -> (texts: Vec<String>)
    requires
        html@.len() <= LONGEST_DOCUMENT,
    ensures
        texts.deep_view() == table_scores(table_of(html@)) + match_scores(lines_of(html@)),
{
    let mut texts = scores_of_table(&table_texts(html));
    let ghost first = texts.deep_view();
    let mut more = scores_of_matches(&line_matches(html));
    let ghost second = more.deep_view();
    texts.append(&mut more);
    assert(texts.deep_view() =~= first + second);
    texts
}

/// The texts of a script bundle whose numbers its leaderboard depends on.
pub fn bundle_score_texts(bundle: &str) -> (texts: Vec<String>)
    ensures
        texts.deep_view() == match_scores(elements_of(bundle@)),
{
    scores_of_matches(&element_matches(bundle))
}

/// Whether two lists of readings give the same number for each of the texts.
pub open spec fn agree_on(a: Seq<ReadingView>, b: Seq<ReadingView>, texts: Seq<Seq<char>>) -> bool {
    forall|t: Seq<char>| #[trigger] texts.contains(t) ==> score_of(a, t) == score_of(b, t)
}

proof fn lemma_matches_agree(
    a: Seq<ReadingView>,
    b: Seq<ReadingView>,
    matches: Seq<Seq<Option<Seq<char>>>>,
)
    requires
        agree_on(a, b, match_scores(matches)),
    ensures
        rows_of_matches(a, matches) == rows_of_matches(b, matches),
{
    let f = |groups: Seq<Option<Seq<char>>>| row_of_groups(a, groups);
    let g = |groups: Seq<Option<Seq<char>>>| row_of_groups(b, groups);
    let h = |groups: Seq<Option<Seq<char>>>| group(groups, 3);
    assert forall|i: int| 0 <= i < matches.len() implies f(#[trigger] matches[i]) == g(
        matches[i],
    ) by {
        if group(matches[i], 3) is Some {
            seqs::lemma_filter_map_contains(matches, h, i);
        }
    }
    seqs::lemma_filter_map_same(matches, f, g);
}

/// The leaderboard of a page depends on the numbers of its score texts only.
pub proof fn page_depends_on_its_scores(a: Seq<ReadingView>, b: Seq<ReadingView>, html: Seq<char>)
    requires
        agree_on(a, b, table_scores(table_of(html)) + match_scores(lines_of(html))),
    ensures
        page_of(a, html) == page_of(b, html),
{
    let table = table_of(html);
    let first = table_scores(table);
    let second = match_scores(lines_of(html));
    assert forall|t: Seq<char>| #[trigger] first.contains(t) implies score_of(a, t) == score_of(
        b,
        t,
    ) by {
        let k = choose|k: int| 0 <= k < first.len() && first[k] == t;
        assert((first + second)[k] == t);
        assert((first + second).contains(t));
    }
    assert forall|t: Seq<char>| #[trigger] second.contains(t) implies score_of(a, t) == score_of(
        b,
        t,
    ) by {
        let k = choose|k: int| 0 <= k < second.len() && second[k] == t;
        assert((first + second)[first.len() + k] == t);
        assert((first + second).contains(t));
    }
    let f = |cells: Seq<Seq<Seq<char>>>| row_of_cells(a, filled_cells(cells));
    let g = |cells: Seq<Seq<Seq<char>>>| row_of_cells(b, filled_cells(cells));
    let h = |cells: Seq<Seq<Seq<char>>>| score_cell(filled_cells(cells));
    assert forall|i: int| 0 <= i < table.len() implies f(#[trigger] table[i]) == g(table[i]) by {
        if score_cell(filled_cells(table[i])) is Some {
            seqs::lemma_filter_map_contains(table, h, i);
        }
    }
    seqs::lemma_filter_map_same(table, f, g);
    lemma_matches_agree(a, b, lines_of(html));
}

/// The leaderboard of a script bundle depends on the numbers of its score texts
/// only.
pub proof fn bundle_depends_on_its_scores(
    a: Seq<ReadingView>,
    b: Seq<ReadingView>,
    bundle: Seq<char>,
)
    requires
        agree_on(a, b, match_scores(elements_of(bundle))),
    ensures
        bundle_of(a, bundle) == bundle_of(b, bundle),
{
    lemma_matches_agree(a, b, elements_of(bundle));
}

}
