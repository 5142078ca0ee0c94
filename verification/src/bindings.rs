//! The functions of other crates that the library computes with. Nothing in
//! this file is proved: each contract says what is taken on trust.
use vstd::prelude::*;

verus! {

/// The SHA-256 digest of `data`.
pub uninterp spec fn sha256_digest(data: Seq<u8>) -> Seq<u8>;

/// `sha2::Sha256::digest`: the digest of the bytes, 32 bytes long.
#[verifier::external_body]
pub(crate) fn sha256(data: &Vec<u8>) -> (digest: Vec<u8>)
    ensures
        digest@ == sha256_digest(data@),
        digest@.len() == 32,
{
    <sha2::Sha256 as sha2::Digest>::digest(data.as_slice()).to_vec()
}

/// The lower-case hexadecimal digit of a number below sixteen.
pub open spec fn hex_digit(n: int) -> char {
    if n < 10 {
        (48 + n) as char
    } else {
        (87 + n) as char
    }
}

/// Two lower-case hexadecimal digits for each byte, the high one first.
pub open spec fn hex_text(data: Seq<u8>) -> Seq<char> {
    Seq::new(
        2 * data.len(),
        |i: int|
            if i % 2 == 0 {
                hex_digit(data[i / 2] as int / 16)
            } else {
                hex_digit(data[i / 2] as int % 16)
            },
    )
}

/// `hex::encode`: two lower-case hexadecimal digits for each byte.
#[verifier::external_body]
pub(crate) fn hex_encode(data: &Vec<u8>) -> (text: String)
    ensures
        text@ == hex_text(data@),
{
    hex::encode(data)
}

/// The time that an RFC 3339 text denotes: its seconds since the start of 1970 in
/// UTC; and its year, month, day, hour and minute on the clock that the text goes
/// by. `None` where the text is not of that form.
pub uninterp spec fn rfc3339_time(text: Seq<char>) -> Option<(i64, (i32, u32, u32, u32, u32))>;

/// `chrono::DateTime::parse_from_rfc3339`, with the seconds and the clock of what
/// it gives: they depend on the text alone.
#[verifier::external_body]
pub(crate) fn parse_rfc3339(text: &str) -> (time: Option<(i64, (i32, u32, u32, u32, u32))>)
    ensures
        time == rfc3339_time(text@),
{
    let time = chrono::DateTime::parse_from_rfc3339(text).ok()?;
    let (year, month) = (chrono::Datelike::year(&time), chrono::Datelike::month(&time));
    let (hour, minute) = (chrono::Timelike::hour(&time), chrono::Timelike::minute(&time));
    Some((time.timestamp(), (year, month, chrono::Datelike::day(&time), hour, minute)))
}

/// The seconds of the time that an RFC 3339 text denotes.
pub open spec fn rfc3339_seconds(text: Seq<char>) -> Option<i64> {
    match rfc3339_time(text) {
        Some((seconds, _)) => Some(seconds),
        None => None,
    }
}

/// The clock of the time that an RFC 3339 text denotes.
pub open spec fn rfc3339_clock(text: Seq<char>) -> Option<(i32, u32, u32, u32, u32)> {
    match rfc3339_time(text) {
        Some((_, clock)) => Some(clock),
        None => None,
    }
}

/// Whether a time begins with a sign, as years outside the four digits do.
pub open spec fn has_sign(time: Seq<char>) -> bool {
    time.len() > 0 && (time[0] == '+' || time[0] == '-')
}

/// `chrono::Utc::now` as its RFC 3339 text. Which text that is depends on the
/// moment of the call. Unless its year has a sign it reads back as a time.
#[verifier::external_body]
pub(crate) fn utc_now() -> (time: String)
    ensures
        has_sign(time@) || rfc3339_seconds(time@) is Some,
{
    chrono::Utc::now().to_rfc3339()
}

/// The groups of the first match of the regular expression in the text, the
/// whole match first; `None` where nothing matches, or where the pattern is not
/// a regular expression.
pub uninterp spec fn match_found(pattern: Seq<char>, text: Seq<char>) -> Option<
    Seq<Option<Seq<char>>>,
>;

/// `regex::Regex::captures` on the expression that `regex::Regex::new` makes of
/// the pattern: the groups of the first match, which depend on the pattern and
/// the text alone.
#[verifier::external_body]
pub(crate) fn find_match(pattern: &str, text: &str) -> (groups: Option<Vec<Option<String>>>)
    ensures
        groups.deep_view() == match_found(pattern@, text@),
{
    let found = regex::Regex::new(pattern).ok()?.captures(text)?;
    Some(found.iter().map(|group| group.map(|m| m.as_str().to_string())).collect())
}

/// The groups of each match of the regular expression in the text, in order; no
/// match where the pattern is not a regular expression.
pub uninterp spec fn matches_found(pattern: Seq<char>, text: Seq<char>) -> Seq<
    Seq<Option<Seq<char>>>,
>;

/// `regex::Regex::captures_iter` on the expression that `regex::Regex::new`
/// makes of the pattern: the groups of every match, which depend on the pattern
/// and the text alone.
#[verifier::external_body]
pub(crate) fn find_matches(pattern: &str, text: &str) -> (matches: Vec<Vec<Option<String>>>)
    ensures
        matches.deep_view() == matches_found(pattern@, text@),
{
    regex::Regex::new(pattern).ok().map_or(
        Vec::new(),
        |expression| {
            expression.captures_iter(text).map(
                |found| {
                    found.iter().map(|group| group.map(|m| m.as_str().to_string())).collect()
                },
            ).collect()
        },
    )
}

/// The most characters that a document may have. A character comes to at most four
/// bytes in the tree of a document, so no text there outgrows the buffers that
/// `tendril` keeps it in, on any machine.
pub const LONGEST_DOCUMENT: usize = 0x1000_0000;

/// The most characters that a selector may have.
pub const LONGEST_SELECTOR: usize = 64;

/// Whether a selector is short and nests nothing in round brackets. Each level of
/// nesting and each step from element to element takes up stack, when the selector
/// is read or when it is matched.
pub open spec fn flat_selector(selector: Seq<char>) -> bool {
    selector.len() <= LONGEST_SELECTOR && !selector.contains('(')
}

/// The pieces of text in a document, in order.
pub uninterp spec fn document_texts(html: Seq<char>) -> Seq<Seq<char>>;

/// `scraper::ElementRef::text` of the root of `scraper::Html::parse_document`:
/// the pieces of text, which depend on the document alone. A longer document than
/// [`LONGEST_DOCUMENT`] can be too much for `scraper`.
#[verifier::external_body]
pub(crate) fn texts_of_document(html: &str) -> (texts: Vec<String>)
    requires
        html@.len() <= LONGEST_DOCUMENT,
    ensures
        texts.deep_view() == document_texts(html@),
{
    let document = scraper::Html::parse_document(html);
    document.root_element().text().map(|piece| piece.to_string()).collect()
}

/// For each element that `outer` selects, and each element that `inner` selects
/// below it, the pieces of text of the latter; `None` where one of the two is
/// not a selector.
pub uninterp spec fn nested_texts(html: Seq<char>, outer: Seq<char>, inner: Seq<char>) -> Option<
    Seq<Seq<Seq<Seq<char>>>>,
>;

/// `scraper::Html::select`, below each element `scraper::ElementRef::select`,
/// and `scraper::ElementRef::text` of what that gives: it depends on the
/// document and the two selectors alone. A longer document than
/// [`LONGEST_DOCUMENT`] can be too much for `scraper`, and so can a selector that
/// is not flat.
#[verifier::external_body]
pub(crate) fn select_nested_texts(html: &str, outer: &str, inner: &str) -> (texts: Option<
    Vec<Vec<Vec<String>>>,
>)
    requires
        html@.len() <= LONGEST_DOCUMENT,
        flat_selector(outer@),
        flat_selector(inner@),
    ensures
        texts.deep_view() == nested_texts(html@, outer@, inner@),
{
    let document = scraper::Html::parse_document(html);
    let outer = scraper::Selector::parse(outer).ok()?;
    let inner = scraper::Selector::parse(inner).ok()?;
    let below = |element: scraper::ElementRef| {
        element.select(&inner).map(|e| e.text().map(|t| t.to_string()).collect()).collect()
    };
    Some(document.select(&outer).map(below).collect())
}

/// The value of the attribute in each element that the selector selects; `None`
/// where it is not a selector.
pub uninterp spec fn attributes_found(
    html: Seq<char>,
    selector: Seq<char>,
    attribute: Seq<char>,
) -> Option<Seq<Option<Seq<char>>>>;

/// `scraper::Html::select`, and the attribute of each element: it depends on the
/// document, the selector and the attribute's name alone. A longer document than
/// [`LONGEST_DOCUMENT`] can be too much for `scraper`, and so can a selector that
/// is not flat.
#[verifier::external_body]
pub(crate) fn select_attributes(html: &str, selector: &str, attribute: &str) -> (values: Option<
    Vec<Option<String>>,
>)
    requires
        html@.len() <= LONGEST_DOCUMENT,
        flat_selector(selector@),
    ensures
        values.deep_view() == attributes_found(html@, selector@, attribute@),
{
    let document = scraper::Html::parse_document(html);
    let selector = scraper::Selector::parse(selector).ok()?;
    Some(
        document.select(&selector).map(
            |element| element.value().attr(attribute).map(|value| value.to_string()),
        ).collect(),
    )
}

/// The year, the month and the day that a text denotes in a given format; `None`
/// where it denotes no day.
pub uninterp spec fn date_found(text: Seq<char>, format: Seq<char>) -> Option<(i32, u32, u32)>;

/// `chrono::NaiveDate::parse_from_str`: the day depends on the text and the
/// format alone.
#[verifier::external_body]
pub(crate) fn parse_date(text: &str, format: &str) -> (date: Option<(i32, u32, u32)>)
    ensures
        date == date_found(text@, format@),
{
    let date = chrono::NaiveDate::parse_from_str(text, format).ok()?;
    Some((chrono::Datelike::year(&date), chrono::Datelike::month(&date), chrono::Datelike::day(&date)))
}

/// Whether a path names the home directory: by a `~` in front that stands alone or
/// before a separator, which on some machines is `\`.
pub open spec fn names_home(path: Seq<char>) -> bool {
    path.len() > 0 && path[0] == '~' && (path.len() > 1 ==> path[1] == '/' || path[1] == '\\')
}

/// Whether a path names neither a variable nor the home directory.
pub open spec fn plain_path(path: Seq<char>) -> bool {
    !path.contains('$') && !names_home(path)
}

/// Whether what follows a leading `~` of `before` is the end of `after`.
pub open spec fn keeps_rest(before: Seq<char>, after: Seq<char>) -> bool {
    before.len() > 0 && before[0] == '~' ==> before.skip(1).is_suffix_of(after)
}

/// `shellexpand::path::full`: the path with the home directory and the variables
/// that it names. These belong to the machine. A path that names neither stays as
/// it is, and where a path without `$` begins with `~`, what follows is the end of
/// the result. What stands for the home directory and for the variables is not
/// said. A result that is not Unicode counts as a failure.
#[verifier::external_body]
pub(crate) fn expand_path(path: &str) -> (expanded: Result<String, String>)
    ensures
        match expanded {
            Ok(text) => {
                &&& plain_path(path@) ==> text@ == path@
                &&& !path@.contains('$') ==> keeps_rest(path@, text@)
            },
            Err(_) => !plain_path(path@),
        },
{
    let expanded = shellexpand::path::full(path).map_err(|error| error.to_string())?;
    expanded.into_owned().into_os_string().into_string().map_err(
        |text| text.to_string_lossy().into_owned(),
    )
}

/// `shellexpand::tilde`: the path with the home directory of the machine in
/// place of its leading `~`; the path as it is where no home directory is known.
/// So whatever follows a leading `~` is the end of the result, and a path that
/// does not name the home directory stays as it is.
#[verifier::external_body]
pub(crate) fn expand_tilde(path: &str) -> (expanded: String)
    ensures
        keeps_rest(path@, expanded@),
        !names_home(path@) ==> expanded@ == path@,
{
    shellexpand::tilde(path).into_owned()
}

/// The quoted form of a text.
pub uninterp spec fn quoted(text: Seq<char>) -> Seq<char>;

/// `str`'s `Debug`: the text in quotes, with escapes where it needs them. Which
/// characters are escaped depends on the text alone.
#[verifier::external_body]
pub(crate) fn quote(text: &str) -> (out: String)
    ensures
        out@ == quoted(text@),
{
    format!("{:?}", text)
}

/// The quoted form of a path.
pub uninterp spec fn quoted_path(path: Seq<char>) -> Seq<char>;

/// `std::path::Path`'s `Debug`: the path in quotes, with escapes where it needs
/// them. Which characters are escaped depends on the path alone.
#[verifier::external_body]
pub(crate) fn quote_path(path: &str) -> (out: String)
    ensures
        out@ == quoted_path(path@),
{
    format!("{:?}", std::path::Path::new(path))
}

/// The address that a reference means on the page of the given address. `None`
/// where the page's address is none; `Some(None)` where the reference is none.
pub uninterp spec fn url_joined(base: Seq<char>, reference: Seq<char>) -> Option<Option<Seq<char>>>;

/// `reqwest::Url::parse` on the page's address and `reqwest::Url::join` with the
/// reference: the address depends on the two texts alone.
#[verifier::external_body]
pub(crate) fn join_url(base: &str, reference: &str) -> (url: Option<Option<String>>)
    ensures
        url.deep_view() == url_joined(base@, reference@),
{
    let base = reqwest::Url::parse(base).ok()?;
    Some(base.join(reference).ok().map(|url| url.to_string()))
}

/// The display name and the address of the mailbox that a text denotes; `None`
/// where it denotes none.
pub uninterp spec fn mailbox_found(text: Seq<char>) -> Option<(Option<Seq<char>>, Seq<char>)>;

/// Whether a name, where there is one, stands on one line.
pub open spec fn one_line(name: Option<Seq<char>>) -> bool {
    name matches Some(name) ==> !name.contains('\n') && !name.contains('\r')
}

/// `lettre::message::Mailbox`'s `FromStr`: the mailbox depends on the text alone.
/// Its grammar admits no line break in a name.
#[verifier::external_body]
pub(crate) fn parse_mailbox(text: &str) -> (mailbox: Option<(Option<String>, String)>)
    ensures
        mailbox.deep_view() == mailbox_found(text@),
        mailbox.deep_view() matches Some(it) ==> one_line(it.0),
{
    let mailbox = text.parse::<lettre::message::Mailbox>().ok()?;
    Some((mailbox.name, mailbox.email.to_string()))
}

/// The first second of the year ten thousand.
pub const YEAR_TEN_THOUSAND: u64 = 253_402_300_800;

/// The sender and the recipients on the envelope of a mail, and its bytes. `None`
/// where no mail can be made of the parts. `seconds` is the moment of its date.
pub uninterp spec fn mail_composed(
    from: (Option<Seq<char>>, Seq<char>),
    to: Seq<(Option<Seq<char>>, Seq<char>)>,
    subject: Seq<char>,
    body: Seq<char>,
    seconds: u64,
) -> Option<(Option<Seq<char>>, Seq<Seq<char>>, Seq<u8>)>;

/// `lettre::Message::builder` with a sender, recipients, a subject, a date and a
/// body: the envelope and the bytes of the mail depend on these alone. The date
/// must lie before the year ten thousand, and no name may hold a line break:
/// `lettre` can write neither.
#[verifier::external_body]
pub(crate) fn compose_mail(
    from: &(Option<String>, String),
    to: &Vec<(Option<String>, String)>,
    subject: &str,
    body: &str,
    seconds: u64,
) -> (mail: Option<(Option<String>, Vec<String>, Vec<u8>)>)
    requires
        seconds < YEAR_TEN_THOUSAND,
        one_line(from.deep_view().0),
        forall|i: int| 0 <= i < to.deep_view().len() ==> one_line((#[trigger] to.deep_view()[i]).0),
    ensures
        mail.deep_view() == mail_composed(
            from.deep_view(),
            to.deep_view(),
            subject@,
            body@,
            seconds,
        ),
{
    let mailbox = |it: &(Option<String>, String)|
        Some(lettre::message::Mailbox::new(it.0.clone(), it.1.parse().ok()?));
    let mut builder = lettre::Message::builder().from(mailbox(from)?).subject(subject);
    for recipient in to {
        builder = builder.to(mailbox(recipient)?);
    }
    let mail = builder.date(
        std::time::UNIX_EPOCH + std::time::Duration::from_secs(seconds),
    ).body(body.to_string()).ok()?;
    let sender = mail.envelope().from().map(ToString::to_string);
    let recipients = mail.envelope().to().iter().map(ToString::to_string).collect();
    Some((sender, recipients, mail.formatted()))
}

/// The last second that a time can have.
pub const LAST_SECOND: i64 = 8_210_266_876_799;

/// The year, month, day, hour and minute of a moment in UTC; `None` where no time
/// can hold it.
pub uninterp spec fn clock_found(seconds: i64) -> Option<(i32, u32, u32, u32, u32)>;

/// `chrono::DateTime::from_timestamp`, with the clock of what it gives: it depends
/// on the moment alone. Every moment from the start of 1970 to [`LAST_SECOND`] can
/// be held.
#[verifier::external_body]
pub(crate) fn clock_of(seconds: i64) -> (clock: Option<(i32, u32, u32, u32, u32)>)
    ensures
        clock == clock_found(seconds),
        0 <= seconds <= LAST_SECOND ==> clock is Some,
{
    let time = chrono::DateTime::from_timestamp(seconds, 0)?;
    let (year, month) = (chrono::Datelike::year(&time), chrono::Datelike::month(&time));
    let (hour, minute) = (chrono::Timelike::hour(&time), chrono::Timelike::minute(&time));
    Some((year, month, chrono::Datelike::day(&time), hour, minute))
}

/// The RFC 3339 text of a moment in UTC.
pub uninterp spec fn rfc3339_of(seconds: i64) -> Seq<char>;

/// `chrono::DateTime::from_timestamp` and `chrono::DateTime::to_rfc3339` of what
/// it gives: the text depends on the moment alone. Later moments than
/// [`LAST_SECOND`] cannot be held. Before the year ten thousand the text reads
/// back as the moment.
#[verifier::external_body]
pub(crate) fn write_rfc3339_of(seconds: i64) -> (text: String)
    requires
        0 <= seconds <= LAST_SECOND,
    ensures
        text@ == rfc3339_of(seconds),
        seconds < YEAR_TEN_THOUSAND ==> rfc3339_seconds(text@) == Some(seconds),
{
    chrono::DateTime::from_timestamp(seconds, 0).unwrap().to_rfc3339()
}

/// A text in lower case.
pub uninterp spec fn lowered(text: Seq<char>) -> Seq<char>;

/// `str::to_lowercase`: the lower-case text depends on the text alone.
#[verifier::external_body]
pub(crate) fn lowercase(text: &str) -> (out: String)
    ensures
        out@ == lowered(text@),
{
    text.to_lowercase()
}

}
