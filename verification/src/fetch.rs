//! Fetching the leaderboard: what to fetch next, and what was found.
use crate::bindings::{self, join_url, LONGEST_DOCUMENT};
use crate::parse::{
    self, extract_bundle_path, parse_leaderboard, parse_leaderboard_bundle, LeaderboardPage,
    PageView, ParseError, ReadingView, ScoreReading,
};
use crate::text::starts_with;
use vstd::prelude::*;

verus! {

/// How the fetches introduce themselves.
pub const USER_AGENT: &'static str = "lb-monitor/0.1.0";

/// How long a fetch may take.
pub const TIMEOUT_SECONDS: u64 = 20;

/// Why no leaderboard was found.
#[derive(Debug, Clone, Copy, PartialEq, Eq, Structural)]
pub enum FetchError {
    /// The page names no script bundle.
    NoBundle,
    /// The page's own address is no address.
    InvalidUrl,
    /// The bundle's address is no address.
    InvalidBundleUrl,
    /// The bundle holds no leaderboard.
    Parse(ParseError),
}

/// What follows from a page.
#[derive(Debug)]
pub enum FetchStep {
    /// The page holds the leaderboard.
    Done(LeaderboardPage),
    /// The script bundle at that address may hold it.
    FetchBundle(String),
}

/// What follows from a page, in terms of its contents.
pub enum StepView {
    Done(PageView),
    FetchBundle(Seq<char>),
}

impl DeepView for FetchStep {
    type V = StepView;

    open spec fn deep_view(&self) -> StepView {
        match self {
            FetchStep::Done(page) => StepView::Done(page.deep_view()),
            FetchStep::FetchBundle(url) => StepView::FetchBundle(url@),
        }
    }
}

/// What an error says.
pub open spec fn error_text(error: FetchError) -> Seq<char> {
    match error {
        FetchError::NoBundle => "failed to locate leaderboard bundle"@,
        FetchError::InvalidUrl => "invalid leaderboard url"@,
        FetchError::InvalidBundleUrl => "failed to resolve leaderboard bundle url"@,
        FetchError::Parse(ParseError::NoRowsInPage) => "no leaderboard rows found in page"@,
        FetchError::Parse(ParseError::NoRowsInBundle) => "no leaderboard rows found in bundle"@,
    }
}

impl FetchError {
    /// The message of the error.
    pub fn message(self) -> (text: &'static str)
        ensures
            text@ == error_text(self),
    {
        match self {
            FetchError::NoBundle => "failed to locate leaderboard bundle",
            FetchError::InvalidUrl => "invalid leaderboard url",
            FetchError::InvalidBundleUrl => "failed to resolve leaderboard bundle url",
            FetchError::Parse(error) => error.message(),
        }
    }
}

/// Whether the path of a bundle is a whole address.
pub open spec fn is_absolute(path: Seq<char>) -> bool {
    "http://"@.is_prefix_of(path) || "https://"@.is_prefix_of(path)
}

/// The address of a bundle, given what its path means on the page.
pub open spec fn bundle_url_of(path: Seq<char>, joined: Option<Option<Seq<char>>>) -> Result<
    Seq<char>,
    FetchError,
> {
    if is_absolute(path) {
        Ok(path)
    } else {
        match joined {
            None => Err(FetchError::InvalidUrl),
            Some(None) => Err(FetchError::InvalidBundleUrl),
            Some(Some(url)) => Ok(url),
        }
    }
}

/// What follows from the page that was fetched from `url`.
pub open spec fn step_of(readings: Seq<ReadingView>, url: Seq<char>, html: Seq<char>) -> Result<
    StepView,
    FetchError,
> {
    match parse::page_of(readings, html) {
        Ok(page) => Ok(StepView::Done(page)),
        Err(_) => match parse::bundle_path_of(html) {
            None => Err(FetchError::NoBundle),
            Some(path) => match bundle_url_of(path, bindings::url_joined(url, path)) {
                Ok(bundle_url) => Ok(StepView::FetchBundle(bundle_url)),
                Err(e) => Err(e),
            },
        },
    }
}

/// The address of a bundle, given what its path means on the page.
pub fn bundle_url(path: &str, joined: Option<Option<String>>) -> (url: Result<String, FetchError>)
    ensures
        match (url, bundle_url_of(path@, joined.deep_view())) {
            (Ok(url), Ok(expected)) => url@ == expected,
            (Err(e), Err(expected)) => e == expected,
            _ => false,
        },
{
    if starts_with(path, "http://") || starts_with(path, "https://") {
        return Ok(path.to_owned());
    }
    match joined {
        None => Err(FetchError::InvalidUrl),
        Some(None) => Err(FetchError::InvalidBundleUrl),
        Some(Some(url)) => Ok(url),
    }
}

/// What follows from the page that was fetched from `url`.
pub fn after_page(url: &str, html: &str, readings: &Vec<ScoreReading>) -> (step: Result<
    FetchStep,
    FetchError,
>)
    requires
        html@.len() <= LONGEST_DOCUMENT,
    ensures
        match (step, step_of(readings.deep_view(), url@, html@)) {
            (Ok(step), Ok(expected)) => step.deep_view() == expected,
            (Err(e), Err(expected)) => e == expected,
            _ => false,
        },
{
    if let Ok(page) = parse_leaderboard(html, readings) {
        return Ok(FetchStep::Done(page));
    }
    match extract_bundle_path(html) {
        None => Err(FetchError::NoBundle),
        Some(path) => {
            let joined = join_url(url, path.as_str());
            match bundle_url(path.as_str(), joined) {
                Ok(bundle_url) => Ok(FetchStep::FetchBundle(bundle_url)),
                Err(e) => Err(e),
            }
        },
    }
}

/// The leaderboard of the script bundle that was fetched.
pub fn after_bundle(bundle: &str, readings: &Vec<ScoreReading>) -> (page: Result<
    LeaderboardPage,
    FetchError,
>)
    ensures
        match (page, parse::bundle_of(readings.deep_view(), bundle@)) {
            (Ok(page), Ok(expected)) => page.deep_view() == expected,
            (Err(e), Err(expected)) => e == FetchError::Parse(expected),
            _ => false,
        },
{
    match parse_leaderboard_bundle(bundle, readings) {
        Ok(page) => Ok(page),
        Err(e) => Err(FetchError::Parse(e)),
    }
}

/// Whatever a fetch ends with, a leaderboard that is found has at least one row.
pub proof fn found_leaderboards_have_rows(
    readings: Seq<ReadingView>,
    url: Seq<char>,
    html: Seq<char>,
    bundle: Seq<char>,
)
    ensures
        step_of(readings, url, html) matches Ok(StepView::Done(page)) ==> page.rows.len() > 0,
        parse::bundle_of(readings, bundle) matches Ok(page) ==> page.rows.len() > 0,
{
}

}
