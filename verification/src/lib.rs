//! Monitors a public leaderboard: parses its page, compares it with the last
//! stored snapshot, records what changed, and answers queries over the history.
pub mod api;
pub mod bindings;
pub mod cli;
pub mod clock;
pub mod config;
pub mod db;
pub mod diff;
pub mod fetch;
pub mod monitor;
pub mod notify;
pub mod parse;
pub mod promises;
pub mod query;
pub mod score;
pub mod seqs;
pub mod source;
pub mod text;
pub mod tui;
