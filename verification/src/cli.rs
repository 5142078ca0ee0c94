//! What the command line asks for.
use vstd::prelude::*;

verus! {

/// The snapshots that a dummy history has where nothing is said.
pub const DEFAULT_DUMMY_SNAPSHOTS: usize = 24;

/// The teams that a dummy history has where nothing is said.
pub const DEFAULT_DUMMY_TEAMS: usize = 18;

/// The command line.
#[derive(Debug)]
pub struct Cli {
    pub config: Option<String>,
    pub db: Option<String>,
    pub command: Option<Command>,
}

/// A command with its arguments.
#[derive(Debug, Clone)]
pub enum Command {
    Tui(TuiArgs),
    Serve(ServeArgs),
    Dummy(DummyArgs),
}

/// The arguments of the terminal interface.
#[derive(Debug, Clone)]
pub struct TuiArgs {
    pub refresh_seconds: Option<u64>,
    pub source: Option<String>,
    pub api_base_url: Option<String>,
}

/// The arguments of the service.
#[derive(Debug, Clone)]
pub struct ServeArgs {
    pub interval: Option<u64>,
    pub listen: Option<String>,
    pub once: bool,
    pub notify: bool,
    pub no_notify: bool,
    pub smtp_host: Option<String>,
    pub smtp_port: Option<u16>,
    pub smtp_username: Option<String>,
    pub smtp_password: Option<String>,
    pub smtp_from: Option<String>,
    pub smtp_to: Vec<String>,
    pub smtp_security: Option<String>,
}

/// The arguments of the dummy history.
#[derive(Debug, Clone)]
pub struct DummyArgs {
    pub snapshots: usize,
    pub teams: usize,
}

impl Default for TuiArgs {
    fn default() -> (args: Self)
        ensures
            args == (TuiArgs { refresh_seconds: None, source: None, api_base_url: None }),
    {
        TuiArgs { refresh_seconds: None, source: None, api_base_url: None }
    }
}

}
