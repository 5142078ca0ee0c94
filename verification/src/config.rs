//! The settings: what the configuration file and the command line say, over the
//! defaults.
use crate::bindings::{self, expand_path, expand_tilde, quote, quote_path};
use crate::cli::{Cli, Command, DummyArgs, ServeArgs, TuiArgs};
use crate::text::{self, copy_texts, natural_text, same_text, to_ascii_lowercase};
use vstd::prelude::*;
use vstd::string::*;

verus! {

pub const DEFAULT_CONFIG_PATH: &'static str = "~/.config/lbm/config.toml";

pub const DEFAULT_DB_PATH: &'static str = "lb-monitor.sqlite3";

pub const DEFAULT_DUMMY_DB_PATH: &'static str = "lb-monitor-dummy.sqlite3";

pub const DEFAULT_FETCH_URL: &'static str = "https://dataagent.top/leaderboard";

pub const DEFAULT_TUI_API_BASE_URL: &'static str = "http://127.0.0.1:8080";

pub const DEFAULT_SERVE_LISTEN_ADDR: &'static str = "127.0.0.1:8080";

pub const DEFAULT_FETCH_INTERVAL_SECONDS: u64 = 300;

pub const DEFAULT_TUI_REFRESH_SECONDS: u64 = 5;

pub const DEFAULT_SMTP_PORT: u16 = 465;

/// All settings.
#[derive(Debug, Clone)]
pub struct Config {
    pub database: DatabaseConfig,
    pub serve: ServeConfig,
    pub tui: TuiConfig,
}

/// Where the history is kept.
#[derive(Debug, Clone)]
pub struct DatabaseConfig {
    pub path: String,
}

/// The settings of the service.
#[derive(Debug, Clone)]
pub struct ServeConfig {
    pub fetch: FetchConfig,
    pub http: ServeHttpConfig,
    pub mail: MailConfig,
}

/// Which page is fetched, and how often.
#[derive(Debug, Clone)]
pub struct FetchConfig {
    pub url: String,
    pub interval_seconds: u64,
}

/// Where the service listens.
#[derive(Debug, Clone)]
pub struct ServeHttpConfig {
    pub listen: String,
}

/// Whether mail is sent, and how.
#[derive(Debug, Clone)]
pub struct MailConfig {
    pub enabled: bool,
    pub smtp: SmtpConfig,
}

/// The mail server and the mail addresses.
#[derive(Debug, Clone)]
pub struct SmtpConfig {
    pub host: String,
    pub port: u16,
    pub username: Option<String>,
    pub password: Option<String>,
    pub from: Option<String>,
    pub to: Vec<String>,
    pub security: SmtpSecurity,
}

/// How the connection to the mail server is protected.
#[derive(Debug, Clone, Copy, PartialEq, Eq, Structural)]
pub enum SmtpSecurity {
    Plain,
    StartTls,
    Tls,
}

/// The settings of the terminal interface.
#[derive(Debug, Clone)]
pub struct TuiConfig {
    pub refresh_seconds: u64,
    pub api_base_url: String,
    pub source: TuiSource,
    pub database_path: String,
}

/// Where the terminal interface reads from.
#[derive(Debug, Clone, Copy, PartialEq, Eq, Structural)]
pub enum TuiSource {
    LocalSqlite,
    RemoteApi,
}

/// The settings in force.
#[derive(Debug, Clone)]
pub struct LoadedConfig {
    pub config: Config,
}

/// What the configuration file says.
#[derive(Debug)]
pub struct FileConfig {
    pub database: Option<FileDatabaseConfig>,
    pub serve: Option<FileServeConfig>,
    pub tui: Option<FileTuiConfig>,
}

#[derive(Debug)]
pub struct FileDatabaseConfig {
    pub path: Option<String>,
}

#[derive(Debug)]
pub struct FileServeConfig {
    pub fetch: Option<FileFetchConfig>,
    pub http: Option<FileServeHttpConfig>,
    pub mail: Option<FileMailConfig>,
}

#[derive(Debug)]
pub struct FileFetchConfig {
    pub url: Option<String>,
    pub interval_seconds: Option<u64>,
}

#[derive(Debug)]
pub struct FileServeHttpConfig {
    pub listen: Option<String>,
}

#[derive(Debug)]
pub struct FileMailConfig {
    pub enabled: Option<bool>,
    pub smtp: Option<FileSmtpConfig>,
}

#[derive(Debug)]
pub struct FileSmtpConfig {
    pub host: Option<String>,
    pub port: Option<u16>,
    pub username: Option<String>,
    pub password: Option<String>,
    pub from: Option<String>,
    pub to: Option<Vec<String>>,
    pub security: Option<String>,
}

#[derive(Debug)]
pub struct FileTuiConfig {
    pub refresh_seconds: Option<u64>,
    pub api_base_url: Option<String>,
    pub source: Option<String>,
    pub database_path: Option<String>,
}

/// Why the settings could not be loaded: a path that could not be expanded, and
/// the reason.
#[derive(Debug)]
pub enum ConfigError {
    DatabasePath { path: String, cause: String },
    TuiDatabasePath { path: String, cause: String },
}

/// What a [`FetchConfig`] holds.
#[verifier::ext_equal]
pub struct FetchView {
    pub url: Seq<char>,
    pub interval_seconds: u64,
}

/// What an [`SmtpConfig`] holds.
#[verifier::ext_equal]
pub struct SmtpView {
    pub host: Seq<char>,
    pub port: u16,
    pub username: Option<Seq<char>>,
    pub password: Option<Seq<char>>,
    pub from: Option<Seq<char>>,
    pub to: Seq<Seq<char>>,
    pub security: SmtpSecurity,
}

/// What a [`MailConfig`] holds.
#[verifier::ext_equal]
pub struct MailView {
    pub enabled: bool,
    pub smtp: SmtpView,
}

/// What a [`TuiConfig`] holds.
#[verifier::ext_equal]
pub struct TuiView {
    pub refresh_seconds: u64,
    pub api_base_url: Seq<char>,
    pub source: TuiSource,
    pub database_path: Seq<char>,
}

/// What a [`Config`] holds.
#[verifier::ext_equal]
pub struct ConfigView {
    pub database_path: Seq<char>,
    pub fetch: FetchView,
    pub listen: Seq<char>,
    pub mail: MailView,
    pub tui: TuiView,
}

impl DeepView for FetchConfig {
    type V = FetchView;

    open spec fn deep_view(&self) -> FetchView {
        FetchView { url: self.url@, interval_seconds: self.interval_seconds }
    }
}

impl DeepView for SmtpConfig {
    type V = SmtpView;

    open spec fn deep_view(&self) -> SmtpView {
        SmtpView {
            host: self.host@,
            port: self.port,
            username: self.username.deep_view(),
            password: self.password.deep_view(),
            from: self.from.deep_view(),
            to: self.to.deep_view(),
            security: self.security,
        }
    }
}

impl DeepView for MailConfig {
    type V = MailView;

    open spec fn deep_view(&self) -> MailView {
        MailView { enabled: self.enabled, smtp: self.smtp.deep_view() }
    }
}

impl DeepView for TuiConfig {
    type V = TuiView;

    open spec fn deep_view(&self) -> TuiView {
        TuiView {
            refresh_seconds: self.refresh_seconds,
            api_base_url: self.api_base_url@,
            source: self.source,
            database_path: self.database_path@,
        }
    }
}

impl DeepView for Config {
    type V = ConfigView;

    open spec fn deep_view(&self) -> ConfigView {
        ConfigView {
            database_path: self.database.path@,
            fetch: self.serve.fetch.deep_view(),
            listen: self.serve.http.listen@,
            mail: self.serve.mail.deep_view(),
            tui: self.tui.deep_view(),
        }
    }
}

/// A value, or what stands in for it where it is missing.
pub open spec fn or_else<A>(value: Option<A>, other: A) -> A {
    match value {
        Some(value) => value,
        None => other,
    }
}

/// A value, or another one where it is missing.
pub open spec fn or<A>(value: Option<A>, other: Option<A>) -> Option<A> {
    match value {
        Some(value) => Some(value),
        None => other,
    }
}

/// The settings where nothing is said.
pub open spec fn default_config() -> ConfigView {
    ConfigView {
        database_path: DEFAULT_DB_PATH@,
        fetch: FetchView {
            url: DEFAULT_FETCH_URL@,
            interval_seconds: DEFAULT_FETCH_INTERVAL_SECONDS,
        },
        listen: DEFAULT_SERVE_LISTEN_ADDR@,
        mail: MailView {
            enabled: false,
            smtp: SmtpView {
                host: Seq::empty(),
                port: DEFAULT_SMTP_PORT,
                username: None,
                password: None,
                from: None,
                to: Seq::empty(),
                security: SmtpSecurity::Tls,
            },
        },
        tui: TuiView {
            refresh_seconds: DEFAULT_TUI_REFRESH_SECONDS,
            api_base_url: DEFAULT_TUI_API_BASE_URL@,
            source: TuiSource::LocalSqlite,
            database_path: DEFAULT_DB_PATH@,
        },
    }
}

/// The text in lower case, as far as ASCII goes.
pub open spec fn lower(value: Seq<char>) -> Seq<char> {
    value.map_values(|c: char| text::ascii_lower(c))
}

/// The protection that a word names.
pub open spec fn security_named(value: Seq<char>) -> Option<SmtpSecurity> {
    let word = lower(value);
    if word == "plain"@ {
        Some(SmtpSecurity::Plain)
    } else if word == "starttls"@ {
        Some(SmtpSecurity::StartTls)
    } else if word == "tls"@ {
        Some(SmtpSecurity::Tls)
    } else {
        None
    }
}

/// The source that a word names.
pub open spec fn source_named(value: Seq<char>) -> Option<TuiSource> {
    let word = lower(value);
    if word == "sqlite"@ || word == "local"@ || word == "local-sqlite"@ {
        Some(TuiSource::LocalSqlite)
    } else if word == "http"@ || word == "https"@ || word == "remote"@ || word == "remote-api"@ {
        Some(TuiSource::RemoteApi)
    } else {
        None
    }
}

/// The protection that is meant by a word; an unknown word means `StartTls`.
pub open spec fn security_meant(value: Seq<char>) -> SmtpSecurity {
    or_else(security_named(value), SmtpSecurity::StartTls)
}

/// The source that is meant by a word; an unknown word means the local one.
pub open spec fn source_meant(value: Seq<char>) -> TuiSource {
    or_else(source_named(value), TuiSource::LocalSqlite)
}

/// The fetch settings under what the file says.
pub open spec fn fetch_under(base: FetchView, file: FileFetchConfig) -> FetchView {
    FetchView {
        url: or_else(file.url.deep_view(), base.url),
        interval_seconds: or_else(file.interval_seconds, base.interval_seconds),
    }
}

/// The mail server settings under what the file says.
pub open spec fn smtp_under(base: SmtpView, file: FileSmtpConfig) -> SmtpView {
    SmtpView {
        host: or_else(file.host.deep_view(), base.host),
        port: or_else(file.port, base.port),
        username: or(file.username.deep_view(), base.username),
        password: or(file.password.deep_view(), base.password),
        from: or(file.from.deep_view(), base.from),
        to: or_else(file.to.deep_view(), base.to),
        security: match file.security {
            Some(word) => security_meant(word@),
            None => base.security,
        },
    }
}

/// The mail settings under what the file says.
pub open spec fn mail_under(base: MailView, file: FileMailConfig) -> MailView {
    MailView {
        enabled: or_else(file.enabled, base.enabled),
        smtp: match file.smtp {
            Some(smtp) => smtp_under(base.smtp, smtp),
            None => base.smtp,
        },
    }
}

/// The settings under the arguments of the terminal interface.
pub open spec fn config_under_tui(base: ConfigView, args: TuiArgs) -> ConfigView {
    ConfigView {
        tui: TuiView {
            refresh_seconds: or_else(args.refresh_seconds, base.tui.refresh_seconds),
            api_base_url: or_else(args.api_base_url.deep_view(), base.tui.api_base_url),
            source: match args.source {
                Some(word) => source_meant(word@),
                None => if args.api_base_url is Some {
                    TuiSource::RemoteApi
                } else {
                    base.tui.source
                },
            },
            database_path: base.tui.database_path,
        },
        ..base
    }
}

/// The settings under the arguments of the service.
pub open spec fn config_under_serve(base: ConfigView, args: ServeArgs) -> ConfigView {
    let smtp = base.mail.smtp;
    ConfigView {
        fetch: FetchView {
            url: base.fetch.url,
            interval_seconds: or_else(args.interval, base.fetch.interval_seconds),
        },
        listen: or_else(args.listen.deep_view(), base.listen),
        mail: MailView {
            enabled: !args.no_notify && (args.notify || base.mail.enabled),
            smtp: SmtpView {
                host: or_else(args.smtp_host.deep_view(), smtp.host),
                port: or_else(args.smtp_port, smtp.port),
                username: or(args.smtp_username.deep_view(), smtp.username),
                password: or(args.smtp_password.deep_view(), smtp.password),
                from: or(args.smtp_from.deep_view(), smtp.from),
                to: if args.smtp_to@.len() > 0 {
                    args.smtp_to.deep_view()
                } else {
                    smtp.to
                },
                security: match args.smtp_security {
                    Some(word) => security_meant(word@),
                    None => smtp.security,
                },
            },
        },
        ..base
    }
}

/// The path of the history in the file.
pub open spec fn file_database_path(file: FileConfig) -> Option<Seq<char>> {
    match file.database {
        Some(database) => database.path.deep_view(),
        None => None,
    }
}

/// The path of the terminal interface's history in the file.
pub open spec fn file_tui_database_path(file: FileConfig) -> Option<Seq<char>> {
    match file.tui {
        Some(tui) => tui.database_path.deep_view(),
        None => None,
    }
}

/// The fetch settings that the file asks for.
pub open spec fn file_fetch(file: FileConfig) -> FetchView {
    let base = default_config().fetch;
    match file.serve {
        Some(serve) => match serve.fetch {
            Some(fetch) => fetch_under(base, fetch),
            None => base,
        },
        None => base,
    }
}

/// The address that the file asks for.
pub open spec fn file_listen(file: FileConfig) -> Seq<char> {
    let base = default_config().listen;
    match file.serve {
        Some(serve) => match serve.http {
            Some(http) => or_else(http.listen.deep_view(), base),
            None => base,
        },
        None => base,
    }
}

/// The mail settings that the file asks for.
pub open spec fn file_mail(file: FileConfig) -> MailView {
    let base = default_config().mail;
    match file.serve {
        Some(serve) => match serve.mail {
            Some(mail) => mail_under(base, mail),
            None => base,
        },
        None => base,
    }
}

/// The source that the file asks for: the one it names, and the remote one where
/// it names none but gives its address.
pub open spec fn file_source(tui: FileTuiConfig) -> TuiSource {
    match tui.source {
        Some(word) => source_meant(word@),
        None => if tui.api_base_url is Some {
            TuiSource::RemoteApi
        } else {
            TuiSource::LocalSqlite
        },
    }
}

/// The settings that the file asks for, with the paths that are in force.
pub open spec fn config_of_file(
    file: FileConfig,
    database_path: Seq<char>,
    tui_database_path: Seq<char>,
) -> ConfigView {
    let base = default_config().tui;
    ConfigView {
        database_path,
        fetch: file_fetch(file),
        listen: file_listen(file),
        mail: file_mail(file),
        tui: match file.tui {
            Some(tui) => TuiView {
                refresh_seconds: or_else(tui.refresh_seconds, base.refresh_seconds),
                api_base_url: or_else(tui.api_base_url.deep_view(), base.api_base_url),
                source: file_source(tui),
                database_path: tui_database_path,
            },
            None => TuiView { database_path: tui_database_path, ..base },
        },
    }
}

/// Whether the command is the one for a dummy history.
pub open spec fn is_dummy(cli: Cli) -> bool {
    cli.command matches Some(command) && command is Dummy
}

/// The path of the history in force: that of the command line, that of the dummy
/// history where one is asked for, that of the file, or the default.
pub open spec fn database_path_of(cli: Cli, file: FileConfig) -> Seq<char> {
    match cli.db {
        Some(path) => path@,
        None => if is_dummy(cli) {
            DEFAULT_DUMMY_DB_PATH@
        } else {
            or_else(file_database_path(file), DEFAULT_DB_PATH@)
        },
    }
}

/// The path of the terminal interface's history in force: where neither the
/// command line nor the command nor the file decides, that of the history.
pub open spec fn tui_database_path_of(cli: Cli, file: FileConfig) -> Seq<char> {
    if cli.db is None && !is_dummy(cli) {
        or_else(file_tui_database_path(file), database_path_of(cli, file))
    } else {
        database_path_of(cli, file)
    }
}

/// The settings under a command.
pub open spec fn config_under(base: ConfigView, command: Option<Command>) -> ConfigView {
    match command {
        Some(Command::Tui(args)) => config_under_tui(base, args),
        Some(Command::Serve(args)) => config_under_serve(base, args),
        _ => base,
    }
}

/// The settings with the default address in place of an empty one.
pub open spec fn with_address(base: ConfigView) -> ConfigView {
    if base.tui.api_base_url.len() == 0 {
        ConfigView {
            tui: TuiView { api_base_url: DEFAULT_TUI_API_BASE_URL@, ..base.tui },
            ..base
        }
    } else {
        base
    }
}

/// The settings that a command line and a file ask for.
pub open spec fn config_for(cli: Cli, file: FileConfig) -> ConfigView {
    with_address(
        config_under(
            config_of_file(file, database_path_of(cli, file), tui_database_path_of(cli, file)),
            cli.command,
        ),
    )
}

impl Default for Config {
    fn default() -> (config: Self)
        ensures
            config.deep_view() == default_config(),
    {
        let to: Vec<String> = Vec::new();
        assert(to.deep_view() =~= Seq::<Seq<char>>::empty());
        let host = String::new();
        assert(host@ =~= Seq::<char>::empty());
        Config {
            database: DatabaseConfig { path: DEFAULT_DB_PATH.to_owned() },
            serve: ServeConfig {
                fetch: FetchConfig {
                    url: DEFAULT_FETCH_URL.to_owned(),
                    interval_seconds: DEFAULT_FETCH_INTERVAL_SECONDS,
                },
                http: ServeHttpConfig { listen: DEFAULT_SERVE_LISTEN_ADDR.to_owned() },
                mail: MailConfig {
                    enabled: false,
                    smtp: SmtpConfig {
                        host,
                        port: DEFAULT_SMTP_PORT,
                        username: None,
                        password: None,
                        from: None,
                        to,
                        security: SmtpSecurity::Tls,
                    },
                },
            },
            tui: TuiConfig {
                refresh_seconds: DEFAULT_TUI_REFRESH_SECONDS,
                api_base_url: DEFAULT_TUI_API_BASE_URL.to_owned(),
                source: TuiSource::LocalSqlite,
                database_path: DEFAULT_DB_PATH.to_owned(),
            },
        }
    }
}

impl Default for FileConfig {
    fn default() -> (file: Self)
        ensures
            file == (FileConfig { database: None, serve: None, tui: None }),
    {
        FileConfig { database: None, serve: None, tui: None }
    }
}

/// Reads the name of a protection; capitals make no difference.
pub fn parse_smtp_security(value: &str) -> (security: Option<SmtpSecurity>)
    ensures
        security == security_named(value@),
{
    let word = to_ascii_lowercase(value);
    let word = word.as_str();
    if same_text(word, "plain") {
        Some(SmtpSecurity::Plain)
    } else if same_text(word, "starttls") {
        Some(SmtpSecurity::StartTls)
    } else if same_text(word, "tls") {
        Some(SmtpSecurity::Tls)
    } else {
        None
    }
}

/// Reads the name of a source; capitals make no difference.
pub fn parse_tui_source(value: &str) -> (source: Option<TuiSource>)
    ensures
        source == source_named(value@),
{
    let word = to_ascii_lowercase(value);
    let word = word.as_str();
    if same_text(word, "sqlite") || same_text(word, "local") || same_text(word, "local-sqlite") {
        Some(TuiSource::LocalSqlite)
    } else if same_text(word, "http") || same_text(word, "https") || same_text(word, "remote")
        || same_text(word, "remote-api") {
        Some(TuiSource::RemoteApi)
    } else {
        None
    }
}

fn security_or_default(value: &str) -> (security: SmtpSecurity)
    ensures
        security == security_meant(value@),
{
    match parse_smtp_security(value) {
        Some(security) => security,
        None => SmtpSecurity::StartTls,
    }
}

fn source_or_default(value: &str) -> (source: TuiSource)
    ensures
        source == source_meant(value@),
{
    match parse_tui_source(value) {
        Some(source) => source,
        None => TuiSource::LocalSqlite,
    }
}

/// Takes over what the file says of the fetches.
pub fn apply_fetch_overrides(target: &mut FetchConfig, source: FileFetchConfig)
    ensures
        final(target).deep_view() == fetch_under(old(target).deep_view(), source),
{
    if let Some(url) = source.url {
        target.url = url;
    }
    if let Some(interval_seconds) = source.interval_seconds {
        target.interval_seconds = interval_seconds;
    }
}

/// Takes over what the file says of the mail server.
pub fn apply_smtp_overrides(target: &mut SmtpConfig, source: FileSmtpConfig)
    ensures
        final(target).deep_view() == smtp_under(old(target).deep_view(), source),
{
    if let Some(host) = source.host {
        target.host = host;
    }
    if let Some(port) = source.port {
        target.port = port;
    }
    if let Some(username) = source.username {
        target.username = Some(username);
    }
    if let Some(password) = source.password {
        target.password = Some(password);
    }
    if let Some(from) = source.from {
        target.from = Some(from);
    }
    if let Some(to) = source.to {
        target.to = to;
    }
    if let Some(security) = source.security {
        target.security = security_or_default(security.as_str());
    }
}

/// Takes over what the file says of the mail.
pub fn apply_mail_overrides(target: &mut MailConfig, source: FileMailConfig)
    ensures
        final(target).deep_view() == mail_under(old(target).deep_view(), source),
{
    if let Some(enabled) = source.enabled {
        target.enabled = enabled;
    }
    if let Some(smtp) = source.smtp {
        apply_smtp_overrides(&mut target.smtp, smtp);
    }
}

/// Takes over what the arguments of the terminal interface say.
pub fn apply_tui_overrides(config: &mut Config, args: &TuiArgs)
    ensures
        final(config).deep_view() == config_under_tui(old(config).deep_view(), *args),
{
    if let Some(refresh_seconds) = args.refresh_seconds {
        config.tui.refresh_seconds = refresh_seconds;
    }
    if let Some(source) = &args.source {
        config.tui.source = source_or_default(source.as_str());
    }
    if let Some(api_base_url) = &args.api_base_url {
        config.tui.api_base_url = api_base_url.clone();
        if args.source.is_none() {
            config.tui.source = TuiSource::RemoteApi;
        }
    }
}

/// Takes over what the arguments of the service say.
pub fn apply_serve_overrides(config: &mut Config, args: &ServeArgs)
    ensures
        final(config).deep_view() == config_under_serve(old(config).deep_view(), *args),
{
    if let Some(interval) = args.interval {
        config.serve.fetch.interval_seconds = interval;
    }
    if let Some(listen) = &args.listen {
        config.serve.http.listen = listen.clone();
    }
    if args.notify {
        config.serve.mail.enabled = true;
    }
    if args.no_notify {
        config.serve.mail.enabled = false;
    }
    if let Some(host) = &args.smtp_host {
        config.serve.mail.smtp.host = host.clone();
    }
    if let Some(port) = args.smtp_port {
        config.serve.mail.smtp.port = port;
    }
    if let Some(username) = &args.smtp_username {
        config.serve.mail.smtp.username = Some(username.clone());
    }
    if let Some(password) = &args.smtp_password {
        config.serve.mail.smtp.password = Some(password.clone());
    }
    if let Some(from) = &args.smtp_from {
        config.serve.mail.smtp.from = Some(from.clone());
    }
    if args.smtp_to.len() > 0 {
        let to = copy_texts(&args.smtp_to);
        assert(to.deep_view() =~= args.smtp_to.deep_view());
        config.serve.mail.smtp.to = to;
    }
    if let Some(security) = &args.smtp_security {
        config.serve.mail.smtp.security = security_or_default(security.as_str());
    }
}

/// The file with other paths in it.
pub open spec fn with_paths(
    file: FileConfig,
    database_path: Option<String>,
    tui_database_path: Option<String>,
) -> FileConfig {
    FileConfig {
        database: match file.database {
            Some(database) => Some(FileDatabaseConfig { path: database_path }),
            None => None,
        },
        serve: file.serve,
        tui: match file.tui {
            Some(tui) => Some(FileTuiConfig { database_path: tui_database_path, ..tui }),
            None => None,
        },
    }
}

/// Whether `expand` can give `after` for `before`.
pub open spec fn expands_to<F: Fn(&str) -> Result<String, String>>(
    expand: F,
    before: Seq<char>,
    after: Result<Seq<char>, Seq<char>>,
) -> bool {
    exists|path: &str, out: Result<String, String>| #[trigger]
        call_ensures(expand, (path,), out) && path@ == before && match (out, after) {
            (Ok(text), Ok(expected)) => text@ == expected,
            (Err(cause), Err(expected)) => cause@ == expected,
            _ => false,
        }
}

/// Whether `expand` can give the path `after` for `before`; a missing path stays
/// missing.
pub open spec fn path_expands_to<F: Fn(&str) -> Result<String, String>>(
    expand: F,
    before: Option<Seq<char>>,
    after: Option<Seq<char>>,
) -> bool {
    match (before, after) {
        (Some(before), Some(after)) => expands_to(expand, before, Ok(after)),
        (None, None) => true,
        _ => false,
    }
}

/// Expands the paths in the file: that of the history first, then that of the
/// terminal interface's history. The first failure ends it.
pub fn expand_file_config_paths_with<F: Fn(&str) -> Result<String, String>>(
    file_config: FileConfig,
    expand_path: &F,
) -> (result: Result<FileConfig, ConfigError>)
    requires
        forall|path: &str| call_requires(*expand_path, (path,)),
    ensures
        match result {
            Ok(file) => {
                &&& exists|a: Option<String>, b: Option<String>| #[trigger]
                    with_paths(file_config, a, b) == file
                &&& path_expands_to(
                    *expand_path,
                    file_database_path(file_config),
                    file_database_path(file),
                )
                &&& path_expands_to(
                    *expand_path,
                    file_tui_database_path(file_config),
                    file_tui_database_path(file),
                )
            },
            Err(ConfigError::DatabasePath { path, cause }) => {
                &&& file_database_path(file_config) == Some(path@)
                &&& expands_to(*expand_path, path@, Err(cause@))
            },
            Err(ConfigError::TuiDatabasePath { path, cause }) => {
                &&& file_tui_database_path(file_config) == Some(path@)
                &&& expands_to(*expand_path, path@, Err(cause@))
                &&& file_database_path(file_config) matches Some(before) ==> exists|
                    after: Seq<char>,
                | #[trigger] expands_to(*expand_path, before, Ok(after))
            },
        },
{
    let ghost given = file_config;
    let mut file = file_config;
    let mut database_path: Option<String> = None;
    if let Some(database) = &file.database {
        if let Some(path) = &database.path {
            let out = expand_path(path.as_str());
            match out {
                Ok(expanded) => {
                    assert(expands_to(*expand_path, path@, Ok(expanded@)));
                    database_path = Some(expanded);
                },
                Err(cause) => {
                    assert(expands_to(*expand_path, path@, Err(cause@)));
                    return Err(ConfigError::DatabasePath { path: path.clone(), cause });
                },
            }
        }
    }
    assert(file_database_path(given) matches Some(before) ==> expands_to(
        *expand_path,
        before,
        Ok(database_path.unwrap()@),
    ));
    let mut tui_path: Option<String> = None;
    if let Some(tui) = &file.tui {
        if let Some(path) = &tui.database_path {
            let out = expand_path(path.as_str());
            match out {
                Ok(expanded) => {
                    assert(expands_to(*expand_path, path@, Ok(expanded@)));
                    tui_path = Some(expanded);
                },
                Err(cause) => {
                    assert(expands_to(*expand_path, path@, Err(cause@)));
                    return Err(ConfigError::TuiDatabasePath { path: path.clone(), cause });
                },
            }
        }
    }
    let ghost a = database_path;
    let ghost b = tui_path;
    if let Some(database) = file.database {
        file.database = Some(FileDatabaseConfig { path: database_path });
    }
    if let Some(tui) = file.tui {
        file.tui = Some(FileTuiConfig { database_path: tui_path, ..tui });
    }
    assert(with_paths(given, a, b) == file);
    Ok(file)
}

/// What a path can become: a missing path stays missing, one that names neither a
/// variable nor the home directory stays as it is, and of one that begins with `~`
/// and names no variable what follows is kept at the end.
pub open spec fn may_become(before: Option<Seq<char>>, after: Option<Seq<char>>) -> bool {
    match (before, after) {
        (Some(before), Some(after)) => {
            &&& bindings::plain_path(before) ==> after == before
            &&& !before.contains('$') ==> bindings::keeps_rest(before, after)
        },
        (None, None) => true,
        _ => false,
    }
}

/// Whether no path in the file names a variable or the home directory.
pub open spec fn has_plain_paths(file: FileConfig) -> bool {
    &&& file_database_path(file) matches Some(path) ==> bindings::plain_path(path)
    &&& file_tui_database_path(file) matches Some(path) ==> bindings::plain_path(path)
}

/// Whether the machine's values can make `after` of the path `before`; a missing
/// path stays missing.
pub closed spec fn was_expanded(before: Option<Seq<char>>, after: Option<Seq<char>>) -> bool {
    path_expands_to(expand_path, before, after)
}

/// Whether the machine can refuse to expand the path for that cause.
pub closed spec fn was_refused(path: Seq<char>, cause: Seq<char>) -> bool {
    expands_to(expand_path, path, Err(cause))
}

/// Whether the error names a path of the file that could not be expanded.
pub open spec fn blames_path(file: FileConfig, error: ConfigError) -> bool {
    match error {
        ConfigError::DatabasePath { path, cause } => file_database_path(file) == Some(path@)
            && !bindings::plain_path(path@) && was_refused(path@, cause@),
        ConfigError::TuiDatabasePath { path, cause } => file_tui_database_path(file) == Some(
            path@,
        ) && !bindings::plain_path(path@) && was_refused(path@, cause@) && exists|
            after: Option<Seq<char>>,
        | #[trigger] was_expanded(file_database_path(file), after),
    }
}

/// The file with the machine's values in place of the variables and of the home
/// directory that its paths name. These values belong to the machine: nothing is
/// said of what they are.
pub fn expand_file_config_paths(file_config: FileConfig) -> (result: Result<FileConfig, ConfigError>)
    ensures
        match result {
            Ok(file) => {
                &&& exists|a: Option<String>, b: Option<String>| #[trigger]
                    with_paths(file_config, a, b) == file
                &&& was_expanded(file_database_path(file_config), file_database_path(file))
                &&& was_expanded(file_tui_database_path(file_config), file_tui_database_path(file))
                &&& may_become(file_database_path(file_config), file_database_path(file))
                &&& may_become(file_tui_database_path(file_config), file_tui_database_path(file))
            },
            Err(error) => blames_path(file_config, error),
        },
{
    let ghost given = file_config;
    let result = expand_file_config_paths_with(file_config, &expand_path);
    proof {
        if result is Err && result->Err_0 is TuiDatabasePath {
            match file_database_path(given) {
                Some(before) => {
                    let after = choose|after: Seq<char>| #[trigger]
                        expands_to(expand_path, before, Ok(after));
                    assert(was_expanded(Some(before), Some(after)));
                },
                None => {
                    assert(was_expanded(None, None));
                },
            }
        }
    }
    result
}

/// Whether the machine's home directory can make `after` of the path `before`.
pub closed spec fn is_home_form_of(before: Seq<char>, after: Seq<char>) -> bool {
    exists|path: &str, expanded: String| #[trigger]
        call_ensures(expand_tilde, (path,), expanded) && path@ == before && expanded@ == after
}

/// The path of the configuration file where none is given: below the home
/// directory.
pub fn default_config_path() -> (path: String)
    ensures
        is_home_form_of(DEFAULT_CONFIG_PATH@, path@),
        "/.config/lbm/config.toml"@.is_suffix_of(path@),
{
    proof {
        reveal_strlit("~/.config/lbm/config.toml");
        reveal_strlit("/.config/lbm/config.toml");
        assert(DEFAULT_CONFIG_PATH@.skip(1) =~= "/.config/lbm/config.toml"@);
    }
    expand_tilde(DEFAULT_CONFIG_PATH)
}

impl LoadedConfig {
    /// The settings that a command line and a file ask for; the paths in the file
    /// are taken as they are.
    pub fn merge(cli: &Cli, file_config: FileConfig) -> (loaded: LoadedConfig)
        ensures
            loaded.config.deep_view() == config_for(*cli, file_config),
    {
        let ghost file = file_config;
        let mut config = Config::default();
        let mut tui_source_explicit = false;
        let mut tui_database_path_explicit = false;
        let mut tui_api_base_url_set = false;

        if let Some(database) = file_config.database {
            if let Some(path) = database.path {
                config.database.path = path;
            }
        }
        if let Some(serve) = file_config.serve {
            if let Some(fetch) = serve.fetch {
                apply_fetch_overrides(&mut config.serve.fetch, fetch);
            }
            if let Some(http) = serve.http {
                if let Some(listen) = http.listen {
                    config.serve.http.listen = listen;
                }
            }
            if let Some(mail) = serve.mail {
                apply_mail_overrides(&mut config.serve.mail, mail);
            }
        }
        if let Some(tui) = file_config.tui {
            if let Some(refresh_seconds) = tui.refresh_seconds {
                config.tui.refresh_seconds = refresh_seconds;
            }
            if let Some(api_base_url) = tui.api_base_url {
                config.tui.api_base_url = api_base_url;
                tui_api_base_url_set = true;
            }
            if let Some(source) = tui.source {
                config.tui.source = source_or_default(source.as_str());
                tui_source_explicit = true;
            }
            if let Some(database_path) = tui.database_path {
                config.tui.database_path = database_path;
                tui_database_path_explicit = true;
            }
        }
        if tui_api_base_url_set && !tui_source_explicit {
            config.tui.source = TuiSource::RemoteApi;
        }
        let dummy = match &cli.command {
            Some(Command::Dummy(_)) => true,
            _ => false,
        };
        if let Some(db_path) = &cli.db {
            config.database.path = db_path.clone();
            config.tui.database_path = db_path.clone();
        } else if dummy {
            config.database.path = DEFAULT_DUMMY_DB_PATH.to_owned();
            config.tui.database_path = config.database.path.clone();
        } else if !tui_database_path_explicit {
            config.tui.database_path = config.database.path.clone();
        }
        assert(config.deep_view() =~~= config_of_file(
            file,
            database_path_of(*cli, file),
            tui_database_path_of(*cli, file),
        ));

        match &cli.command {
            Some(Command::Tui(args)) => apply_tui_overrides(&mut config, args),
            Some(Command::Serve(args)) => apply_serve_overrides(&mut config, args),
            Some(Command::Dummy(_)) => {},
            None => {},
        }

        proof {
            reveal_strlit("");
            if config.tui.api_base_url@.len() == 0 {
                assert(config.tui.api_base_url@ =~= ""@);
            }
        }
        if same_text(config.tui.api_base_url.as_str(), "") {
            config.tui.api_base_url = DEFAULT_TUI_API_BASE_URL.to_owned();
        }
        LoadedConfig { config }
    }

    /// The settings that a command line and a file ask for.
    pub fn load(cli: &Cli, file_config: FileConfig) -> (result: Result<LoadedConfig, ConfigError>)
        ensures
            match result {
                Ok(loaded) => exists|file: FileConfig|
                    {
                        &&& loaded.config.deep_view() == #[trigger] config_for(*cli, file)
                        &&& exists|a: Option<String>, b: Option<String>| #[trigger]
                            with_paths(file_config, a, b) == file
                        &&& was_expanded(file_database_path(file_config), file_database_path(file))
                        &&& was_expanded(
                            file_tui_database_path(file_config),
                            file_tui_database_path(file),
                        )
                        &&& may_become(file_database_path(file_config), file_database_path(file))
                        &&& may_become(
                            file_tui_database_path(file_config),
                            file_tui_database_path(file),
                        )
                    },
                Err(error) => blames_path(file_config, error),
            },
            has_plain_paths(file_config) ==> match result {
                Ok(loaded) => loaded.config.deep_view() == config_for(*cli, file_config),
                Err(_) => false,
            },
    {
        match expand_file_config_paths(file_config) {
            Ok(file) => {
                assert(has_plain_paths(file_config) ==> config_for(*cli, file) =~~= config_for(
                    *cli,
                    file_config,
                ));
                Ok(LoadedConfig::merge(cli, file))
            },
            Err(error) => Err(error),
        }
    }
}

impl ConfigError {
    /// The message of the error.
    pub fn message(&self) -> (out: String)
        ensures
            out@ == match *self {
                ConfigError::DatabasePath { path, cause } => "failed to expand [database].path `"@
                    + path@ + "`: "@ + cause@,
                ConfigError::TuiDatabasePath { path, cause } =>
                    "failed to expand [tui].database_path `"@ + path@ + "`: "@ + cause@,
            },
    {
        match self {
            ConfigError::DatabasePath { path, cause } => {
                let mut out = "failed to expand [database].path `".to_owned();
                out.append(path.as_str());
                out.append("`: ");
                out.append(cause.as_str());
                out
            },
            ConfigError::TuiDatabasePath { path, cause } => {
                let mut out = "failed to expand [tui].database_path `".to_owned();
                out.append(path.as_str());
                out.append("`: ");
                out.append(cause.as_str());
                out
            },
        }
    }
}

/// The name of a protection.
pub open spec fn security_name(security: SmtpSecurity) -> Seq<char> {
    match security {
        SmtpSecurity::Plain => "Plain"@,
        SmtpSecurity::StartTls => "StartTls"@,
        SmtpSecurity::Tls => "Tls"@,
    }
}

/// The name of a source.
pub open spec fn source_name(source: TuiSource) -> Seq<char> {
    match source {
        TuiSource::LocalSqlite => "LocalSqlite"@,
        TuiSource::RemoteApi => "RemoteApi"@,
    }
}

/// A truth value in words.
pub open spec fn truth(value: bool) -> Seq<char> {
    if value {
        "true"@
    } else {
        "false"@
    }
}

/// Whether a value is there, and not which.
pub open spec fn redacted<A>(value: Option<A>) -> Seq<char> {
    if value is Some {
        "Some(<redacted>)"@
    } else {
        "None"@
    }
}

/// How many values there are, and not which.
pub open spec fn redacted_list<A>(values: Seq<A>) -> Seq<char> {
    if values.len() == 0 {
        "[]"@
    } else {
        "[<redacted>; "@ + text::decimal(values.len() as int) + "]"@
    }
}

/// The settings that matter to the terminal interface.
pub open spec fn tui_summary(config: ConfigView) -> Seq<char> {
    "Tui(Config { database_path: "@ + bindings::quoted_path(config.tui.database_path)
        + ", refresh_seconds: "@ + text::decimal(config.tui.refresh_seconds as int)
        + ", source: "@ + source_name(config.tui.source) + ", api_base_url: "@
        + bindings::quoted(config.tui.api_base_url) + " })"@
}

/// The settings that matter to the service, without what must stay secret.
pub open spec fn serve_summary(config: ConfigView, once: bool) -> Seq<char> {
    "Serve(Config { database_path: "@ + bindings::quoted_path(config.database_path)
        + ", fetch_url: "@ + bindings::quoted(config.fetch.url) + ", interval_seconds: "@
        + text::decimal(config.fetch.interval_seconds as int) + ", listen: "@ + bindings::quoted(
        config.listen,
    ) + ", once: "@ + truth(once) + ", mail_enabled: "@ + truth(config.mail.enabled)
        + ", smtp_host: "@ + bindings::quoted(config.mail.smtp.host) + ", smtp_port: "@
        + text::decimal(config.mail.smtp.port as int) + ", smtp_username: "@ + redacted(
        config.mail.smtp.username,
    ) + ", smtp_password: "@ + redacted(config.mail.smtp.password) + ", smtp_from: "@ + redacted(
        config.mail.smtp.from,
    ) + ", smtp_to: "@ + redacted_list(config.mail.smtp.to) + ", smtp_security: "@ + security_name(
        config.mail.smtp.security,
    ) + " })"@
}

/// The settings that matter to a dummy history.
pub open spec fn dummy_summary(config: ConfigView, args: DummyArgs) -> Seq<char> {
    "Dummy(Config { database_path: "@ + bindings::quoted_path(config.database_path)
        + ", snapshots: "@ + text::decimal(args.snapshots as int) + ", teams: "@ + text::decimal(
        args.teams as int,
    ) + " })"@
}

/// The settings that matter to a command.
pub open spec fn summary_of(config: ConfigView, command: Command) -> Seq<char> {
    match command {
        Command::Tui(_) => tui_summary(config),
        Command::Serve(args) => serve_summary(config, args.once),
        Command::Dummy(args) => dummy_summary(config, args),
    }
}

fn truth_text(value: bool) -> (out: &'static str)
    ensures
        out@ == truth(value),
{
    if value {
        "true"
    } else {
        "false"
    }
}

/// Says whether a value is there, and not which.
pub fn redact_option<A>(value: &Option<A>) -> (out: String)
    ensures
        out@ == redacted(*value),
{
    if value.is_some() {
        "Some(<redacted>)".to_owned()
    } else {
        "None".to_owned()
    }
}

/// Says how many values there are, and not which.
pub fn redact_vec(values: &Vec<String>) -> (out: String)
    ensures
        out@ == redacted_list(values@),
{
    if values.len() == 0 {
        return "[]".to_owned();
    }
    let mut out = "[<redacted>; ".to_owned();
    out.append(natural_text(values.len() as u64).as_str());
    out.append("]");
    out
}

impl SmtpSecurity {
    /// The name of the protection.
    pub fn name(self) -> (out: &'static str)
        ensures
            out@ == security_name(self),
    {
        match self {
            SmtpSecurity::Plain => "Plain",
            SmtpSecurity::StartTls => "StartTls",
            SmtpSecurity::Tls => "Tls",
        }
    }
}

impl TuiSource {
    /// The name of the source.
    pub fn name(self) -> (out: &'static str)
        ensures
            out@ == source_name(self),
    {
        match self {
            TuiSource::LocalSqlite => "LocalSqlite",
            TuiSource::RemoteApi => "RemoteApi",
        }
    }
}

impl Config {
    /// Says which settings a command runs under; user names, passwords and mail
    /// addresses are left out.
    pub fn redacted_command_summary(&self, command: &Command) -> (out: String)
        ensures
            out@ == summary_of(self.deep_view(), *command),
    {
        match command {
            Command::Tui(_) => {
                let mut out = "Tui(Config { database_path: ".to_owned();
                out.append(quote_path(self.tui.database_path.as_str()).as_str());
                out.append(", refresh_seconds: ");
                out.append(natural_text(self.tui.refresh_seconds).as_str());
                out.append(", source: ");
                out.append(self.tui.source.name());
                out.append(", api_base_url: ");
                out.append(quote(self.tui.api_base_url.as_str()).as_str());
                out.append(" })");
                out
            },
            Command::Serve(args) => {
                let smtp = &self.serve.mail.smtp;
                let mut out = "Serve(Config { database_path: ".to_owned();
                out.append(quote_path(self.database.path.as_str()).as_str());
                out.append(", fetch_url: ");
                out.append(quote(self.serve.fetch.url.as_str()).as_str());
                out.append(", interval_seconds: ");
                out.append(natural_text(self.serve.fetch.interval_seconds).as_str());
                out.append(", listen: ");
                out.append(quote(self.serve.http.listen.as_str()).as_str());
                out.append(", once: ");
                out.append(truth_text(args.once));
                out.append(", mail_enabled: ");
                out.append(truth_text(self.serve.mail.enabled));
                out.append(", smtp_host: ");
                out.append(quote(smtp.host.as_str()).as_str());
                out.append(", smtp_port: ");
                out.append(natural_text(smtp.port as u64).as_str());
                out.append(", smtp_username: ");
                out.append(redact_option(&smtp.username).as_str());
                out.append(", smtp_password: ");
                out.append(redact_option(&smtp.password).as_str());
                out.append(", smtp_from: ");
                out.append(redact_option(&smtp.from).as_str());
                out.append(", smtp_to: ");
                out.append(redact_vec(&smtp.to).as_str());
                out.append(", smtp_security: ");
                out.append(smtp.security.name());
                out.append(" })");
                out
            },
            Command::Dummy(args) => {
                let mut out = "Dummy(Config { database_path: ".to_owned();
                out.append(quote_path(self.database.path.as_str()).as_str());
                out.append(", snapshots: ");
                out.append(natural_text(args.snapshots as u64).as_str());
                out.append(", teams: ");
                out.append(natural_text(args.teams as u64).as_str());
                out.append(" })");
                out
            },
        }
    }
}

/// Two settings that differ at most in which user name, password, sender and
/// recipients they hold have the same summary.
pub proof fn summary_keeps_secrets(
    a: ConfigView,
    username: Option<Seq<char>>,
    password: Option<Seq<char>>,
    from: Option<Seq<char>>,
    to: Seq<Seq<char>>,
    command: Command,
)
    requires
        username is Some <==> a.mail.smtp.username is Some,
        password is Some <==> a.mail.smtp.password is Some,
        from is Some <==> a.mail.smtp.from is Some,
        to.len() == a.mail.smtp.to.len(),
    ensures
        summary_of(
            ConfigView {
                mail: MailView {
                    smtp: SmtpView { username, password, from, to, ..a.mail.smtp },
                    ..a.mail
                },
                ..a
            },
            command,
        ) == summary_of(a, command),
{
}

/// Where the command line gives the address of the remote source and names no
/// source, the terminal interface reads from the remote one.
pub proof fn address_switches_to_remote(cli: Cli, file: FileConfig, args: TuiArgs)
    requires
        cli.command == Some(Command::Tui(args)),
        args.api_base_url is Some,
        args.source is None,
    ensures
        config_for(cli, file).tui.source == TuiSource::RemoteApi,
{
}

/// A source that the command line names is in force, whatever else is said.
pub proof fn named_source_is_in_force(cli: Cli, file: FileConfig, args: TuiArgs, word: String)
    requires
        cli.command == Some(Command::Tui(args)),
        args.source == Some(word),
    ensures
        config_for(cli, file).tui.source == source_meant(word@),
{
}

/// Where nothing is said of the source or of its address, the terminal interface
/// reads the local history.
pub proof fn source_is_local_by_default(cli: Cli, file: FileConfig)
    requires
        cli.command matches Some(Command::Tui(args)) ==> args.source is None
            && args.api_base_url is None,
        file.tui matches Some(tui) ==> tui.source is None && tui.api_base_url is None,
    ensures
        config_for(cli, file).tui.source == TuiSource::LocalSqlite,
{
}

/// A path that the command line gives is in force for every command.
pub proof fn given_path_is_in_force(cli: Cli, file: FileConfig, path: String)
    requires
        cli.db == Some(path),
    ensures
        config_for(cli, file).database_path == path@,
        config_for(cli, file).tui.database_path == path@,
{
}

/// The command for a dummy history touches no other history unless one is given
/// by its path.
pub proof fn dummy_history_is_apart(cli: Cli, file: FileConfig)
    requires
        cli.db is None,
        is_dummy(cli),
    ensures
        config_for(cli, file).database_path == DEFAULT_DUMMY_DB_PATH@,
        config_for(cli, file).tui.database_path == DEFAULT_DUMMY_DB_PATH@,
{
}

/// The address of the remote source is never empty.
pub proof fn address_is_filled(cli: Cli, file: FileConfig)
    ensures
        config_for(cli, file).tui.api_base_url.len() > 0,
{
    reveal_strlit("http://127.0.0.1:8080");
}

/// Without a file and without arguments the defaults are in force.
pub proof fn defaults_are_in_force(cli: Cli, file: FileConfig)
    requires
        cli.db is None,
        cli.command is None,
        file == (FileConfig { database: None, serve: None, tui: None }),
    ensures
        config_for(cli, file) == default_config(),
{
    reveal_strlit("http://127.0.0.1:8080");
}

/// What the arguments of the service say is in force, whatever the file says.
pub proof fn serve_arguments_are_in_force(cli: Cli, file: FileConfig, args: ServeArgs)
    requires
        cli.command == Some(Command::Serve(args)),
    ensures
        ({
            let config = config_for(cli, file);
            let smtp = config.mail.smtp;
            &&& args.interval matches Some(interval) ==> config.fetch.interval_seconds == interval
            &&& args.listen matches Some(listen) ==> config.listen == listen@
            &&& args.notify && !args.no_notify ==> config.mail.enabled
            &&& args.no_notify ==> !config.mail.enabled
            &&& args.smtp_host matches Some(host) ==> smtp.host == host@
            &&& args.smtp_port matches Some(port) ==> smtp.port == port
            &&& args.smtp_username matches Some(username) ==> smtp.username == Some(username@)
            &&& args.smtp_password matches Some(password) ==> smtp.password == Some(password@)
            &&& args.smtp_from matches Some(from) ==> smtp.from == Some(from@)
            &&& args.smtp_to@.len() > 0 ==> smtp.to == args.smtp_to.deep_view()
            &&& args.smtp_security matches Some(word) ==> smtp.security == security_meant(word@)
        }),
{
}

/// What the arguments of the service leave open is as the file says.
pub proof fn silent_arguments_leave_the_file_in_force(cli: Cli, file: FileConfig, args: ServeArgs)
    requires
        cli.command == Some(Command::Serve(args)),
    ensures
        ({
            let config = config_for(cli, file);
            let smtp = config.mail.smtp;
            &&& config.fetch.url == file_fetch(file).url
            &&& args.interval is None ==> config.fetch.interval_seconds == file_fetch(
                file,
            ).interval_seconds
            &&& args.listen is None ==> config.listen == file_listen(file)
            &&& !args.notify && !args.no_notify ==> config.mail.enabled == file_mail(file).enabled
            &&& args.smtp_host is None ==> smtp.host == file_mail(file).smtp.host
            &&& args.smtp_port is None ==> smtp.port == file_mail(file).smtp.port
            &&& args.smtp_username is None ==> smtp.username == file_mail(file).smtp.username
            &&& args.smtp_password is None ==> smtp.password == file_mail(file).smtp.password
            &&& args.smtp_from is None ==> smtp.from == file_mail(file).smtp.from
            &&& args.smtp_to@.len() == 0 ==> smtp.to == file_mail(file).smtp.to
            &&& args.smtp_security is None ==> smtp.security == file_mail(file).smtp.security
        }),
{
}

}
