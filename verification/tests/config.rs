use lb_monitor::cli::{Cli, Command, DummyArgs, ServeArgs, TuiArgs};
use lb_monitor::config::{
    default_config_path, expand_file_config_paths, parse_smtp_security, parse_tui_source,
    redact_option, redact_vec, Config, ConfigError, FileConfig, FileDatabaseConfig,
    FileFetchConfig, FileMailConfig, FileServeConfig, FileServeHttpConfig, FileSmtpConfig,
    FileTuiConfig, LoadedConfig, SmtpSecurity, TuiSource,
};

fn serve_args() -> ServeArgs {
    ServeArgs {
        interval: None,
        listen: None,
        once: false,
        notify: false,
        no_notify: false,
        smtp_host: None,
        smtp_port: None,
        smtp_username: None,
        smtp_password: None,
        smtp_from: None,
        smtp_to: Vec::new(),
        smtp_security: None,
    }
}

fn cli(command: Option<Command>) -> Cli {
    Cli { config: None, db: None, command }
}

fn text(table: &toml::Table, key: &str) -> Option<String> {
    table.get(key).and_then(|value| value.as_str()).map(|value| value.to_string())
}

fn number(table: &toml::Table, key: &str) -> Option<i64> {
    table.get(key).and_then(|value| value.as_integer())
}

fn table<'a>(table: &'a toml::Table, key: &str) -> Option<&'a toml::Table> {
    table.get(key).and_then(|value| value.as_table())
}

fn file_config(contents: &str) -> FileConfig {
    let root = contents.parse::<toml::Table>().expect("toml");
    FileConfig {
        database: table(&root, "database")
            .map(|database| FileDatabaseConfig { path: text(database, "path") }),
        serve: table(&root, "serve").map(|serve| FileServeConfig {
            fetch: table(serve, "fetch").map(|fetch| FileFetchConfig {
                url: text(fetch, "url"),
                interval_seconds: number(fetch, "interval_seconds").map(|n| n as u64),
            }),
            http: table(serve, "http")
                .map(|http| FileServeHttpConfig { listen: text(http, "listen") }),
            mail: table(serve, "mail").map(|mail| FileMailConfig {
                enabled: mail.get("enabled").and_then(|value| value.as_bool()),
                smtp: table(mail, "smtp").map(|smtp| FileSmtpConfig {
                    host: text(smtp, "host"),
                    port: number(smtp, "port").map(|n| n as u16),
                    username: text(smtp, "username"),
                    password: text(smtp, "password"),
                    from: text(smtp, "from"),
                    to: smtp.get("to").and_then(|value| value.as_array()).map(|values| {
                        values
                            .iter()
                            .filter_map(|value| value.as_str().map(|value| value.to_string()))
                            .collect()
                    }),
                    security: text(smtp, "security"),
                }),
            }),
        }),
        tui: table(&root, "tui").map(|tui| FileTuiConfig {
            refresh_seconds: number(tui, "refresh_seconds").map(|n| n as u64),
            api_base_url: text(tui, "api_base_url"),
            source: text(tui, "source"),
            database_path: text(tui, "database_path"),
        }),
    }
}

#[test]
fn tui_defaults_to_local_sqlite() {
    let cli = cli(Some(Command::Tui(TuiArgs::default())));
    let loaded = LoadedConfig::load(&cli, FileConfig::default()).expect("load config");
    assert!(matches!(loaded.config.tui.source, TuiSource::LocalSqlite));
}

#[test]
fn tui_switches_to_remote_when_api_base_url_is_set() {
    let cli = cli(Some(Command::Tui(TuiArgs {
        refresh_seconds: None,
        source: None,
        api_base_url: Some("https://example.com".to_string()),
    })));
    let loaded = LoadedConfig::load(&cli, FileConfig::default()).expect("load config");
    assert!(matches!(loaded.config.tui.source, TuiSource::RemoteApi));
    assert_eq!(loaded.config.tui.api_base_url, "https://example.com");
}

#[test]
fn explicit_sqlite_source_keeps_local_reads() {
    let cli = cli(Some(Command::Tui(TuiArgs {
        refresh_seconds: None,
        source: Some("sqlite".to_string()),
        api_base_url: Some("https://example.com".to_string()),
    })));
    let loaded = LoadedConfig::load(&cli, FileConfig::default()).expect("load config");
    assert!(matches!(loaded.config.tui.source, TuiSource::LocalSqlite));
    assert_eq!(loaded.config.tui.api_base_url, "https://example.com");
}

#[test]
fn loads_grouped_serve_and_tui_sections() {
    let file = file_config(
        r#"
[database]
path = "shared.sqlite3"

[serve.fetch]
url = "https://example.com/leaderboard"
interval_seconds = 120

[serve.http]
listen = "0.0.0.0:9000"

[serve.mail]
enabled = true

[serve.mail.smtp]
host = "smtp.example.com"
port = 2525
from = "sender@example.com"
to = ["alpha@example.com", "beta@example.com"]
security = "plain"

[tui]
refresh_seconds = 9
source = "remote-api"
api_base_url = "https://api.example.com"
database_path = "tui.sqlite3"
"#,
    );

    let cli = cli(Some(Command::Tui(TuiArgs::default())));
    let loaded = LoadedConfig::load(&cli, file).expect("load config");

    assert_eq!(loaded.config.database.path, "shared.sqlite3");
    assert_eq!(loaded.config.serve.fetch.url, "https://example.com/leaderboard");
    assert_eq!(loaded.config.serve.fetch.interval_seconds, 120);
    assert_eq!(loaded.config.serve.http.listen, "0.0.0.0:9000");
    assert!(loaded.config.serve.mail.enabled);
    assert_eq!(loaded.config.serve.mail.smtp.host, "smtp.example.com");
    assert_eq!(loaded.config.serve.mail.smtp.port, 2525);
    assert_eq!(
        loaded.config.serve.mail.smtp.to,
        vec!["alpha@example.com".to_string(), "beta@example.com".to_string()]
    );
    assert!(matches!(loaded.config.serve.mail.smtp.security, SmtpSecurity::Plain));
    assert_eq!(loaded.config.tui.refresh_seconds, 9);
    assert!(matches!(loaded.config.tui.source, TuiSource::RemoteApi));
    assert_eq!(loaded.config.tui.api_base_url, "https://api.example.com");
    assert_eq!(loaded.config.tui.database_path, "tui.sqlite3");
}

#[test]
fn redacted_summary_uses_effective_serve_config() {
    let cli = cli(Some(Command::Serve(serve_args())));
    let loaded = LoadedConfig::load(&cli, FileConfig::default()).expect("load config");
    let summary =
        loaded.config.redacted_command_summary(cli.command.as_ref().expect("command"));

    assert!(summary.contains("interval_seconds: 300"));
    assert!(summary.contains("listen:"));
    assert!(summary.contains(&loaded.config.serve.http.listen));
    assert!(summary.contains("smtp_port: 465"));
    assert!(summary.contains("smtp_security: Tls"));
    assert!(!summary.contains("interval: None"));
    assert!(!summary.contains("listen: None"));
}

#[test]
fn serve_summary_is_written_out() {
    let mut args = serve_args();
    args.once = true;
    args.notify = true;
    args.smtp_host = Some("smtp.\"example\".com".to_string());
    args.smtp_username = Some("user".to_string());
    args.smtp_password = Some("secret".to_string());
    args.smtp_to = vec!["a@example.com".to_string(), "b@example.com".to_string()];
    args.smtp_security = Some("PLAIN".to_string());
    let cli = cli(Some(Command::Serve(args)));
    let loaded = LoadedConfig::load(&cli, FileConfig::default()).expect("load config");
    let summary = loaded.config.redacted_command_summary(cli.command.as_ref().expect("command"));
    assert_eq!(
        summary,
        "Serve(Config { database_path: \"lb-monitor.sqlite3\", fetch_url: \"https://dataagent.top/leaderboard\", interval_seconds: 300, listen: \"127.0.0.1:8080\", once: true, mail_enabled: true, smtp_host: \"smtp.\\\"example\\\".com\", smtp_port: 465, smtp_username: Some(<redacted>), smtp_password: Some(<redacted>), smtp_from: None, smtp_to: [<redacted>; 2], smtp_security: Plain })"
    );
}

#[test]
fn tui_and_dummy_summaries_are_written_out() {
    let tui = Command::Tui(TuiArgs::default());
    let mut config = Config::default();
    config.tui.database_path = "it's.sqlite3".to_string();
    assert_eq!(
        config.redacted_command_summary(&tui),
        "Tui(Config { database_path: \"it's.sqlite3\", refresh_seconds: 5, source: LocalSqlite, api_base_url: \"http://127.0.0.1:8080\" })"
    );
    let dummy = Command::Dummy(DummyArgs { snapshots: 4, teams: 7 });
    assert_eq!(
        config.redacted_command_summary(&dummy),
        "Dummy(Config { database_path: \"lb-monitor.sqlite3\", snapshots: 4, teams: 7 })"
    );
}

#[test]
fn summary_does_not_tell_secrets() {
    let command = Command::Serve(serve_args());
    let mut a = Config::default();
    a.serve.mail.smtp.password = Some("first".to_string());
    a.serve.mail.smtp.to = vec!["a@example.com".to_string()];
    let mut b = a.clone();
    b.serve.mail.smtp.password = Some("second".to_string());
    b.serve.mail.smtp.to = vec!["z@example.com".to_string()];
    assert_eq!(a.redacted_command_summary(&command), b.redacted_command_summary(&command));
}

#[test]
fn redaction_tells_presence_only() {
    assert_eq!(redact_option(&Some(7)), "Some(<redacted>)");
    assert_eq!(redact_option::<u8>(&None), "None");
    assert_eq!(redact_vec(&Vec::new()), "[]");
    assert_eq!(redact_vec(&vec!["x".to_string()]), "[<redacted>; 1]");
}

#[test]
fn command_line_overrides_the_file() {
    let file = file_config("[serve.fetch]\ninterval_seconds = 7\n[serve.http]\nlisten = \"a:1\"\n[serve.mail]\nenabled = true\n[serve.mail.smtp]\nhost = \"h\"\nport = 1\nusername = \"u\"\nto = [\"x@y.z\"]\nsecurity = \"unknown\"\n");
    let mut args = serve_args();
    args.interval = Some(9);
    args.no_notify = true;
    args.notify = true;
    args.smtp_port = Some(2);
    let cli = cli(Some(Command::Serve(args)));
    let config = LoadedConfig::load(&cli, file).expect("load").config;
    assert_eq!(config.serve.fetch.interval_seconds, 9);
    assert_eq!(config.serve.fetch.url, "https://dataagent.top/leaderboard");
    assert_eq!(config.serve.http.listen, "a:1");
    assert!(!config.serve.mail.enabled);
    assert_eq!(config.serve.mail.smtp.host, "h");
    assert_eq!(config.serve.mail.smtp.port, 2);
    assert_eq!(config.serve.mail.smtp.username.as_deref(), Some("u"));
    assert_eq!(config.serve.mail.smtp.to, vec!["x@y.z".to_string()]);
    assert_eq!(config.serve.mail.smtp.security, SmtpSecurity::StartTls);
}

#[test]
fn paths_follow_their_order() {
    let mut given = cli(Some(Command::Dummy(DummyArgs { snapshots: 1, teams: 3 })));
    given.db = Some("given.sqlite3".to_string());
    let config = LoadedConfig::load(&given, FileConfig::default()).expect("load").config;
    assert_eq!(config.database.path, "given.sqlite3");
    assert_eq!(config.tui.database_path, "given.sqlite3");

    let dummy = cli(Some(Command::Dummy(DummyArgs { snapshots: 1, teams: 3 })));
    let file = file_config("[database]\npath = \"own.sqlite3\"\n[tui]\ndatabase_path = \"t.sqlite3\"\n");
    let config = LoadedConfig::load(&dummy, file).expect("load").config;
    assert_eq!(config.database.path, "lb-monitor-dummy.sqlite3");
    assert_eq!(config.tui.database_path, "lb-monitor-dummy.sqlite3");

    let file = file_config("[database]\npath = \"own.sqlite3\"\n");
    let config = LoadedConfig::load(&cli(None), file).expect("load").config;
    assert_eq!(config.database.path, "own.sqlite3");
    assert_eq!(config.tui.database_path, "own.sqlite3");
}

#[test]
fn defaults_hold_without_file_and_arguments() {
    let config = LoadedConfig::load(&cli(None), FileConfig::default()).expect("load").config;
    assert_eq!(config.database.path, "lb-monitor.sqlite3");
    assert_eq!(config.serve.fetch.interval_seconds, 300);
    assert_eq!(config.serve.http.listen, "127.0.0.1:8080");
    assert!(!config.serve.mail.enabled);
    assert_eq!(config.serve.mail.smtp.port, 465);
    assert_eq!(config.serve.mail.smtp.security, SmtpSecurity::Tls);
    assert_eq!(config.tui.refresh_seconds, 5);
    assert_eq!(config.tui.api_base_url, "http://127.0.0.1:8080");
}

#[test]
fn file_address_switches_to_remote_and_empty_address_is_filled() {
    let file = file_config("[tui]\napi_base_url = \"\"\n");
    let config = LoadedConfig::load(&cli(None), file).expect("load").config;
    assert_eq!(config.tui.source, TuiSource::RemoteApi);
    assert_eq!(config.tui.api_base_url, "http://127.0.0.1:8080");
    let file = file_config("[tui]\napi_base_url = \"http://x\"\nsource = \"whatever\"\n");
    let config = LoadedConfig::load(&cli(None), file).expect("load").config;
    assert_eq!(config.tui.source, TuiSource::LocalSqlite);
}

#[test]
fn words_are_read_without_regard_to_capitals() {
    assert_eq!(parse_smtp_security("StartTLS"), Some(SmtpSecurity::StartTls));
    assert_eq!(parse_smtp_security("tls"), Some(SmtpSecurity::Tls));
    assert_eq!(parse_smtp_security("ssl"), None);
    assert_eq!(parse_tui_source("LOCAL"), Some(TuiSource::LocalSqlite));
    assert_eq!(parse_tui_source("local-sqlite"), Some(TuiSource::LocalSqlite));
    assert_eq!(parse_tui_source("https"), Some(TuiSource::RemoteApi));
    assert_eq!(parse_tui_source("remote"), Some(TuiSource::RemoteApi));
    assert_eq!(parse_tui_source(""), None);
}

#[test]
fn variables_in_paths_are_expanded() {
    let file = file_config("[database]\npath = \"${LB_MONITOR_TEST_UNSET:-fallback}/x.sqlite3\"\n");
    let expanded = expand_file_config_paths(file).expect("expand");
    assert_eq!(
        expanded.database.expect("database").path.as_deref(),
        Some("fallback/x.sqlite3")
    );
}

#[test]
fn unknown_variable_is_refused() {
    let file = file_config("[database]\npath = \"$LB_MONITOR_TEST_UNSET/x\"\n");
    let error = LoadedConfig::load(&cli(None), file).expect_err("refused");
    assert!(matches!(error, ConfigError::DatabasePath { .. }));
    assert!(error.message().starts_with("failed to expand [database].path `$LB_MONITOR_TEST_UNSET/x`: "));
    let file = file_config("[tui]\ndatabase_path = \"$LB_MONITOR_TEST_UNSET\"\n");
    let error = LoadedConfig::load(&cli(None), file).expect_err("refused");
    assert!(error.message().starts_with("failed to expand [tui].database_path `$LB_MONITOR_TEST_UNSET`: "));
}

#[test]
fn default_config_lies_below_the_home_directory() {
    let path = default_config_path();
    assert!(path.ends_with("/.config/lbm/config.toml"));
    assert!(!path.starts_with('~'));
}

#[test]
fn home_directory_in_paths_is_expanded() {
    let file = file_config("[database]\npath = \"~/boards/x.sqlite3\"\n");
    let loaded = LoadedConfig::load(&cli(None), file).expect("load");
    assert!(loaded.config.database.path.ends_with("/boards/x.sqlite3"));
    assert!(!loaded.config.database.path.starts_with('~'));
}

#[test]
fn home_directories_of_others_stay_as_they_are() {
    let file = file_config(
        "[database]\npath = \"~user/x.sqlite3\"\n\n[tui]\ndatabase_path = \"a~/x.sqlite3\"\n",
    );
    let loaded = LoadedConfig::load(&cli(None), file).expect("load");
    assert_eq!(loaded.config.database.path, "~user/x.sqlite3");
    assert_eq!(loaded.config.tui.database_path, "a~/x.sqlite3");
}
