//! Which settings are in force.
use crate::bindings;
use crate::cli::{Cli, Command, DummyArgs, ServeArgs, TuiArgs};
use crate::config::{
    self, ConfigError, ConfigView, FileConfig, FileFetchConfig, FileMailConfig, FileSmtpConfig,
    SmtpSecurity, TuiSource,
};
use crate::text;
use vstd::prelude::*;

verus! {

/// What the file says of the fetches.
pub open spec fn said_of_fetch(file: FileConfig) -> Option<FileFetchConfig> {
    match file.serve {
        Some(serve) => serve.fetch,
        None => None,
    }
}

/// What the file says of the mails.
pub open spec fn said_of_mail(file: FileConfig) -> Option<FileMailConfig> {
    match file.serve {
        Some(serve) => serve.mail,
        None => None,
    }
}

/// What the file says of the mail server.
pub open spec fn said_of_smtp(file: FileConfig) -> Option<FileSmtpConfig> {
    match said_of_mail(file) {
        Some(mail) => mail.smtp,
        None => None,
    }
}

/// What the file says of fetches, mails and the service's address is in force where
/// no argument says otherwise.
pub proof fn file_is_in_force(cli: Cli, file: FileConfig)
    requires
        !(cli.command matches Some(Command::Serve(_))),
    ensures
        ({
            let in_force = config::config_for(cli, file);
            let smtp = in_force.mail.smtp;
            &&& said_of_fetch(file) matches Some(fetch) ==> {
                &&& fetch.url matches Some(url) ==> in_force.fetch.url == url@
                &&& fetch.interval_seconds matches Some(seconds) ==> in_force.fetch.interval_seconds
                    == seconds
            }
            &&& file.serve matches Some(serve) ==> (serve.http matches Some(http) ==> (
            http.listen matches Some(listen) ==> in_force.listen == listen@))
            &&& said_of_mail(file) matches Some(mail) ==> (mail.enabled matches Some(enabled)
                ==> in_force.mail.enabled == enabled)
            &&& said_of_smtp(file) matches Some(said) ==> {
                &&& said.host matches Some(host) ==> smtp.host == host@
                &&& said.port matches Some(port) ==> smtp.port == port
                &&& said.username matches Some(username) ==> smtp.username == Some(username@)
                &&& said.password matches Some(password) ==> smtp.password == Some(password@)
                &&& said.from matches Some(from) ==> smtp.from == Some(from@)
                &&& said.to matches Some(to) ==> smtp.to == to.deep_view()
                &&& said.security matches Some(word) ==> smtp.security == config::security_meant(
                    word@,
                )
            }
        }),
{
}

/// What the file leaves open is as by default.
pub proof fn silent_file_leaves_the_defaults_in_force(cli: Cli, file: FileConfig)
    requires
        !(cli.command matches Some(Command::Serve(_))),
    ensures
        (said_of_fetch(file) matches Some(fetch) ==> fetch.url is None) ==> config::config_for(
            cli,
            file,
        ).fetch.url == "https://dataagent.top/leaderboard"@,
        (said_of_fetch(file) matches Some(fetch) ==> fetch.interval_seconds is None)
            ==> config::config_for(cli, file).fetch.interval_seconds == 300,
        (file.serve matches Some(serve) ==> (serve.http matches Some(http) ==> http.listen is None))
            ==> config::config_for(cli, file).listen == "127.0.0.1:8080"@,
        (said_of_mail(file) matches Some(mail) ==> mail.enabled is None) ==> !config::config_for(
            cli,
            file,
        ).mail.enabled,
        (said_of_smtp(file) matches Some(smtp) ==> smtp.host is None) ==> config::config_for(
            cli,
            file,
        ).mail.smtp.host.len() == 0,
        (said_of_smtp(file) matches Some(smtp) ==> smtp.port is None) ==> config::config_for(
            cli,
            file,
        ).mail.smtp.port == 465,
        (said_of_smtp(file) matches Some(smtp) ==> smtp.username is None) ==> config::config_for(
            cli,
            file,
        ).mail.smtp.username is None,
        (said_of_smtp(file) matches Some(smtp) ==> smtp.password is None) ==> config::config_for(
            cli,
            file,
        ).mail.smtp.password is None,
        (said_of_smtp(file) matches Some(smtp) ==> smtp.from is None) ==> config::config_for(
            cli,
            file,
        ).mail.smtp.from is None,
        (said_of_smtp(file) matches Some(smtp) ==> smtp.to is None) ==> config::config_for(
            cli,
            file,
        ).mail.smtp.to.len() == 0,
        (said_of_smtp(file) matches Some(smtp) ==> smtp.security is None) ==> config::config_for(
            cli,
            file,
        ).mail.smtp.security == SmtpSecurity::Tls,
{
}

/// The paths in force: one that the command line gives counts for both histories;
/// else, but for a made-up history, the file's count, and the terminal interface
/// reads the service's history where the file gives it none of its own.
pub proof fn paths_follow_the_command_line_and_the_file(cli: Cli, file: FileConfig)
    requires
        cli.db is None,
        !(cli.command matches Some(Command::Dummy(_))),
    ensures
        ({
            let in_force = config::config_for(cli, file);
            let path = match file.database {
                Some(database) => database.path,
                None => None,
            };
            let tui_path = match file.tui {
                Some(tui) => tui.database_path,
                None => None,
            };
            &&& path matches Some(path) ==> in_force.database_path == path@
            &&& path is None ==> in_force.database_path == "lb-monitor.sqlite3"@
            &&& tui_path matches Some(path) ==> in_force.tui.database_path == path@
            &&& tui_path is None ==> in_force.tui.database_path == in_force.database_path
        }),
{
}

/// The terminal interface follows its arguments, then the file, then the defaults.
/// An address that is given without a source means the remote source.
pub proof fn terminal_follows_arguments_and_file(cli: Cli, file: FileConfig, args: TuiArgs)
    requires
        cli.command == Some(Command::Tui(args)),
    ensures
        ({
            let tui = config::config_for(cli, file).tui;
            let said_seconds = match file.tui {
                Some(said) => said.refresh_seconds,
                None => None,
            };
            let said_address = match file.tui {
                Some(said) => said.api_base_url,
                None => None,
            };
            let said_source = match file.tui {
                Some(said) => said.source,
                None => None,
            };
            &&& args.refresh_seconds matches Some(seconds) ==> tui.refresh_seconds == seconds
            &&& args.refresh_seconds is None ==> (said_seconds matches Some(seconds)
                ==> tui.refresh_seconds == seconds)
            &&& args.refresh_seconds is None && said_seconds is None ==> tui.refresh_seconds == 5
            &&& args.api_base_url matches Some(url) ==> (url@.len() > 0 ==> tui.api_base_url == url@)
            &&& args.api_base_url is None ==> (said_address matches Some(url) ==> (url@.len() > 0
                ==> tui.api_base_url == url@))
            &&& args.api_base_url is None && said_address is None ==> tui.api_base_url
                == "http://127.0.0.1:8080"@
            &&& args.api_base_url matches Some(url) ==> (url@.len() == 0 ==> tui.api_base_url
                == "http://127.0.0.1:8080"@)
            &&& args.api_base_url is None ==> (said_address matches Some(url) ==> (url@.len() == 0
                ==> tui.api_base_url == "http://127.0.0.1:8080"@))
            &&& args.source is None && args.api_base_url is None ==> (said_source matches Some(word)
                ==> tui.source == config::source_meant(word@))
            &&& args.source is None && args.api_base_url is None && said_source is None
                && said_address is Some ==> tui.source == TuiSource::RemoteApi
        }),
{
    reveal_strlit("http://127.0.0.1:8080");
}

/// A word names a source or a protection whatever its capitals; an unknown word
/// means the local source, or the protection that begins without one.
pub proof fn words_name_sources_and_protections(word: Seq<char>)
    ensures
        ({
            let small = word.map_values(|c: char| text::ascii_lower(c));
            let local = small == "sqlite"@ || small == "local"@ || small == "local-sqlite"@;
            let remote = small == "http"@ || small == "https"@ || small == "remote"@ || small
                == "remote-api"@;
            &&& local ==> config::source_named(word) == Some(TuiSource::LocalSqlite)
            &&& remote && !local ==> config::source_named(word) == Some(TuiSource::RemoteApi)
            &&& !local && !remote ==> config::source_named(word) is None
            &&& config::source_meant(word) == TuiSource::RemoteApi <==> remote && !local
            &&& small == "plain"@ ==> config::security_named(word) == Some(SmtpSecurity::Plain)
            &&& small == "starttls"@ && small != "plain"@ ==> config::security_named(word) == Some(
                SmtpSecurity::StartTls,
            )
            &&& small == "tls"@ && small != "plain"@ && small != "starttls"@
                ==> config::security_named(word) == Some(SmtpSecurity::Tls)
            &&& small != "plain"@ && small != "starttls"@ && small != "tls"@
                ==> config::security_named(word) is None
            &&& config::security_named(word) is None ==> config::security_meant(word)
                == SmtpSecurity::StartTls
            &&& config::security_named(word) matches Some(security) ==> config::security_meant(word)
                == security
        }),
{
}

/// Other commands than that of the terminal interface change nothing of its
/// settings: they are as under its command without arguments.
pub proof fn other_commands_leave_the_terminal_alone(cli: Cli, bare: Cli, file: FileConfig)
    requires
        !(cli.command matches Some(Command::Tui(_))),
        !(cli.command matches Some(Command::Dummy(_))),
        bare.db == cli.db,
        bare.command == Some(
            Command::Tui(TuiArgs { refresh_seconds: None, source: None, api_base_url: None }),
        ),
    ensures
        config::config_for(cli, file).tui == config::config_for(bare, file).tui,
        config::config_for(cli, file).database_path == config::config_for(bare, file).database_path,
{
}

/// A summary has the settings that matter to its command, the secret ones only by
/// their presence or their number.
pub proof fn summaries_tell_the_settings(
    c: ConfigView,
    tui: TuiArgs,
    serve: ServeArgs,
    dummy: DummyArgs,
)
    ensures
        config::summary_of(c, Command::Tui(tui)) == "Tui(Config { database_path: "@
            + bindings::quoted_path(c.tui.database_path) + ", refresh_seconds: "@ + text::decimal(
            c.tui.refresh_seconds as int,
        ) + ", source: "@ + (if c.tui.source == TuiSource::LocalSqlite {
            "LocalSqlite"@
        } else {
            "RemoteApi"@
        }) + ", api_base_url: "@ + bindings::quoted(c.tui.api_base_url) + " })"@,
        config::summary_of(c, Command::Dummy(dummy)) == "Dummy(Config { database_path: "@
            + bindings::quoted_path(c.database_path) + ", snapshots: "@ + text::decimal(
            dummy.snapshots as int,
        ) + ", teams: "@ + text::decimal(dummy.teams as int) + " })"@,
        ({
            let smtp = c.mail.smtp;
            config::summary_of(c, Command::Serve(serve)) == "Serve(Config { database_path: "@
                + bindings::quoted_path(c.database_path) + ", fetch_url: "@ + bindings::quoted(
                c.fetch.url,
            ) + ", interval_seconds: "@ + text::decimal(c.fetch.interval_seconds as int)
                + ", listen: "@ + bindings::quoted(c.listen) + ", once: "@ + yes_or_no(serve.once)
                + ", mail_enabled: "@ + yes_or_no(c.mail.enabled) + ", smtp_host: "@
                + bindings::quoted(smtp.host) + ", smtp_port: "@ + text::decimal(smtp.port as int)
                + ", smtp_username: "@ + hidden(smtp.username is Some) + ", smtp_password: "@
                + hidden(smtp.password is Some) + ", smtp_from: "@ + hidden(smtp.from is Some)
                + ", smtp_to: "@ + (if smtp.to.len() == 0 {
                "[]"@
            } else {
                "[<redacted>; "@ + text::decimal(smtp.to.len() as int) + "]"@
            }) + ", smtp_security: "@ + (if smtp.security == SmtpSecurity::Plain {
                "Plain"@
            } else if smtp.security == SmtpSecurity::Tls {
                "Tls"@
            } else {
                "StartTls"@
            }) + " })"@
        }),
{
}

/// A truth value in words.
pub open spec fn yes_or_no(value: bool) -> Seq<char> {
    if value {
        "true"@
    } else {
        "false"@
    }
}

/// What is told of a secret: whether it is there.
pub open spec fn hidden(there: bool) -> Seq<char> {
    if there {
        "Some(<redacted>)"@
    } else {
        "None"@
    }
}

/// Other paths change nothing else of a file: what is said of the service stays, and
/// of the terminal interface all but its path.
pub proof fn other_paths_change_nothing_else(
    file: FileConfig,
    path: Option<String>,
    tui_path: Option<String>,
)
    ensures
        ({
            let changed = config::with_paths(file, path, tui_path);
            &&& changed.serve == file.serve
            &&& changed.database is Some == file.database is Some
            &&& changed.tui is Some == file.tui is Some
            &&& changed.database matches Some(database) ==> database.path == path
            &&& changed.tui matches Some(tui) ==> {
                &&& tui.database_path == tui_path
                &&& tui.refresh_seconds == file.tui->Some_0.refresh_seconds
                &&& tui.source == file.tui->Some_0.source
                &&& tui.api_base_url == file.tui->Some_0.api_base_url
            }
        }),
{
}

/// A path is there after the expansion exactly where it was there before. One without
/// `$` that begins with `~` keeps its end, and one that has neither stays as it is.
pub proof fn paths_keep_what_names_nothing(before: Option<Seq<char>>, after: Option<Seq<char>>)
    requires
        config::may_become(before, after),
    ensures
        before is Some == after is Some,
        before matches Some(path) && !path.contains('$') && (path.len() == 0 || path[0] != '~')
            ==> after == before,
        before matches Some(path) ==> (!path.contains('$') && path.len() > 0 && path[0] == '~' ==> {
            &&& after->Some_0.len() >= path.len() - 1
            &&& forall|i: int|
                1 <= i < path.len() ==> #[trigger] path[i] == after->Some_0[after->Some_0.len()
                    - path.len() + i]
        }),
{
    if let Some(path) = before {
        let out = after->Some_0;
        if !path.contains('$') && path.len() > 0 && path[0] == '~' {
            let rest = path.skip(1);
            assert(rest.is_suffix_of(out));
            assert(out.subrange(out.len() - rest.len(), out.len() as int) =~= rest);
            assert forall|i: int| 1 <= i < path.len() implies #[trigger] path[i] == out[out.len()
                - path.len() + i] by {
                assert(rest[i - 1] == path[i]);
                assert(out.subrange(out.len() - rest.len(), out.len() as int)[i - 1] == rest[i - 1]);
            }
        }
    }
}

/// A path that is blamed stands in the file, and names a variable or the home
/// directory.
pub proof fn only_paths_that_name_something_are_blamed(
    file: FileConfig,
    path: String,
    cause: String,
)
    ensures
        config::blames_path(file, ConfigError::DatabasePath { path, cause }) ==> {
            &&& file.database matches Some(database) && database.path matches Some(found)
                && found@ == path@
            &&& path@.contains('$') || (path@.len() > 0 && path@[0] == '~')
        },
        config::blames_path(file, ConfigError::TuiDatabasePath { path, cause }) ==> {
            &&& file.tui matches Some(tui) && tui.database_path matches Some(found) && found@
                == path@
            &&& path@.contains('$') || (path@.len() > 0 && path@[0] == '~')
        },
{
}

}
