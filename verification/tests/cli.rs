use chrono::{Datelike, Local, TimeZone, Timelike};
use espresso::cli::{resolve_mode, Cli, CliError, Commands, DaemonAction, Mode};
use espresso::time::{LocalDateTime, TimerArgError, TimerLength};

fn now() -> LocalDateTime {
    let t = Local.with_ymd_and_hms(2026, 7, 11, 12, 0, 0).single().unwrap();
    LocalDateTime::new(
        t.year(),
        t.month(),
        t.day(),
        t.hour(),
        t.minute(),
        t.second(),
        t.nanosecond(),
        t.offset().local_minus_utc(),
    )
    .unwrap()
}

fn cli(time: Option<&str>, command: Option<Commands>) -> Cli {
    Cli { time: time.map(|t| t.to_string()), command }
}

fn run(args: &[&str]) -> Option<Commands> {
    Some(Commands::Run(args.iter().map(|a| a.to_string()).collect()))
}

#[test]
fn no_args_shows_help() {
    assert_eq!(resolve_mode(cli(None, None), now()), Ok(Mode::Help));
}

#[test]
fn t_seconds_is_timer() {
    assert_eq!(
        resolve_mode(cli(Some("60"), None), now()),
        Ok(Mode::Timer(TimerLength { secs: 60, millis: 0 }))
    );
}

#[test]
fn positional_is_command() {
    assert_eq!(
        resolve_mode(cli(None, run(&["npm", "run", "build"])), now()),
        Ok(Mode::Command(vec!["npm".into(), "run".into(), "build".into()]))
    );
}

#[test]
fn command_ignores_t_without_error() {
    assert_eq!(
        resolve_mode(cli(Some("60"), run(&["sleep", "1"])), now()),
        Ok(Mode::Command(vec!["sleep".into(), "1".into()]))
    );
}

#[test]
fn daemon_status_subcommand() {
    assert_eq!(
        resolve_mode(cli(None, Some(Commands::Daemon { action: DaemonAction::Status })), now()),
        Ok(Mode::DaemonStatus)
    );
}

#[test]
fn daemon_install_and_uninstall_subcommands() {
    assert_eq!(
        resolve_mode(cli(None, Some(Commands::Daemon { action: DaemonAction::Install })), now()),
        Ok(Mode::DaemonInstall)
    );
    assert_eq!(
        resolve_mode(cli(None, Some(Commands::Daemon { action: DaemonAction::Uninstall })), now()),
        Ok(Mode::DaemonUninstall)
    );
}

#[test]
fn hidden_daemon_runtime() {
    assert_eq!(resolve_mode(cli(None, Some(Commands::Runtime)), now()), Ok(Mode::DaemonRuntime));
}

// ---- more ----

#[test]
fn bad_t_value_is_a_cli_error() {
    let r = resolve_mode(cli(Some("0"), None), now());
    assert_eq!(r, Err(CliError::Timer(TimerArgError::NotPositive("0".into()))));
    assert_eq!(
        r.unwrap_err().message(),
        "-t countdown seconds must be greater than 0: 0"
    );
}

#[test]
fn daemon_subcommand_ignores_t() {
    assert_eq!(
        resolve_mode(cli(Some("abc"), Some(Commands::Daemon { action: DaemonAction::Status })), now()),
        Ok(Mode::DaemonStatus)
    );
}
