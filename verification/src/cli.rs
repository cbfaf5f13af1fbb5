//! The command line, once parsed, and the run mode it selects.
//!
//! Modes without a subcommand: `espresso -t <secs|time>` keeps the Mac awake
//! for a countdown or until a clock time, `espresso <command> ...` while the
//! command runs.  A positional command wins over `-t`, which is then ignored
//! without error; with neither, help is shown.
use vstd::prelude::*;
use crate::time::{
    parse_timer_arg, timer_message, timer_outcomes, LocalDateTime, TimerArgError, TimerErrorModel,
    TimerLength,
};

verus! {

/// The parsed command line: `-t/--time <value>` and an optional subcommand.
#[derive(Debug)]
pub struct Cli {
    pub time: Option<String>,
    pub command: Option<Commands>,
}

#[derive(Debug)]
pub enum Commands {
    /// Manage the lid-closed keep-awake helper (install/uninstall/status).
    Daemon { action: DaemonAction },
    /// launchd runtime entry point (internal).
    Runtime,
    /// A command to run while keeping the Mac awake.
    Run(Vec<String>),
}

#[derive(Debug, Clone, Copy, PartialEq, Eq)]
pub enum DaemonAction {
    /// Install the privileged helper (requires sudo).
    Install,
    /// Remove the privileged helper (requires sudo).
    Uninstall,
    /// Show helper and keep-awake status.
    Status,
}

#[derive(Debug, PartialEq, Eq)]
pub enum Mode {
    Timer(TimerLength),
    Command(Vec<String>),
    DaemonInstall,
    DaemonUninstall,
    DaemonStatus,
    DaemonRuntime,
    Help,
}

#[derive(Debug, PartialEq, Eq)]
pub enum CliError {
    Timer(TimerArgError),
}

impl CliError {
    /// The human-readable message (that of the `-t` error).
    pub fn message(&self) -> (r: String)
        ensures
            match self {
                CliError::Timer(e) => r@ == timer_message(e@),
            },
    {
        match self {
            CliError::Timer(e) => e.message(),
        }
    }
}

pub open spec fn mode_for_action(a: DaemonAction) -> Mode {
    match a {
        DaemonAction::Install => Mode::DaemonInstall,
        DaemonAction::Uninstall => Mode::DaemonUninstall,
        DaemonAction::Status => Mode::DaemonStatus,
    }
}

pub open spec fn cli_timer_outcome(r: Result<Mode, CliError>) -> Result<TimerLength, TimerErrorModel> {
    match r {
        Ok(Mode::Timer(t)) => Ok(t),
        Err(CliError::Timer(e)) => Err(e@),
        _ => Err(TimerErrorModel::Empty),
    }
}

/// Selects the run mode: a subcommand or a positional command first, then
/// `-t`, then help.
pub fn resolve_mode(cli: Cli, now: LocalDateTime) -> (r: Result<Mode, CliError>)
    requires
        now.wf(),
    ensures
        match cli.command {
            Some(Commands::Run(argv)) => r == Ok::<Mode, CliError>(Mode::Command(argv)),
            Some(Commands::Daemon { action }) => r == Ok::<Mode, CliError>(mode_for_action(action)),
            Some(Commands::Runtime) => r == Ok::<Mode, CliError>(Mode::DaemonRuntime),
            None => match cli.time {
                Some(v) => (r matches Ok(Mode::Timer(_)) || r matches Err(CliError::Timer(_)))
                    && timer_outcomes(v@, now, cli_timer_outcome(r)),
                None => r == Ok::<Mode, CliError>(Mode::Help),
            },
        },
{
    match cli.command {
        // A positional command is present: -t is ignored (no error).
        Some(Commands::Run(argv)) => Ok(Mode::Command(argv)),
        Some(Commands::Daemon { action }) => Ok(
            match action {
                DaemonAction::Install => Mode::DaemonInstall,
                DaemonAction::Uninstall => Mode::DaemonUninstall,
                DaemonAction::Status => Mode::DaemonStatus,
            },
        ),
        Some(Commands::Runtime) => Ok(Mode::DaemonRuntime),
        None => match cli.time {
            Some(v) => match parse_timer_arg(v.as_str(), now) {
                Ok(t) => Ok(Mode::Timer(t)),
                Err(e) => Err(CliError::Timer(e)),
            },
            // No -t and no command: show help (the caller treats this as misuse).
            None => Ok(Mode::Help),
        },
    }
}

} // verus!
