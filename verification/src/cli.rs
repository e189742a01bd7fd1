//! The parsed command line, as the plain values the run decides on.

use vstd::prelude::*;

verus! {

/// How much the run reports.
#[derive(Debug, Clone, Copy, PartialEq, Eq, Structural)]
pub enum LogLevel {
    Error,
    Warn,
    Info,
    Debug,
    Trace,
}

impl LogLevel {
    /// The level's name, as the logging filter expects it.
    pub fn as_tracing_env(&self) -> (r: String)
        ensures
            match self {
                LogLevel::Error => r@ == "error"@,
                LogLevel::Warn => r@ == "warn"@,
                LogLevel::Info => r@ == "info"@,
                LogLevel::Debug => r@ == "debug"@,
                LogLevel::Trace => r@ == "trace"@,
            },
    {
        match self {
            LogLevel::Error => "error".to_owned(),
            LogLevel::Warn => "warn".to_owned(),
            LogLevel::Info => "info".to_owned(),
            LogLevel::Debug => "debug".to_owned(),
            LogLevel::Trace => "trace".to_owned(),
        }
    }
}

/// The cache maintenance commands.
#[derive(Debug, Clone, Copy, PartialEq, Eq, Structural)]
pub enum CacheCommand {
    Clear,
    Invalidate,
}

/// The options of the inspect command.
#[derive(Debug, Clone, Copy, PartialEq, Eq, Structural)]
pub struct InspectArgs {
    pub reveal: bool,
}

/// The subcommands of the tool.
#[derive(Debug, Clone, Copy, PartialEq, Eq, Structural)]
pub enum Command {
    Cache(CacheCommand),
    Inspect(InspectArgs),
}

/// One parsed invocation.
pub struct Cli {
    pub command: Option<Command>,
    pub slop: Vec<String>,
    pub token: String,
    pub profile: Option<String>,
    pub log_level: LogLevel,
}

} // verus!
