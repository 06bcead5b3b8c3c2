use vstd::prelude::*;

verus! {

/// How much the program logs.
#[derive(Clone, Copy, Debug, PartialEq, Eq, Structural)]
pub enum LogLevel {
    Warn,
    Info,
    Debug,
    Trace,
}

/// The command line: the configuration file and how often `-v` was given.
pub struct Args {
    pub config: String,
    pub verbose: u8,
}

/// The log level for `verbose` repetitions of `-v`.
pub open spec fn level_for(verbose: u8) -> LogLevel {
    if verbose == 0 {
        LogLevel::Warn
    } else if verbose == 1 {
        LogLevel::Info
    } else if verbose == 2 {
        LogLevel::Debug
    } else {
        LogLevel::Trace
    }
}

/// The log level for `verbose` repetitions of `-v`: none warns, one informs,
/// two debug, more trace.
pub fn log_level(verbose: u8) -> (r: LogLevel)
    ensures
        r == level_for(verbose),
{
    match verbose {
        0 => LogLevel::Warn,
        1 => LogLevel::Info,
        2 => LogLevel::Debug,
        _ => LogLevel::Trace,
    }
}

impl Args {
    /// The log level the command line asks for.
    pub fn log_level(&self) -> (r: LogLevel)
        ensures
            r == level_for(self.verbose),
    {
        log_level(self.verbose)
    }
}

impl Default for Args {
    /// `config.toml`, quietly.
    fn default() -> (r: Self)
        ensures
            r.config@ == "config.toml"@,
            r.verbose == 0,
    {
        Args { config: "config.toml".to_owned(), verbose: 0 }
    }
}

} // verus!
