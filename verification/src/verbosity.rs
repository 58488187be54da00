//! Logging verbosity chosen from repeated quiet/verbose flags.

use vstd::prelude::*;

verus! {

/// A log severity, from most to least severe.
#[derive(Clone, Copy, PartialEq, Eq, Structural, Debug)]
pub enum Level {
    Error,
    Warn,
    Info,
    Debug,
    Trace,
}

/// Counts of `--quiet` and `--verbose` occurrences on the command line.
#[derive(Clone, Copy, PartialEq, Eq, Structural, Debug)]
pub struct Verbosity {
    pub quiet: u8,
    pub verbose: u8,
}

/// The level selected by a quiet/verbose balance: info by default, each
/// verbose step adds detail, each quiet step removes it.
pub open spec fn spec_log_level(quiet: u8, verbose: u8) -> Level {
    let v = 2 - (quiet as int) + (verbose as int);
    if v <= 0 {
        Level::Error
    } else if v == 1 {
        Level::Warn
    } else if v == 2 {
        Level::Info
    } else if v == 3 {
        Level::Debug
    } else {
        Level::Trace
    }
}

impl Verbosity {
    /// Get the log level.
    pub fn log_level(&self) -> (r: Level)
        ensures
            r == spec_log_level(self.quiet, self.verbose),
    {
        let verbosity: i32 = 2 - (self.quiet as i32) + (self.verbose as i32);
        if verbosity <= 0 {
            Level::Error
        } else if verbosity == 1 {
            Level::Warn
        } else if verbosity == 2 {
            Level::Info
        } else if verbosity == 3 {
            Level::Debug
        } else {
            Level::Trace
        }
    }
}

} // verus!
