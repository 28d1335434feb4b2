//! Mapping from a repeatable verbosity switch to a logging level.

use vstd::prelude::*;

verus! {

/// The logging levels the driver can run at, most verbose last.
#[derive(Clone, Copy, PartialEq, Eq, Structural, Debug)]
pub enum LevelFilter {
    Info,
    Debug,
    Trace,
}

/// How often the verbosity switch was given.
#[derive(Clone, Copy, PartialEq, Eq, Structural, Debug)]
pub struct Verbosity {
    pub verbose: u8,
}

impl Verbosity {
    /// The level a count selects: zero is informational, one enables debug
    /// output, anything more enables trace output.
    pub fn to_level_filter(&self) -> (r: LevelFilter)
        ensures
            r == if self.verbose == 0 {
                LevelFilter::Info
            } else if self.verbose == 1 {
                LevelFilter::Debug
            } else {
                LevelFilter::Trace
            },
    {
        match self.verbose {
            0 => LevelFilter::Info,
            1 => LevelFilter::Debug,
            _ => LevelFilter::Trace,
        }
    }
}

} // verus!
