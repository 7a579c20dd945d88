//! The global command-line flags, as the library sees them.

use vstd::prelude::*;
use crate::verbosity::Verbosity;

verus! {

/// The global flags shared by every subcommand; `quiet` and `verbose`
/// exclude each other on the command line.
#[derive(Debug, Clone, Copy, PartialEq, Eq, Structural)]
pub struct Cli {
    /// Suppress all output except errors and requested content.
    pub quiet: bool,
    /// Show detailed output.
    pub verbose: bool,
}

impl Cli {
    /// The verbosity the flags select.
    pub fn verbosity(&self) -> (r: Verbosity)
        ensures
            r == (if self.quiet {
                Verbosity::Quiet
            } else if self.verbose {
                Verbosity::Verbose
            } else {
                Verbosity::Normal
            }),
    {
        Verbosity::from_flags(self.quiet, self.verbose)
    }
}

} // verus!
