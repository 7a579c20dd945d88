//! Verbosity control for command output.

use vstd::prelude::*;

verus! {

/// Verbosity level for command output.
#[derive(Debug, Clone, Copy, PartialEq, Eq, Structural)]
pub enum Verbosity {
    /// Suppress all non-essential output (errors and requested content only).
    Quiet,
    /// Normal output (status messages).
    Normal,
    /// Verbose output (detailed information).
    Verbose,
}

impl Default for Verbosity {
    fn default() -> (r: Self)
        ensures
            r == Verbosity::Normal,
    {
        Verbosity::Normal
    }
}

/// Fewest work items for which a progress bar is worth drawing.
pub const MIN_ITEMS_FOR_PROGRESS: u64 = 25;

impl Verbosity {
    /// Create from the `--quiet` / `--verbose` flags; quiet wins.
    pub fn from_flags(quiet: bool, verbose: bool) -> (r: Self)
        ensures
            quiet ==> r == Verbosity::Quiet,
            !quiet && verbose ==> r == Verbosity::Verbose,
            !quiet && !verbose ==> r == Verbosity::Normal,
    {
        if quiet {
            Verbosity::Quiet
        } else if verbose {
            Verbosity::Verbose
        } else {
            Verbosity::Normal
        }
    }

    /// Whether status messages should be shown.
    pub fn show_status(self) -> (r: bool)
        ensures
            r == (self != Verbosity::Quiet),
    {
        !matches!(self, Verbosity::Quiet)
    }

    /// Whether verbose/debug messages should be shown.
    pub fn show_verbose(self) -> (r: bool)
        ensures
            r == (self == Verbosity::Verbose),
    {
        matches!(self, Verbosity::Verbose)
    }

    /// Whether an operation over `total` items should draw a progress bar:
    /// only when status output is on and the work is long enough to avoid
    /// flicker.
    pub fn show_progress(self, total: u64) -> (r: bool)
        ensures
            r == (self != Verbosity::Quiet && total >= MIN_ITEMS_FOR_PROGRESS),
    {
        self.show_status() && total >= MIN_ITEMS_FOR_PROGRESS
    }
}

} // verus!
