//! How much the surrounding tools are allowed to print.

use vstd::prelude::*;

verus! {

/// The verbosity chosen on the command line.
#[derive(Clone, Copy, PartialEq, Eq, Structural)]
pub enum NoiseLevel {
    /// Print debug output as well as errors.
    Verbose,
    /// Print errors only.
    Standard,
    /// Print nothing.
    Quiet,
}

impl NoiseLevel {
    /// Combines the two command-line switches into one level.
    ///
    /// The switches are mutually exclusive; the caller's argument parser
    /// enforces that before this is reached.
    pub fn from_settings(verbose: bool, quiet: bool) -> (r: NoiseLevel)
        requires
            !(verbose && quiet),
        ensures
            r == NoiseLevel::Verbose <==> verbose,
            r == NoiseLevel::Quiet <==> quiet,
            r == NoiseLevel::Standard <==> !verbose && !quiet,
    {
        if verbose {
            NoiseLevel::Verbose
        } else if quiet {
            NoiseLevel::Quiet
        } else {
            NoiseLevel::Standard
        }
    }

    /// Whether errors should be printed at this level.
    pub fn err(&self) -> (r: bool)
        ensures
            r == (*self != NoiseLevel::Quiet),
    {
        *self != NoiseLevel::Quiet
    }

    /// Whether debug output should be printed at this level.
    pub fn debug(&self) -> (r: bool)
        ensures
            r == (*self == NoiseLevel::Verbose),
    {
        *self == NoiseLevel::Verbose
    }
}

} // verus!
