//! Configuration for one invocation of the filter.

use vstd::prelude::*;

verus! {

/// Which input to read, where to write, and which view of the runs to emit.
///
/// `count` and `all_duplicated` are mutually exclusive: the expanded view has
/// no per-line count to print. Callers reject that combination before running.
pub struct Options {
    /// Input path, `-` for standard input.
    pub input: String,
    /// Output path; `None` writes to standard output.
    pub output: Option<String>,
    /// Prefix each output line with its run length.
    pub count: bool,
    /// Keep only runs of length 1.
    pub unique: bool,
    /// Keep only runs of length greater than 1.
    pub duplicated: bool,
    /// Expand every run of length greater than 1 back into its occurrences.
    pub all_duplicated: bool,
}

impl Options {
    /// Whether the configuration asks for both a count prefix and the
    /// expanded view; the two have no common rendering and the combination
    /// is rejected as a usage error before any processing.
    pub fn has_conflict(&self) -> (r: bool)
        ensures
            r == (self.count && self.all_duplicated),
    {
        self.count && self.all_duplicated
    }
}

} // verus!
