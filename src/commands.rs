//! What the user asked for on the command line.

use vstd::prelude::*;

verus! {

/// The validated command line: which files, which term, what to put in its
/// place, and the two independent switches.
#[derive(Default, Debug)]
pub struct UserInput {
    /// The glob pattern that selects files by their path.
    pub pattern_string: String,
    /// The term to look for.
    pub old_term: String,
    /// The term to put in its place.
    pub new_term: String,
    /// Compute and show the changes, but write nothing.
    pub dry_run: bool,
    /// Show nothing but the final counters.
    pub silent: bool,
}

} // verus!
