//! The arguments of the `check` subcommand.

use vstd::prelude::*;

verus! {

/// Arguments to the `check` subcommand.
#[derive(Debug)]
pub struct Args {
    /// A set of source WDL files (files or URLs).
    pub sources: Vec<String>,
    /// Excepts (ignores) an analysis or lint rule.
    pub except: Vec<String>,
    /// Enables the default set of lints (everything but `shellcheck`).
    pub lint: bool,
    /// Enables `shellcheck` lints.
    pub shellcheck: bool,
    /// Whether or not to print the results.
    pub print_results: bool,
}

impl Args {
    /// Whether there is something to check: at least one source is needed.
    pub fn has_sources(&self) -> (r: bool)
        ensures
            r == (self.sources@.len() > 0),
    {
        self.sources.len() > 0
    }
}

} // verus!
