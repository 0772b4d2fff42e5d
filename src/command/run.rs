//! The arguments of the `run` subcommand.

use vstd::prelude::*;

verus! {

/// Arguments to the `run` subcommand.
#[derive(Debug)]
pub struct Args {
    /// A source WDL file or URL.
    pub source: String,
    /// The name of the task or workflow to run against, where it is not
    /// inferred from the prefixes of the input keys.
    pub name: Option<String>,
    /// The inputs passed in on the command line.
    pub inputs: Vec<String>,
}

} // verus!
