//! The subcommands of the command line tool, as plain data.

use vstd::prelude::*;

pub mod check;
pub mod run;
pub mod validate;

verus! {

/// The command to run.
#[derive(Debug)]
pub enum Command {
    /// Runs an analysis on a WDL file or set of WDL files within a directory.
    Check(check::Args),
    /// Runs the specified WDL task or workflow.
    Run(run::Args),
    /// Validates the inputs with respect to the specified WDL task or workflow.
    Validate(validate::Args),
}

} // verus!
