//! Settings shared by all analyses.

use vstd::prelude::*;

verus! {

/// How much the program logs.
#[derive(Clone, Copy, Debug, PartialEq, Eq, Structural)]
pub enum LogVerbosity {
    Error,
    Warn,
    Info,
    Debug,
    Trace,
}

/// Options that every subcommand takes.
#[derive(Clone, Debug)]
pub struct Globals {
    /// Revision at which the walk stops; it is still visited.
    pub since: Option<String>,
    /// Revision from which the walk starts, in place of the default.
    pub until: Option<String>,
    /// Whether the report is printed as JSON.
    pub json: bool,
    pub log_level: LogVerbosity,
}

/// Where the repository is and which revision a walk starts from.
#[derive(Clone, Debug)]
pub struct RepoOptions {
    pub working_dir: String,
    pub rev_spec: String,
}

} // verus!
