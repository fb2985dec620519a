//! The command line, as plain values.
use vstd::prelude::*;

verus! {

/// What the user asked for on the command line.
#[derive(Debug)]
pub struct Cli {
    /// Limit the report to a task name or task id.
    pub task: Option<String>,
    /// Compare the newest run with this summary; `-` reads it from stdin.
    pub against: Option<String>,
    /// Emit stable machine-readable JSON.
    pub json: bool,
    /// Emit GitHub-flavored Markdown.
    pub md: bool,
    /// Add Git diff statistics when both summaries contain commit SHAs.
    pub git: bool,
    /// Repository to inspect; the current directory when absent.
    pub repo: Option<String>,
    /// Disable ANSI styling in human output.
    pub no_color: bool,
}

} // verus!
