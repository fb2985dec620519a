//! The errors of the tool, with their messages and exit codes.
use vstd::prelude::*;
use crate::text::{owned, push_str};

verus! {

/// Everything that can stop a diagnosis. Paths are written with `/`; the
/// `source`, `status` and `stderr` fields hold the text of what failed.
#[derive(Debug)]
pub enum Error {
    RepoNotFound(String),
    NoSummaries(String),
    NoConfiguredTasks(String),
    TaskNotFound(String),
    SameSummary(String),
    Config { path: String, source: String },
    Read { path: String, source: String },
    Parse { path: String, source: String },
    EmptySummary(String),
    Spawn { command: String, source: String },
    Command { command: String, status: String, stderr: String },
    SaveBaseline { path: String, source: String },
    Io(String),
    Json(String),
}

/// Usage problems exit with 2, failures with 1.
pub open spec fn spec_exit_code(e: &Error) -> i32 {
    match e {
        Error::NoSummaries(_) | Error::NoConfiguredTasks(_) | Error::TaskNotFound(_) | Error::SameSummary(_)
        | Error::RepoNotFound(_) => 2,
        _ => 1,
    }
}

/// The message of each error.
pub open spec fn spec_message(e: &Error) -> Seq<char> {
    match e {
        Error::RepoNotFound(p) => "could not find a Turborepo root from "@ + p@,
        Error::NoSummaries(p) => "no run summaries found in "@ + p@
            + "; run `turbo run <task> --summarize` first or pass a task so WhyCache can capture a baseline"@,
        Error::NoConfiguredTasks(p) => p@ + " does not declare any tasks; pass a task name explicitly"@,
        Error::TaskNotFound(t) => "task `"@ + t@ + "` was not present in the current run summary"@,
        Error::SameSummary(p) => "baseline and current summary resolve to the same file: "@ + p@,
        Error::Config { path, source } => "failed to parse task names from "@ + path@ + ": "@ + source@,
        Error::Read { path, source } => "failed to read "@ + path@ + ": "@ + source@,
        Error::Parse { path, source } => "failed to parse "@ + path@ + ": "@ + source@,
        Error::EmptySummary(p) => "run summary "@ + p@ + " does not contain any tasks"@,
        Error::Spawn { command, source } => "failed to run `"@ + command@ + "`: "@ + source@,
        Error::Command { command, status, stderr } => "`"@ + command@ + "` exited with status "@ + status@ + ": "@ + stderr@,
        Error::SaveBaseline { path, source } => "failed to save the WhyCache baseline at "@ + path@ + ": "@ + source@,
        Error::Io(m) => m@,
        Error::Json(m) => m@,
    }
}

fn joined2(a: &str, b: &str) -> (r: String)
    ensures
        r@ == a@ + b@,
{
    let mut s = owned(a);
    push_str(&mut s, b);
    s
}

fn joined(a: &str, b: &str, c: &str) -> (r: String)
    ensures
        r@ == a@ + b@ + c@,
{
    let mut s = joined2(a, b);
    push_str(&mut s, c);
    s
}

fn joined4(a: &str, b: &str, c: &str, d: &str) -> (r: String)
    ensures
        r@ == a@ + b@ + c@ + d@,
{
    let mut s = joined(a, b, c);
    push_str(&mut s, d);
    s
}

impl Error {
    /// The process exit code for this error.
    pub fn exit_code(&self) -> (r: i32)
        ensures
            r == spec_exit_code(self),
    {
        match self {
            Error::NoSummaries(_) | Error::NoConfiguredTasks(_) | Error::TaskNotFound(_) | Error::SameSummary(_)
            | Error::RepoNotFound(_) => 2,
            _ => 1,
        }
    }

    /// The message shown to the user.
    pub fn message(&self) -> (r: String)
        ensures
            r@ == spec_message(self),
    {
        match self {
            Error::RepoNotFound(p) => joined2("could not find a Turborepo root from ", p.as_str()),
            Error::NoSummaries(p) => joined(
                "no run summaries found in ",
                p.as_str(),
                "; run `turbo run <task> --summarize` first or pass a task so WhyCache can capture a baseline",
            ),
            Error::NoConfiguredTasks(p) => joined2(p.as_str(), " does not declare any tasks; pass a task name explicitly"),
            Error::TaskNotFound(t) => joined("task `", t.as_str(), "` was not present in the current run summary"),
            Error::SameSummary(p) => joined2("baseline and current summary resolve to the same file: ", p.as_str()),
            Error::Config { path, source } => joined4("failed to parse task names from ", path.as_str(), ": ", source.as_str()),
            Error::Read { path, source } => joined4("failed to read ", path.as_str(), ": ", source.as_str()),
            Error::Parse { path, source } => joined4("failed to parse ", path.as_str(), ": ", source.as_str()),
            Error::EmptySummary(p) => joined("run summary ", p.as_str(), " does not contain any tasks"),
            Error::Spawn { command, source } => joined4("failed to run `", command.as_str(), "`: ", source.as_str()),
            Error::Command { command, status, stderr } => {
                let mut s = joined4("`", command.as_str(), "` exited with status ", status.as_str());
                push_str(&mut s, ": ");
                push_str(&mut s, stderr.as_str());
                s
            },
            Error::SaveBaseline { path, source } => joined4(
                "failed to save the WhyCache baseline at ",
                path.as_str(),
                ": ",
                source.as_str(),
            ),
            Error::Io(m) => m.clone(),
            Error::Json(m) => m.clone(),
        }
    }
}

} // verus!
