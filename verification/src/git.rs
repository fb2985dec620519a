//! Git diff statistics for the files that a diagnosis names.
//!
//! The caller runs Git; this module decides what to ask for, and what the
//! answer changes in the report.
use vstd::prelude::*;
use crate::map::{SortedMap, sorted_keys};
use crate::model::{CauseView, GitStat, Report, ReportView, TaskDiagnosis, TaskDiagnosisView, diagnosis_views};
use crate::text::{
    contains_char, lines, owned, parse_decimal, parse_u64, push_str, split_lines, split_once,
    split_once_char, trim_whitespace, trim_ws,
};

verus! {

/// An evidence source that names a file rather than a variable.
pub open spec fn spec_looks_like_path(source: Seq<char>) -> bool {
    source.contains('/') || source.contains('.')
}

pub fn looks_like_path(source: &str) -> (r: bool)
    ensures
        r == spec_looks_like_path(source@),
{
    contains_char(source, '/') || contains_char(source, '.')
}

/// The evidence sources of `causes` that look like paths.
pub open spec fn path_sources(causes: Seq<CauseView>) -> Set<Seq<char>> {
    Set::new(
        |p: Seq<char>|
            spec_looks_like_path(p) && exists|i: int, j: int|
                0 <= i < causes.len() && 0 <= j < causes[i].evidence.len() && #[trigger] causes[i].evidence[j].source == p,
    )
}

/// The sources among the first `i` causes, and the first `j` evidences of
/// cause `i`, that look like paths.
pub open spec fn seen_sources(causes: Seq<CauseView>, i: int, j: int) -> Set<Seq<char>> {
    Set::new(
        |p: Seq<char>|
            spec_looks_like_path(p) && exists|a: int, b: int|
                0 <= a < causes.len() && 0 <= b < causes[a].evidence.len() && (a < i || (a == i && b < j))
                    && #[trigger] causes[a].evidence[b].source == p,
    )
}

/// The files that the evidence of `task` names, each once, in ascending
/// order.
#[verifier::spinoff_prover]
pub fn git_paths(task: &TaskDiagnosis) -> (r: Vec<String>)
    ensures
        r.deep_view() == sorted_keys(path_sources(task@.causes)),
        forall|p: Seq<char>| r.deep_view().contains(p) <==> #[trigger] path_sources(task@.causes).contains(p),
{
    let ghost causes = task@.causes;
    let mut set: SortedMap<bool> = SortedMap::new();
    assert(set@.dom() =~= seen_sources(causes, 0, 0));
    let mut i: usize = 0;
    while i < task.causes.len()
        invariant
            i <= task.causes.len(),
            causes == task@.causes,
            causes.len() == task.causes.len(),
            set@.dom() == seen_sources(causes, i as int, 0),
        decreases task.causes.len() - i,
    {
        let evidence = &task.causes[i].evidence;
        assert(causes[i as int] == task.causes@[i as int]@);
        assert(causes[i as int].evidence.len() == evidence.len());
        let mut j: usize = 0;
        while j < evidence.len()
            invariant
                i < task.causes.len(),
                j <= evidence.len(),
                causes == task@.causes,
                causes.len() == task.causes.len(),
                evidence == &task.causes@[i as int].evidence,
                causes[i as int].evidence.len() == evidence.len(),
                set@.dom() == seen_sources(causes, i as int, j as int),
            decreases evidence.len() - j,
        {
            let source = &evidence[j].source;
            assert(causes[i as int].evidence[j as int].source == source@);
            let ghost before = set@.dom();
            if looks_like_path(source.as_str()) {
                set.insert(source.clone(), true);
            }
            proof {
                let next = seen_sources(causes, i as int, j + 1);
                assert forall|p: Seq<char>| #[trigger] next.contains(p) == set@.dom().contains(p) by {
                    if next.contains(p) && p != source@ {
                        let (a, b) = choose|a: int, b: int|
                            0 <= a < causes.len() && 0 <= b < causes[a].evidence.len() && (a < i || (a == i && b < j + 1))
                                && #[trigger] causes[a].evidence[b].source == p;
                        assert(before.contains(p));
                    }
                    if before.contains(p) {
                        let (a, b) = choose|a: int, b: int|
                            0 <= a < causes.len() && 0 <= b < causes[a].evidence.len() && (a < i || (a == i && b < j))
                                && #[trigger] causes[a].evidence[b].source == p;
                        assert(next.contains(p));
                    }
                };
                assert(set@.dom() =~= next);
            }
            j = j + 1;
        }
        proof {
            let next = seen_sources(causes, i + 1, 0);
            let cur = seen_sources(causes, i as int, j as int);
            assert forall|p: Seq<char>| #[trigger] next.contains(p) == cur.contains(p) by {
                if next.contains(p) {
                    let (a, b) = choose|a: int, b: int|
                        0 <= a < causes.len() && 0 <= b < causes[a].evidence.len() && (a < i + 1 || (a == i + 1 && b < 0))
                            && #[trigger] causes[a].evidence[b].source == p;
                    assert(cur.contains(p));
                }
                if cur.contains(p) {
                    let (a, b) = choose|a: int, b: int|
                        0 <= a < causes.len() && 0 <= b < causes[a].evidence.len() && (a < i || (a == i && b < j))
                            && #[trigger] causes[a].evidence[b].source == p;
                    assert(next.contains(p));
                }
            };
            assert(next =~= cur);
        }
        i = i + 1;
    }
    proof {
        let all = path_sources(causes);
        let cur = seen_sources(causes, i as int, 0);
        assert forall|p: Seq<char>| #[trigger] all.contains(p) == cur.contains(p) by {
            if all.contains(p) {
                let (a, b) = choose|a: int, b: int|
                    0 <= a < causes.len() && 0 <= b < causes[a].evidence.len() && #[trigger] causes[a].evidence[b].source == p;
                assert(cur.contains(p));
            }
        };
        assert(all =~= cur);
    }
    let keys = set.keys();
    assert forall|p: Seq<char>| keys.deep_view().contains(p) <==> #[trigger] path_sources(causes).contains(p) by {
        assert(set@.dom().contains(p) == set.key_seq().contains(p));
    };
    keys
}

/// What one `git diff --numstat` line records: the added and removed line
/// counts and the path, separated by tabs.
pub open spec fn numstat_entry(line: Seq<char>) -> Option<(Seq<char>, GitStat)> {
    match split_once(line, '\t') {
        Some((added, rest)) => match split_once(rest, '\t') {
            Some((removed, path)) => match (parse_u64(added), parse_u64(removed)) {
                (Some(a), Some(r)) => Some((path, GitStat { added_lines: a, removed_lines: r })),
                _ => None,
            },
            None => None,
        },
        None => None,
    }
}

/// `stats` after recording each readable line of `ls`, later lines winning.
pub open spec fn record_numstat(stats: Map<Seq<char>, GitStat>, ls: Seq<Seq<char>>) -> Map<Seq<char>, GitStat>
    decreases ls.len(),
{
    if ls.len() == 0 {
        stats
    } else {
        let before = record_numstat(stats, ls.drop_last());
        match numstat_entry(ls.last()) {
            Some((path, stat)) => before.insert(path, stat),
            None => before,
        }
    }
}

fn read_numstat_line(line: &str) -> (r: Option<(String, GitStat)>)
    ensures
        numstat_entry(line@) == (match r { Some((p, st)) => Some((p@, st)), None => None }),
{
    let (added, rest) = match split_once_char(line, '\t') {
        Some(parts) => parts,
        None => return None,
    };
    let (removed, path) = match split_once_char(rest.as_str(), '\t') {
        Some(parts) => parts,
        None => return None,
    };
    match (parse_decimal(added.as_str()), parse_decimal(removed.as_str())) {
        (Some(a), Some(r)) => Some((path, GitStat { added_lines: a, removed_lines: r })),
        _ => None,
    }
}

/// Records the line counts that `git diff --numstat` printed.
pub fn apply_numstat(stats: &mut SortedMap<GitStat>, stdout: &str)
    ensures
        final(stats)@ == record_numstat(old(stats)@, lines(stdout@)),
{
    let ls = split_lines(stdout);
    let ghost all = ls.deep_view();
    let ghost start = stats@;
    let mut i: usize = 0;
    assert(all.take(0) =~= Seq::<Seq<char>>::empty());
    while i < ls.len()
        invariant
            i <= ls.len(),
            all == ls.deep_view(),
            all == lines(stdout@),
            stats@ == record_numstat(start, all.take(i as int)),
        decreases ls.len() - i,
    {
        proof {
            assert(all.take(i + 1).drop_last() =~= all.take(i as int));
            assert(all.take(i + 1).last() == ls@[i as int]@);
        }
        match read_numstat_line(ls[i].as_str()) {
            Some((path, stat)) => {
                stats.insert(path, stat);
            },
            None => {},
        }
        i = i + 1;
    }
    assert(all.take(i as int) =~= all);
}

/// The warning when a report lacks a commit on either side.
pub open spec fn missing_commit_warning() -> Seq<char> {
    "`--git` was requested, but both summaries do not contain commit SHAs."@
}

/// The revision range to diff, `before..after`, when both summaries name
/// their commit; otherwise the report gets a warning and there is nothing to
/// ask Git.
pub fn git_range(report: &mut Report) -> (r: Option<String>)
    ensures
        match (old(report)@.baseline.commit_sha, old(report)@.current.commit_sha) {
            (Some(b), Some(a)) => r is Some && r->0@ == b + ".."@ + a && final(report)@ == old(report)@,
            _ => r is None && final(report)@ == (ReportView {
                warnings: old(report)@.warnings.push(missing_commit_warning()),
                ..old(report)@
            }),
        },
{
    let ghost warnings = report.warnings.deep_view();
    match (&report.baseline.commit_sha, &report.current.commit_sha) {
        (Some(before), Some(after)) => {
            let mut range = before.clone();
            push_str(&mut range, "..");
            push_str(&mut range, after.as_str());
            Some(range)
        },
        _ => {
            report.warnings.push(owned("`--git` was requested, but both summaries do not contain commit SHAs."));
            assert(report.warnings.deep_view() =~= warnings.push(missing_commit_warning()));
            None
        },
    }
}

/// The first task from `from` on whose evidence names files, with those
/// files.
pub fn next_git_request(report: &Report, from: usize) -> (r: Option<(usize, Vec<String>)>)
    ensures
        match r {
            Some((i, paths)) => from <= i < report.tasks.len() && paths.deep_view() == sorted_keys(path_sources(report@.tasks[i as int].causes))
                && paths.len() > 0
                && forall|k: int| from <= k < i ==> path_sources(#[trigger] report@.tasks[k].causes).is_empty(),
            None => forall|k: int| from <= k < report.tasks.len() ==> path_sources(#[trigger] report@.tasks[k].causes).is_empty(),
        },
{
    let mut i: usize = from;
    while i < report.tasks.len()
        invariant
            from <= i,
            forall|k: int| from <= k < i && k < report.tasks.len() ==> path_sources(#[trigger] report@.tasks[k].causes).is_empty(),
        decreases report.tasks.len() - i,
    {
        let paths = git_paths(&report.tasks[i]);
        assert(report@.tasks[i as int] == report.tasks@[i as int]@);
        if paths.len() > 0 {
            return Some((i, paths));
        }
        proof {
            let s = path_sources(report@.tasks[i as int].causes);
            assert forall|p: Seq<char>| !s.contains(p) by {
                if s.contains(p) {
                    assert(paths.deep_view().contains(p));
                }
            };
            assert(s =~= Set::<Seq<char>>::empty());
        }
        i = i + 1;
    }
    None
}

/// What running `git diff --numstat` for one task gave.
pub enum GitOutcome {
    /// Git could not be started.
    NotStarted,
    /// Git exited unsuccessfully, with this standard error.
    Failed(String),
    /// Git succeeded, with this standard output.
    Succeeded(String),
}

pub open spec fn not_started_warning() -> Seq<char> {
    "Could not start Git to collect diff statistics."@
}

pub open spec fn unavailable_warning(stderr: Seq<char>) -> Seq<char> {
    "Git diff statistics were unavailable: "@ + trim_ws(stderr)
}

/// Records what Git answered for the task at `task`, and tells whether to go
/// on with the next task: a failure ends the enrichment with a warning.
#[verifier::spinoff_prover]
pub fn apply_git_outcome(report: &mut Report, task: usize, outcome: GitOutcome) -> (go_on: bool)
    requires
        task < old(report).tasks.len(),
    ensures
        match outcome {
            GitOutcome::NotStarted => !go_on && final(report)@ == (ReportView {
                warnings: old(report)@.warnings.push(not_started_warning()),
                ..old(report)@
            }),
            GitOutcome::Failed(stderr) => !go_on && final(report)@ == (ReportView {
                warnings: old(report)@.warnings.push(unavailable_warning(stderr@)),
                ..old(report)@
            }),
            GitOutcome::Succeeded(stdout) => go_on && final(report)@ == (ReportView {
                tasks: old(report)@.tasks.update(
                    task as int,
                    TaskDiagnosisView {
                        git_stats: record_numstat(old(report)@.tasks[task as int].git_stats, lines(stdout@)),
                        ..old(report)@.tasks[task as int]
                    },
                ),
                ..old(report)@
            }),
        },
{
    let ghost warnings = report.warnings.deep_view();
    let ghost views = diagnosis_views(report.tasks@);
    match outcome {
        GitOutcome::NotStarted => {
            report.warnings.push(owned("Could not start Git to collect diff statistics."));
            assert(report.warnings.deep_view() =~= warnings.push(not_started_warning()));
            false
        },
        GitOutcome::Failed(stderr) => {
            let mut w = owned("Git diff statistics were unavailable: ");
            let trimmed = trim_whitespace(stderr.as_str());
            push_str(&mut w, trimmed.as_str());
            report.warnings.push(w);
            assert(report.warnings.deep_view() =~= warnings.push(unavailable_warning(stderr@)));
            false
        },
        GitOutcome::Succeeded(stdout) => {
            let ghost raw = report.tasks@;
            let mut t = report.tasks.remove(task);
            assert(t == raw[task as int]);
            apply_numstat(&mut t.git_stats, stdout.as_str());
            let ghost tv = t@;
            report.tasks.insert(task, t);
            proof {
                assert(report.tasks@ =~= raw.update(task as int, report.tasks@[task as int]));
                assert(diagnosis_views(report.tasks@) =~= views.update(task as int, tv));
            }
            true
        },
    }
}

} // verus!
