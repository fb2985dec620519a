use whycache::git::{
    GitOutcome, apply_git_outcome, apply_numstat, git_paths, git_range, looks_like_path,
    next_git_request,
};
use whycache::map::SortedMap;
use whycache::model::{
    CacheStatus, Cause, CauseKind, Classification, Evidence, GitStat, Report, SummaryMetadata,
    TaskDiagnosis, UnchangedSummary,
};

fn metadata(commit: Option<&str>) -> SummaryMetadata {
    SummaryMetadata {
        path: "p".to_owned(),
        id: None,
        schema_version: None,
        turbo_version: None,
        commit_sha: commit.map(str::to_owned),
    }
}

fn evidence(source: &str) -> Evidence {
    Evidence { source: source.to_owned(), before: None, after: None, detail: None }
}

fn diagnosis(id: &str, sources: &[&str]) -> TaskDiagnosis {
    TaskDiagnosis {
        task_id: id.to_owned(),
        package: String::new(),
        task: String::new(),
        cache_status: CacheStatus::Miss,
        baseline_hash: None,
        current_hash: None,
        classification: Classification::RootCause,
        causes: vec![Cause {
            kind: CauseKind::InputFile,
            summary: "changed".to_owned(),
            confidence: 95,
            evidence: sources.iter().map(|s| evidence(s)).collect(),
        }],
        unchanged: UnchangedSummary {
            files: 0,
            environment_variables: 0,
            lockfile: None,
            turbo_json: None,
            task_configuration: false,
        },
        hints: vec![],
        git_stats: SortedMap::new(),
    }
}

fn report(before: Option<&str>, after: Option<&str>, tasks: Vec<TaskDiagnosis>) -> Report {
    Report { schema_version: "1", baseline: metadata(before), current: metadata(after), tasks, warnings: vec![] }
}

#[test]
fn only_file_like_sources_are_diffed() {
    assert!(looks_like_path("src/a.ts"));
    assert!(looks_like_path("turbo.json"));
    assert!(!looks_like_path("NODE_ENV"));
    let d = diagnosis("a", &["z.ts", "NODE_ENV", "a/b", "z.ts"]);
    assert_eq!(git_paths(&d), vec!["a/b".to_owned(), "z.ts".to_owned()]);
}

#[test]
fn range_needs_both_commits() {
    let mut r = report(Some("abc"), Some("def"), vec![]);
    assert_eq!(git_range(&mut r).as_deref(), Some("abc..def"));
    assert!(r.warnings.is_empty());
    let mut r = report(Some("abc"), None, vec![]);
    assert_eq!(git_range(&mut r), None);
    assert_eq!(r.warnings, vec!["`--git` was requested, but both summaries do not contain commit SHAs.".to_owned()]);
}

#[test]
fn numstat_lines_are_recorded() {
    let mut stats: SortedMap<GitStat> = SortedMap::new();
    apply_numstat(&mut stats, "3\t1\tsrc/a.ts\n-\t-\timage.png\nbad line\n+2\t0\tdir/with\ttab\n");
    assert_eq!(stats.keys(), vec!["dir/with\ttab".to_owned(), "src/a.ts".to_owned()]);
    assert_eq!(stats.get("src/a.ts"), Some(&GitStat { added_lines: 3, removed_lines: 1 }));
    assert_eq!(stats.get("dir/with\ttab"), Some(&GitStat { added_lines: 2, removed_lines: 0 }));
}

#[test]
fn requests_skip_tasks_without_files() {
    let r = report(Some("a"), Some("b"), vec![diagnosis("x", &["NODE_ENV"]), diagnosis("y", &["src/y.ts"])]);
    let (index, paths) = next_git_request(&r, 0).unwrap();
    assert_eq!(index, 1);
    assert_eq!(paths, vec!["src/y.ts".to_owned()]);
    assert!(next_git_request(&r, 2).is_none());
}

#[test]
fn git_outcomes_update_the_report() {
    let mut r = report(Some("a"), Some("b"), vec![diagnosis("y", &["src/y.ts"])]);
    assert!(apply_git_outcome(&mut r, 0, GitOutcome::Succeeded("5\t2\tsrc/y.ts\n".to_owned())));
    assert_eq!(r.tasks[0].git_stats.get("src/y.ts"), Some(&GitStat { added_lines: 5, removed_lines: 2 }));
    assert!(!apply_git_outcome(&mut r, 0, GitOutcome::Failed("  fatal: bad revision\n".to_owned())));
    assert_eq!(r.warnings, vec!["Git diff statistics were unavailable: fatal: bad revision".to_owned()]);
    assert!(!apply_git_outcome(&mut r, 0, GitOutcome::NotStarted));
    assert_eq!(r.warnings[1], "Could not start Git to collect diff statistics.");
}
