use whycache::error::Error;
use whycache::map::SortedMap;
use whycache::model::{
    CacheStatus, CacheSummary, EnvironmentVariables, Execution, GlobalCacheInputs, RunSummary,
    ScmInfo, SpecifiedEnvironmentVariables, TaskSummary, changed_keys, portable_path,
    split_env_fingerprint,
};
use whycache::parser::accept_summary;

fn cache(status: Option<&str>, local: bool, remote: bool) -> CacheSummary {
    CacheSummary {
        local,
        remote,
        status: status.map(str::to_owned),
        source: None,
        time_saved: None,
        sha: None,
        dirty_hash: None,
    }
}

fn environment(configured: &[&str], inferred: &[&str], env: &[&str], passthrough: Option<&[&str]>) -> EnvironmentVariables {
    let owned = |v: &[&str]| v.iter().map(|s| (*s).to_owned()).collect::<Vec<_>>();
    EnvironmentVariables {
        specified: SpecifiedEnvironmentVariables { env: owned(env), pass_through_env: None },
        configured: owned(configured),
        inferred: owned(inferred),
        passthrough: passthrough.map(owned),
    }
}

fn task(task_id: &str, package: &str, name: &str, exit_code: Option<i32>) -> TaskSummary {
    TaskSummary {
        task_id: task_id.to_owned(),
        task: name.to_owned(),
        package: package.to_owned(),
        hash: None,
        hash_reason: None,
        inputs: SortedMap::new(),
        hash_of_external_dependencies: None,
        cache: cache(None, false, false),
        command: None,
        outputs: vec![],
        excluded_outputs: vec![],
        log_file: None,
        directory: None,
        dependencies: vec![],
        dependents: vec![],
        resolved_task_definition: None,
        environment_variables: environment(&[], &[], &[], None),
        execution: exit_code.map(|c| Execution { exit_code: Some(c) }),
    }
}

fn run(tasks: Vec<TaskSummary>, exit_code: Option<i32>, scm: Option<ScmInfo>) -> RunSummary {
    RunSummary {
        id: None,
        version: Some("1".to_owned()),
        turbo_version: None,
        global_cache_inputs: GlobalCacheInputs {
            root_key: None,
            files: SortedMap::new(),
            hash_of_external_dependencies: None,
            hash_of_internal_dependencies: None,
            environment_variables: environment(&[], &[], &[], None),
            engines: SortedMap::new(),
            root_pipeline: None,
        },
        execution: exit_code.map(|c| Execution { exit_code: Some(c) }),
        tasks,
        scm,
    }
}

fn map(entries: &[(&str, &str)]) -> SortedMap<String> {
    let mut m = SortedMap::new();
    for (k, v) in entries {
        m.insert((*k).to_owned(), (*v).to_owned());
    }
    m
}

#[test]
fn rejects_summaries_without_tasks() {
    let error = accept_summary(run(vec![], None, None), "empty").unwrap_err();
    assert!(error.message().contains("does not contain any tasks"));
    assert!(matches!(&error, Error::EmptySummary(l) if l == "empty"));
    assert_eq!(error.exit_code(), 1);
    let accepted = accept_summary(run(vec![task("app#build", "", "", None)], None, None), "ok").unwrap();
    assert_eq!(accepted.tasks[0].identity(), "app#build");
}

#[test]
fn cache_status_reads_the_reported_status() {
    assert_eq!(cache(Some("hit"), false, false).status(), CacheStatus::Hit);
    assert_eq!(cache(Some("Miss"), true, true).status(), CacheStatus::Miss);
    assert_eq!(cache(Some("disabled"), false, false).status(), CacheStatus::Skipped);
    assert_eq!(cache(Some("SKIP"), false, false).status(), CacheStatus::Skipped);
    assert_eq!(cache(Some("other"), false, true).status(), CacheStatus::Hit);
    assert_eq!(cache(None, false, false).status(), CacheStatus::Unknown);
}

#[test]
fn identity_and_filters() {
    let t = task("", "web", "build", None);
    assert_eq!(t.identity(), "web#build");
    assert!(t.matches("build"));
    assert!(t.matches("web#build"));
    assert!(!t.matches("web"));
    assert_eq!(task("", "", "lint", None).identity(), "lint");
    assert!(task("x#y", "web", "build", None).matches("y"));
}

#[test]
fn fingerprints_split_on_the_first_equals_sign() {
    assert_eq!(split_env_fingerprint("A=b=c"), ("A".to_owned(), Some("b=c".to_owned())));
    assert_eq!(split_env_fingerprint("PLAIN"), ("PLAIN".to_owned(), None));
    let env = environment(&["NODE_ENV=abc"], &["CI=1"], &["NODE_ENV", "EXTRA"], Some(&["PASS"]));
    let fp = env.fingerprints();
    assert_eq!(fp.keys(), vec!["CI", "EXTRA", "NODE_ENV", "PASS"]);
    assert_eq!(fp.get("NODE_ENV"), Some(&Some("abc".to_owned())));
    assert_eq!(fp.get("EXTRA"), Some(&None));
}

#[test]
fn changed_keys_is_symmetric_and_empty_for_equal_maps() {
    let a = map(&[("x", "1"), ("y", "2"), ("z", "3")]);
    let b = map(&[("x", "1"), ("y", "9"), ("w", "0")]);
    assert_eq!(changed_keys(&a, &b), vec!["w", "y", "z"]);
    assert_eq!(changed_keys(&a, &b), changed_keys(&b, &a));
    let c = map(&[("x", "1"), ("y", "2"), ("z", "3")]);
    assert!(changed_keys(&a, &c).is_empty());
}

#[test]
fn success_comes_from_the_run_or_its_tasks() {
    assert!(run(vec![task("a", "", "", Some(1))], Some(0), None).successful());
    assert!(!run(vec![], Some(2), None).successful());
    assert!(!run(vec![task("a", "", "", Some(0)), task("b", "", "", Some(3))], None, None).successful());
    assert!(run(vec![task("a", "", "", None)], None, None).successful());
}

#[test]
fn commit_prefers_sha_then_commit_sha_then_commit() {
    let scm = ScmInfo { sha: None, commit_sha: Some("c2".to_owned()), commit: Some("c3".to_owned()) };
    assert_eq!(run(vec![], None, Some(scm)).commit_sha().map(|s| s.as_str()), Some("c2"));
    let scm = ScmInfo { sha: Some("c1".to_owned()), commit_sha: Some("c2".to_owned()), commit: None };
    assert_eq!(run(vec![], None, Some(scm)).commit_sha().map(|s| s.as_str()), Some("c1"));
    assert_eq!(run(vec![], None, None).commit_sha(), None);
}

#[test]
fn portable_paths_use_forward_slashes() {
    assert_eq!(portable_path("a\\b\\c.json"), "a/b/c.json");
}

#[test]
fn every_error_has_its_message_and_exit_code() {
    let s = |v: &str| v.to_owned();
    let cases = vec![
        (Error::RepoNotFound(s("/x")), "could not find a Turborepo root from /x", 2),
        (Error::NoSummaries(s("/r/.turbo/runs")), "no run summaries found in /r/.turbo/runs; run `turbo run <task> --summarize` first or pass a task so WhyCache can capture a baseline", 2),
        (Error::NoConfiguredTasks(s("t.json")), "t.json does not declare any tasks; pass a task name explicitly", 2),
        (Error::TaskNotFound(s("lint")), "task `lint` was not present in the current run summary", 2),
        (Error::SameSummary(s("a.json")), "baseline and current summary resolve to the same file: a.json", 2),
        (Error::Config { path: s("t.json"), source: s("bad") }, "failed to parse task names from t.json: bad", 1),
        (Error::Read { path: s("a"), source: s("gone") }, "failed to read a: gone", 1),
        (Error::Parse { path: s("a"), source: s("eof") }, "failed to parse a: eof", 1),
        (Error::EmptySummary(s("a")), "run summary a does not contain any tasks", 1),
        (Error::Spawn { command: s("turbo"), source: s("missing") }, "failed to run `turbo`: missing", 1),
        (Error::Command { command: s("turbo"), status: s("1"), stderr: s("err") }, "`turbo` exited with status 1: err", 1),
        (Error::SaveBaseline { path: s("b"), source: s("ro") }, "failed to save the WhyCache baseline at b: ro", 1),
        (Error::Io(s("io")), "io", 1),
        (Error::Json(s("json")), "json", 1),
    ];
    for (error, message, code) in cases {
        assert_eq!(error.message(), message);
        assert_eq!(error.exit_code(), code);
    }
}
