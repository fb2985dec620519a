use whycache::causes::{redact_command, task_map};
use whycache::graph::topological_order;
use whycache::diagnosis::{analyze, require_match};
use whycache::error::Error;
use whycache::map::SortedMap;
use whycache::model::{
    CacheSummary, CauseKind, Classification, EnvironmentVariables, GlobalCacheInputs, RunSummary,
    SpecifiedEnvironmentVariables, SummaryPair, SummarySource, TaskSummary,
};

fn environment() -> EnvironmentVariables {
    EnvironmentVariables {
        specified: SpecifiedEnvironmentVariables { env: vec![], pass_through_env: None },
        configured: vec![],
        inferred: vec![],
        passthrough: None,
    }
}

fn task(id: &str, name: &str, hash: &str) -> TaskSummary {
    TaskSummary {
        task_id: id.to_owned(),
        task: name.to_owned(),
        package: String::new(),
        hash: Some(hash.to_owned()),
        hash_reason: None,
        inputs: SortedMap::new(),
        hash_of_external_dependencies: None,
        cache: CacheSummary {
            local: false,
            remote: false,
            status: None,
            source: None,
            time_saved: None,
            sha: None,
            dirty_hash: None,
        },
        command: None,
        outputs: vec![],
        excluded_outputs: vec![],
        log_file: None,
        directory: None,
        dependencies: vec![],
        dependents: vec![],
        resolved_task_definition: None,
        environment_variables: environment(),
        execution: None,
    }
}

fn globals() -> GlobalCacheInputs {
    GlobalCacheInputs {
        root_key: None,
        files: SortedMap::new(),
        hash_of_external_dependencies: None,
        hash_of_internal_dependencies: None,
        environment_variables: environment(),
        engines: SortedMap::new(),
        root_pipeline: None,
    }
}

fn run(tasks: Vec<TaskSummary>) -> RunSummary {
    RunSummary {
        id: None,
        version: None,
        turbo_version: None,
        global_cache_inputs: globals(),
        execution: None,
        tasks,
        scm: None,
    }
}

fn files(entries: &[(&str, &str)]) -> SortedMap<String> {
    let mut map = SortedMap::new();
    for (k, v) in entries {
        map.insert((*k).to_owned(), (*v).to_owned());
    }
    map
}

fn pair(baseline: RunSummary, current: RunSummary) -> SummaryPair {
    SummaryPair {
        baseline: SummarySource { path: "before".to_owned(), summary: baseline },
        current: SummarySource { path: "after".to_owned(), summary: current },
        warnings: vec![],
    }
}

fn status(t: &mut TaskSummary, s: &str) {
    t.cache.status = Some(s.to_owned());
}

#[test]
fn ranks_environment_change_above_file_change() {
    let mut before = task("app#build", "build", "one");
    before.inputs = files(&[("a.ts", "a")]);
    before.environment_variables.configured = vec!["NODE_ENV=aaa".to_owned()];
    let mut after = task("app#build", "build", "two");
    after.inputs = files(&[("a.ts", "b")]);
    after.environment_variables.configured = vec!["NODE_ENV=bbb".to_owned()];
    status(&mut after, "MISS");
    let report = analyze(pair(run(vec![before]), run(vec![after])), Some("build"));
    assert_eq!(report.tasks[0].causes[0].kind, CauseKind::Environment);
    assert_eq!(report.tasks[0].classification, Classification::RootCause);
}

#[test]
fn detects_same_hash_cache_miss() {
    let before = task("app#build", "", "same");
    let mut after = task("app#build", "", "same");
    status(&mut after, "MISS");
    let report = analyze(pair(run(vec![before]), run(vec![after])), None);
    assert_eq!(report.tasks[0].classification, Classification::CacheUnavailable);
}

#[test]
fn redacts_sensitive_command_assignments() {
    assert_eq!(
        redact_command("deploy --api-token=plain REGION=iad"),
        "deploy --api-token=<redacted> REGION=iad"
    );
}

#[test]
fn orders_root_cause_before_downstream_cascade() {
    let mut ui_a = task("ui#build", "build", "ui-a");
    ui_a.inputs = files(&[("button.ts", "a")]);
    status(&mut ui_a, "HIT");
    let mut web_a = task("web#build", "build", "web-a");
    web_a.inputs = files(&[("index.ts", "same")]);
    web_a.dependencies = vec!["ui#build".to_owned()];
    status(&mut web_a, "HIT");
    let mut ui_b = task("ui#build", "build", "ui-b");
    ui_b.inputs = files(&[("button.ts", "b")]);
    status(&mut ui_b, "MISS");
    let mut web_b = task("web#build", "build", "web-b");
    web_b.inputs = files(&[("index.ts", "same")]);
    web_b.dependencies = vec!["ui#build".to_owned()];
    status(&mut web_b, "MISS");
    let report = analyze(pair(run(vec![ui_a, web_a]), run(vec![ui_b, web_b])), None);
    assert_eq!(report.tasks[0].task_id, "ui#build");
    assert_eq!(report.tasks[0].classification, Classification::RootCause);
    assert_eq!(report.tasks[1].task_id, "web#build");
    assert_eq!(report.tasks[1].classification, Classification::Cascade);
}

#[test]
fn emits_curated_hints_for_known_self_invalidation_patterns() {
    let mut before = task("web#build", "build", "a");
    before.inputs = files(&[("pnpm-lock.yaml", "lock-a")]);
    before.outputs = vec![".next/**".to_owned()];
    before.environment_variables.configured = vec!["GITHUB_SHA=sha-a".to_owned()];
    let mut after = task("web#build", "build", "b");
    after.inputs = files(&[
        ("pnpm-lock.yaml", "lock-b"),
        (".next/cache/data", "generated"),
        (".turbo/build.log", "log"),
    ]);
    after.outputs = vec![".next/**".to_owned()];
    after.log_file = Some(".turbo/build.log".to_owned());
    after.environment_variables.configured = vec!["GITHUB_SHA=sha-b".to_owned()];
    status(&mut after, "MISS");
    let report = analyze(pair(run(vec![before]), run(vec![after])), None);
    let hints = report.tasks[0].hints.join("\n");
    assert!(hints.contains("Per-run variable(s) GITHUB_SHA"));
    assert!(hints.contains("Generated output .next/cache/data"));
    assert!(hints.contains("Generated log .turbo/build.log"));
}

#[test]
fn diagnoses_global_dependency_config_and_version_changes() {
    let mut before_task = task("app#build", "build", "a");
    before_task.command = Some("old".to_owned());
    before_task.resolved_task_definition = Some("{\"cache\":true}".to_owned());
    status(&mut before_task, "HIT");
    let mut before = run(vec![before_task]);
    before.turbo_version = Some("1.9.9".to_owned());
    before.global_cache_inputs.files = files(&[("turbo.json", "a")]);
    before.global_cache_inputs.hash_of_external_dependencies = Some("deps-a".to_owned());
    let mut after_task = task("app#build", "build", "b");
    after_task.command = Some("new".to_owned());
    after_task.resolved_task_definition = Some("{\"cache\":false}".to_owned());
    status(&mut after_task, "MISS");
    let mut after = run(vec![after_task]);
    after.turbo_version = Some("2.9.15".to_owned());
    after.global_cache_inputs.files = files(&[("turbo.json", "b")]);
    after.global_cache_inputs.hash_of_external_dependencies = Some("deps-b".to_owned());
    let report = analyze(pair(before, after), None);
    let kinds: Vec<CauseKind> = report.tasks[0].causes.iter().map(|c| c.kind).collect();
    assert!(kinds.contains(&CauseKind::GlobalInput));
    assert!(kinds.contains(&CauseKind::DependencyGraph));
    assert!(kinds.contains(&CauseKind::TaskConfiguration));
    assert!(kinds.contains(&CauseKind::TurboVersion));
}

#[test]
fn new_task_without_baseline_is_reported_as_new() {
    let other = task("lib#build", "build", "x");
    let mut after = task("app#build", "build", "b");
    status(&mut after, "MISS");
    let report = analyze(pair(run(vec![other]), run(vec![after])), None);
    assert_eq!(report.tasks.len(), 1);
    assert_eq!(report.tasks[0].classification, Classification::NewTask);
    assert_eq!(report.tasks[0].causes[0].kind, CauseKind::NewTask);
    assert_eq!(report.tasks[0].causes[0].confidence, 100);
    assert_eq!(
        report.tasks[0].hints,
        vec!["Verify that the same package and task graph were selected in both runs.".to_owned()]
    );
}

#[test]
fn hits_are_left_out_without_a_filter() {
    let before = task("app#build", "build", "a");
    let mut after = task("app#build", "build", "b");
    status(&mut after, "HIT");
    let report = analyze(pair(run(vec![before]), run(vec![after])), None);
    assert!(report.tasks.is_empty());
    assert_eq!(report.schema_version, "1");
    assert_eq!(report.baseline.path, "before");
    assert_eq!(report.current.path, "after");
}

#[test]
fn unchanged_task_is_classified_unchanged() {
    let mut before = task("app#build", "build", "same");
    before.inputs = files(&[("a.ts", "a")]);
    let mut after = task("app#build", "build", "same");
    after.inputs = files(&[("a.ts", "a")]);
    status(&mut after, "HIT");
    let report = analyze(pair(run(vec![before]), run(vec![after])), Some("app#build"));
    assert_eq!(report.tasks[0].classification, Classification::Unchanged);
    assert!(report.tasks[0].causes.is_empty());
    assert_eq!(report.tasks[0].unchanged.files, 1);
}

#[test]
fn changed_input_file_counts_as_root_cause() {
    let mut before = task("app#build", "build", "a");
    before.inputs = files(&[("src/a.ts", "1"), ("src/b.ts", "2")]);
    let mut after = task("app#build", "build", "b");
    after.inputs = files(&[("src/a.ts", "1"), ("src/b.ts", "3")]);
    status(&mut after, "MISS");
    let report = analyze(pair(run(vec![before]), run(vec![after])), None);
    let t = &report.tasks[0];
    assert_eq!(t.classification, Classification::RootCause);
    assert_eq!(t.causes[0].kind, CauseKind::InputFile);
    assert_eq!(t.causes[0].evidence[0].source, "src/b.ts");
    assert_eq!(t.causes[0].evidence[0].before.as_deref(), Some("2"));
    assert_eq!(t.causes[0].evidence[0].after.as_deref(), Some("3"));
    assert_eq!(t.unchanged.files, 1);
}

#[test]
fn redaction_keeps_plain_words_and_hides_each_secret() {
    assert_eq!(
        redact_command("run PASSWORD=x  SECRET_KEY=y plain"),
        "run PASSWORD=<redacted> SECRET_KEY=<redacted> plain"
    );
    assert_eq!(redact_command("echo hello"), "echo hello");
    let once = redact_command("x --auth-header=abc y");
    assert_eq!(once, "x --auth-header=<redacted> y");
    assert_eq!(redact_command(&once), once);
}

#[test]
fn dependency_order_places_ready_tasks_first_and_cycles_last() {
    let mut a = task("a#build", "build", "1");
    a.dependencies = vec!["b#build".to_owned()];
    let b = task("b#build", "build", "2");
    let mut c = task("c#build", "build", "3");
    c.dependencies = vec!["c#build".to_owned()];
    let mut d = task("d#build", "build", "4");
    d.dependencies = vec!["b#build".to_owned(), "b#build".to_owned()];
    let tasks = vec![a, b, c, d];
    let map = task_map(&tasks);
    assert_eq!(topological_order(&tasks, &map), vec![1, 0, 2, 3]);
}

#[test]
fn report_follows_dependencies_before_ids() {
    let mut a_before = task("a#build", "build", "a1");
    a_before.inputs = files(&[("a.ts", "1")]);
    a_before.dependencies = vec!["z#build".to_owned()];
    let mut z_before = task("z#build", "build", "z1");
    z_before.inputs = files(&[("z.ts", "1")]);
    let mut a_after = task("a#build", "build", "a2");
    a_after.inputs = files(&[("a.ts", "2")]);
    a_after.dependencies = vec!["z#build".to_owned()];
    status(&mut a_after, "MISS");
    let mut z_after = task("z#build", "build", "z2");
    z_after.inputs = files(&[("z.ts", "2")]);
    status(&mut z_after, "MISS");
    let report = analyze(pair(run(vec![a_before, z_before]), run(vec![a_after, z_after])), None);
    assert_eq!(report.tasks[0].task_id, "z#build");
    assert_eq!(report.tasks[1].task_id, "a#build");
    assert_eq!(report.tasks[1].classification, Classification::RootCause);
}

#[test]
fn a_moved_package_directory_ranks_above_an_upstream_change() {
    let mut ui_a = task("ui#build", "build", "ui-a");
    ui_a.inputs = files(&[("button.ts", "a")]);
    let mut web_a = task("web#build", "build", "web-a");
    web_a.directory = Some("apps/web".to_owned());
    web_a.dependencies = vec!["ui#build".to_owned()];
    let mut ui_b = task("ui#build", "build", "ui-b");
    ui_b.inputs = files(&[("button.ts", "b")]);
    status(&mut ui_b, "MISS");
    let mut web_b = task("web#build", "build", "web-b");
    web_b.directory = Some("apps/site".to_owned());
    web_b.dependencies = vec!["ui#build".to_owned()];
    status(&mut web_b, "MISS");
    let report = analyze(pair(run(vec![ui_a, web_a]), run(vec![ui_b, web_b])), Some("web#build"));
    let causes = &report.tasks[0].causes;
    assert_eq!(causes[0].kind, CauseKind::TaskConfiguration);
    assert_eq!(causes[0].summary, "The task package directory changed");
    assert_eq!(causes[0].confidence, 91);
    assert_eq!(causes[1].kind, CauseKind::UpstreamTask);
    assert_eq!(causes[1].confidence, 90);
    assert_eq!(report.tasks[0].classification, Classification::RootCause);
}

#[test]
fn a_filter_that_matches_nothing_is_an_error() {
    let mut after = task("app#build", "build", "two");
    status(&mut after, "MISS");
    let report = analyze(pair(run(vec![]), run(vec![after])), Some("lint"));
    assert!(report.tasks.is_empty());
    match require_match(&report, Some("lint")) {
        Err(Error::TaskNotFound(t)) => assert_eq!(t, "lint"),
        other => panic!("unexpected {other:?}"),
    }
    assert!(require_match(&report, None).is_ok());
    let hit = analyze(pair(run(vec![]), run(vec![task("app#build", "build", "two")])), Some("build"));
    assert!(require_match(&hit, Some("build")).is_ok());
}

#[test]
fn redacting_a_redacted_command_changes_nothing() {
    let once = redact_command("  deploy\t--api-token=plain  REGION=iad AUTH_HEADER=x=y ");
    assert_eq!(once, "deploy --api-token=<redacted> REGION=iad AUTH_HEADER=<redacted>");
    assert_eq!(redact_command(&once), once);
}
