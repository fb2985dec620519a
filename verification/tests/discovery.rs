use whycache::discovery::{
    Discovery, LoadAction, LoadEvent, LoadResult, Loader, RootProbe, SummaryFile, TurboConfig,
    collect_schema_warning, configured_tasks, dry_run_command, dry_run_failure,
    PathStyle, is_json_file, join, local_turbo_candidates, order_summaries, relative_display, resolve, turbo_program,
};
use whycache::error::Error;
use whycache::map::SortedMap;
use whycache::model::{
    EnvironmentVariables, Execution, GlobalCacheInputs, RunSummary, SpecifiedEnvironmentVariables,
    SummarySource,
};

fn environment() -> EnvironmentVariables {
    EnvironmentVariables {
        specified: SpecifiedEnvironmentVariables { env: vec![], pass_through_env: None },
        configured: vec![],
        inferred: vec![],
        passthrough: None,
    }
}

fn summary(version: Option<&str>, exit_code: Option<i32>) -> RunSummary {
    RunSummary {
        id: None,
        version: version.map(str::to_owned),
        turbo_version: None,
        global_cache_inputs: GlobalCacheInputs {
            root_key: None,
            files: SortedMap::new(),
            hash_of_external_dependencies: None,
            hash_of_internal_dependencies: None,
            environment_variables: environment(),
            engines: SortedMap::new(),
            root_pipeline: None,
        },
        execution: Some(Execution { exit_code }),
        tasks: vec![],
        scm: None,
    }
}

fn probe(path: &str, turbo_json: bool, runs_dir: bool, package_json: Option<&str>) -> RootProbe {
    RootProbe {
        path: path.to_owned(),
        turbo_json,
        runs_dir,
        package_json: package_json.map(str::to_owned),
    }
}

#[test]
fn resolves_windows_native_turbo_without_a_shell() {
    let candidates = local_turbo_candidates("C:/repo", "windows", "x86_64", PathStyle::Unix);
    assert_eq!(candidates[0], "C:/repo/node_modules/@turbo/windows-64/bin/turbo.exe");
}

#[test]
fn lists_all_local_turbo_locations() {
    let candidates = local_turbo_candidates("/r", "macos", "aarch64", PathStyle::Unix);
    assert_eq!(
        candidates,
        vec![
            "/r/node_modules/@turbo/darwin-aarch64/bin/turbo".to_owned(),
            "/r/node_modules/turbo/node_modules/@turbo/darwin-aarch64/bin/turbo".to_owned(),
            "/r/node_modules/turbo-darwin-aarch64/bin/turbo".to_owned(),
            "/r/node_modules/turbo/node_modules/turbo-darwin-aarch64/bin/turbo".to_owned(),
        ]
    );
}

#[test]
fn warns_only_for_unknown_summary_schemas() {
    let mut source = SummarySource { path: "summary.json".to_owned(), summary: summary(Some("0"), None) };
    let mut warnings = Vec::new();
    collect_schema_warning(&source, &mut warnings);
    assert!(warnings.is_empty());

    source.summary.version = Some("99".to_owned());
    collect_schema_warning(&source, &mut warnings);
    assert_eq!(warnings.len(), 1);
    assert_eq!(warnings[0], "summary.json uses run-summary schema 99; parsed in compatibility mode.");
}

#[test]
fn discovers_current_and_legacy_task_configuration() {
    let current = TurboConfig {
        tasks: Some(Some(vec!["build".to_owned(), "test".to_owned()])),
        pipeline: None,
    };
    assert_eq!(configured_tasks("turbo.json", &current).unwrap(), ["build", "test"]);
    let legacy = TurboConfig { tasks: None, pipeline: Some(Some(vec!["lint".to_owned()])) };
    assert_eq!(configured_tasks("turbo.json", &legacy).unwrap(), ["lint"]);
}

#[test]
fn tasks_that_are_not_an_object_declare_nothing() {
    let config = TurboConfig { tasks: Some(None), pipeline: Some(Some(vec!["lint".to_owned()])) };
    let error = configured_tasks("/repo/turbo.json", &config).unwrap_err();
    assert!(matches!(&error, Error::NoConfiguredTasks(p) if p == "/repo/turbo.json"));
    assert_eq!(error.exit_code(), 2);
    assert_eq!(error.message(), "/repo/turbo.json does not declare any tasks; pass a task name explicitly");
}

#[test]
fn finds_root_from_nested_directory() {
    let probes = vec![
        probe("/tmp/x/packages/app", false, false, None),
        probe("/tmp/x/packages", false, false, Some("{\"name\":\"pkgs\"}")),
        probe("/tmp/x", true, false, None),
        probe("/tmp", false, true, None),
    ];
    let found = Discovery::new("/tmp/x/packages/app", &probes).unwrap();
    assert_eq!(found.root, "/tmp/x");
}

#[test]
fn a_package_mentioning_turbo_marks_the_root() {
    let probes = vec![probe("/a/b", false, false, Some("{\"devDependencies\":{\"turbo\":\"2\"}}"))];
    assert_eq!(Discovery::new("/a/b", &probes).unwrap().root, "/a/b");
    let none = vec![probe("/a/b", false, false, None)];
    let error = Discovery::new("/a/b", &none).unwrap_err();
    assert_eq!(error.message(), "could not find a Turborepo root from /a/b");
    assert_eq!(error.exit_code(), 2);
}

fn file(name: &str, secs: i64, nanos: u32) -> SummaryFile {
    SummaryFile { path: format!("/r/.turbo/runs/{name}"), name: name.to_owned(), modified_secs: secs, modified_nanos: nanos }
}

#[test]
fn sorts_summaries_deterministically() {
    let files = vec![
        file("b.json", 5, 0),
        file("a.json", 5, 0),
        file("c.json", 1, 9),
        file("notes.txt", 0, 0),
        file(".json", 0, 0),
    ];
    assert_eq!(
        order_summaries(files),
        vec![
            "/r/.turbo/runs/c.json".to_owned(),
            "/r/.turbo/runs/a.json".to_owned(),
            "/r/.turbo/runs/b.json".to_owned(),
        ]
    );
}

#[test]
fn files_modified_before_the_epoch_come_first() {
    let files = vec![file("now.json", 0, 0), file("old.json", -2, 500), file("older.json", -2, 100)];
    assert_eq!(
        order_summaries(files),
        vec![
            "/r/.turbo/runs/older.json".to_owned(),
            "/r/.turbo/runs/old.json".to_owned(),
            "/r/.turbo/runs/now.json".to_owned(),
        ]
    );
}

#[test]
fn the_json_filter_reads_the_file_name() {
    assert!(is_json_file("a.json"));
    assert!(!is_json_file(".json"));
    assert!(!is_json_file("a.JSON"));
    assert!(!is_json_file("notes.txt"));
    let windows = SummaryFile {
        path: "C:\\r\\.turbo\\runs\\.json".to_owned(),
        name: ".json".to_owned(),
        modified_secs: 1,
        modified_nanos: 0,
    };
    assert!(order_summaries(vec![windows]).is_empty());
}

#[test]
fn resolves_relative_paths_against_the_root() {
    assert_eq!(resolve("/repo", "runs/a.json", false, PathStyle::Unix), "/repo/runs/a.json");
    assert_eq!(resolve("/repo/", "a.json", false, PathStyle::Unix), "/repo/a.json");
    assert_eq!(resolve("/repo", "/abs/a.json", true, PathStyle::Unix), "/abs/a.json");
    assert_eq!(resolve("C:\\repo\\", "a.json", false, PathStyle::Windows), "C:\\repo\\a.json");
    assert_eq!(resolve("C:\\repo", "D:\\prev.json", true, PathStyle::Windows), "D:\\prev.json");
    assert_eq!(relative_display("/repo", "/repo/.whycache/last-summary.json", PathStyle::Unix), ".whycache/last-summary.json");
    assert_eq!(relative_display("/repo", "/other/x.json", PathStyle::Unix), "/other/x.json");
}

#[test]
fn picks_the_first_turbo_program_that_exists() {
    let candidates = vec!["/r/a".to_owned(), "/r/b".to_owned()];
    let (program, args) =
        turbo_program(Some(("/bin/t".to_owned(), false)), &candidates, &vec![false, true], "/r/l".to_owned(), true);
    assert_eq!(program, "/r/b");
    assert!(args.is_empty());
    let (program, args) = turbo_program(None, &candidates, &vec![false, false], "/r/l".to_owned(), true);
    assert_eq!(program, "node");
    assert_eq!(args, vec!["/r/l".to_owned()]);
    let (program, _) = turbo_program(Some(("/bin/t".to_owned(), true)), &candidates, &vec![true, true], "/r/l".to_owned(), true);
    assert_eq!(program, "/bin/t");
    let (program, args) = turbo_program(None, &candidates, &vec![false, false], "/r/l".to_owned(), false);
    assert_eq!(program, "turbo");
    assert!(args.is_empty());
}

#[test]
fn describes_a_failed_dry_run() {
    let command = dry_run_command("turbo");
    assert_eq!(command, "turbo run <tasks> --dry=json");
    let error = dry_run_failure(&command, Some(-3), "  boom \n");
    assert_eq!(error.message(), "`turbo run <tasks> --dry=json` exited with status -3: boom");
    assert_eq!(error.exit_code(), 1);
    let signal = dry_run_failure(&command, None, "");
    assert_eq!(signal.message(), "`turbo run <tasks> --dry=json` exited with status terminated by signal: ");
}

fn step(loader: Loader, event: LoadEvent) -> (Loader, LoadAction) {
    assert!(loader.accepts(&event));
    loader.step(event)
}

#[test]
fn history_prefers_the_newest_earlier_successful_run() {
    let runs = vec!["/r/1.json".to_owned(), "/r/2.json".to_owned(), "/r/3.json".to_owned(), "/r/4.json".to_owned()];
    let loader = Loader::new("/r".to_owned(), None, false, PathStyle::Unix, None, runs);
    let (loader, action) = step(loader, LoadEvent::Started);
    assert!(matches!(&action, LoadAction::ReadSummary(p) if p == "/r/4.json"));
    let (loader, action) = step(loader, LoadEvent::Summary(Ok(summary(Some("1"), Some(1)))));
    assert!(matches!(&action, LoadAction::ProbeSummary(p) if p == "/r/3.json"));
    let (loader, action) = step(loader, LoadEvent::Probed(Some(summary(Some("1"), Some(1)))));
    assert!(matches!(&action, LoadAction::ProbeSummary(p) if p == "/r/2.json"));
    let (loader, action) = step(loader, LoadEvent::Probed(Some(summary(Some("1"), Some(0)))));
    assert!(matches!(&action, LoadAction::ReadSummary(p) if p == "/r/2.json"));
    let (_, action) = step(loader, LoadEvent::Summary(Ok(summary(Some("7"), Some(0)))));
    match action {
        LoadAction::Finish(Ok(LoadResult::Ready(pair))) => {
            assert_eq!(pair.baseline.path, "/r/2.json");
            assert_eq!(pair.current.path, "/r/4.json");
            assert_eq!(pair.warnings, vec!["/r/2.json uses run-summary schema 7; parsed in compatibility mode.".to_owned()]);
        },
        other => panic!("unexpected {other:?}"),
    }
}

#[test]
fn history_falls_back_to_the_run_before_the_newest() {
    let runs = vec!["/r/1.json".to_owned(), "/r/2.json".to_owned(), "/r/3.json".to_owned()];
    let loader = Loader::new("/r".to_owned(), None, false, PathStyle::Unix, None, runs);
    let (loader, _) = step(loader, LoadEvent::Started);
    let (loader, _) = step(loader, LoadEvent::Summary(Ok(summary(None, None))));
    let (loader, action) = step(loader, LoadEvent::Probed(None));
    assert!(matches!(&action, LoadAction::ProbeSummary(p) if p == "/r/1.json"));
    let (_, action) = step(loader, LoadEvent::Probed(Some(summary(None, Some(2)))));
    assert!(matches!(&action, LoadAction::ReadSummary(p) if p == "/r/2.json"));
}

#[test]
fn against_the_same_file_is_refused() {
    let runs = vec!["/r/.turbo/runs/z.json".to_owned()];
    let loader = Loader::new("/r".to_owned(), Some(".turbo/runs/z.json".to_owned()), false, PathStyle::Unix, None, runs);
    let (loader, action) = step(loader, LoadEvent::Started);
    assert!(matches!(&action, LoadAction::ReadSummary(p) if p == "/r/.turbo/runs/z.json"));
    let (loader, action) = step(loader, LoadEvent::Summary(Ok(summary(None, None))));
    assert!(matches!(&action, LoadAction::ReadSummary(p) if p == "/r/.turbo/runs/z.json"));
    let (loader, action) = step(loader, LoadEvent::Summary(Ok(summary(None, None))));
    assert!(matches!(&action, LoadAction::CompareFiles(a, b) if a == b));
    let (_, action) = step(loader, LoadEvent::SameFile(true));
    match action {
        LoadAction::Finish(Err(error)) => {
            assert!(error.message().contains("same file"));
            assert_eq!(error.exit_code(), 2);
        },
        other => panic!("unexpected {other:?}"),
    }
}

#[test]
fn stdin_baseline_is_labelled() {
    let loader = Loader::new("/r".to_owned(), Some("-".to_owned()), false, PathStyle::Unix, None, vec!["/r/cur.json".to_owned()]);
    let (loader, action) = step(loader, LoadEvent::Started);
    assert!(matches!(action, LoadAction::ReadStdin));
    let (loader, _) = step(loader, LoadEvent::Summary(Ok(summary(None, None))));
    let (loader, _) = step(loader, LoadEvent::Summary(Ok(summary(None, None))));
    let (_, action) = step(loader, LoadEvent::SameFile(false));
    match action {
        LoadAction::Finish(Ok(LoadResult::Ready(pair))) => {
            assert_eq!(pair.baseline.path, "<stdin>");
            assert_eq!(pair.current.path, "/r/cur.json");
            assert!(pair.warnings.is_empty());
        },
        other => panic!("unexpected {other:?}"),
    }
}

#[test]
fn first_run_captures_a_baseline() {
    let loader = Loader::new("/r".to_owned(), None, false, PathStyle::Unix, Some("build".to_owned()), vec![]);
    let (loader, action) = step(loader, LoadEvent::Started);
    assert!(matches!(&action, LoadAction::RunDry(ts) if ts == &vec!["build".to_owned()]));
    let mut dry = summary(None, None);
    dry.tasks = vec![];
    let (loader, action) = step(loader, LoadEvent::Dry(Ok(dry)));
    assert!(matches!(action, LoadAction::CheckSavedBaseline));
    let (loader, action) = step(loader, LoadEvent::Exists(false));
    assert!(matches!(action, LoadAction::SaveBaseline));
    let (_, action) = step(loader, LoadEvent::Saved(Ok(())));
    match action {
        LoadAction::Finish(Ok(LoadResult::BaselineCaptured(c))) => {
            assert_eq!(c.status, "baseline_captured");
            assert_eq!(c.path, ".whycache/last-summary.json");
            assert_eq!(c.task_count, 0);
            assert_eq!(c.next_command, "whycache build");
        },
        other => panic!("unexpected {other:?}"),
    }
}

#[test]
fn later_run_compares_with_the_saved_baseline() {
    let loader = Loader::new("/r".to_owned(), None, false, PathStyle::Unix, None, vec![]);
    let (loader, action) = step(loader, LoadEvent::Started);
    assert!(matches!(action, LoadAction::ReadConfiguredTasks));
    let (loader, action) = step(loader, LoadEvent::Tasks(Ok(vec!["build".to_owned(), "lint".to_owned()])));
    assert!(matches!(&action, LoadAction::RunDry(ts) if ts.len() == 2));
    let (loader, _) = step(loader, LoadEvent::Dry(Ok(summary(None, None))));
    let (loader, action) = step(loader, LoadEvent::Exists(true));
    assert!(matches!(&action, LoadAction::ReadSummary(p) if p == "/r/.whycache/last-summary.json"));
    let (loader, action) = step(loader, LoadEvent::Summary(Ok(summary(None, None))));
    assert!(matches!(action, LoadAction::SaveBaseline));
    let (_, action) = step(loader, LoadEvent::Saved(Ok(())));
    match action {
        LoadAction::Finish(Ok(LoadResult::Ready(pair))) => {
            assert_eq!(pair.current.path, "<turbo --dry=json>");
            assert_eq!(pair.baseline.path, "/r/.whycache/last-summary.json");
            assert_eq!(
                pair.warnings,
                vec!["Compared a fresh `turbo --dry=json` snapshot with the latest saved baseline.".to_owned()]
            );
        },
        other => panic!("unexpected {other:?}"),
    }
}

#[test]
fn loading_starts_from_the_command_line() {
    let discovery = Discovery { root: "/r".to_owned() };
    let cli = whycache::cli::Cli {
        task: Some("lint".to_owned()),
        against: None,
        json: false,
        md: false,
        git: false,
        repo: None,
        no_color: false,
    };
    let loader = discovery.load(&cli, false, PathStyle::Unix, vec!["/r/one.json".to_owned()]);
    let (_, action) = step(loader, LoadEvent::Started);
    assert!(matches!(&action, LoadAction::RunDry(ts) if ts == &vec!["lint".to_owned()]));
}

#[test]
fn no_configured_tasks_and_no_history_is_an_error() {
    let loader = Loader::new("/r".to_owned(), None, false, PathStyle::Unix, None, vec![]);
    let (loader, _) = step(loader, LoadEvent::Started);
    let (loader, action) = step(loader, LoadEvent::Tasks(Ok(vec![])));
    match action {
        LoadAction::Finish(Err(Error::NoSummaries(p))) => assert_eq!(p, "/r/.turbo/runs"),
        other => panic!("unexpected {other:?}"),
    }
    assert!(!loader.accepts(&LoadEvent::Started));
}

#[test]
fn an_absolute_baseline_path_is_read_as_given() {
    let runs = vec!["/r/.turbo/runs/z.json".to_owned()];
    let loader = Loader::new("/r".to_owned(), Some("C:\\prev.json".to_owned()), true, PathStyle::Windows, None, runs);
    let (_, action) = step(loader, LoadEvent::Started);
    assert!(matches!(&action, LoadAction::ReadSummary(p) if p == "C:\\prev.json"));
}

#[test]
fn windows_paths_join_with_backslashes() {
    assert_eq!(join("C:\\repo", "a.json", PathStyle::Windows), "C:\\repo\\a.json");
    assert_eq!(join("C:\\", "a.json", PathStyle::Windows), "C:\\a.json");
    assert_eq!(join("C:", "a.json", PathStyle::Windows), "C:a.json");
    assert_eq!(join("C:/repo/", "a.json", PathStyle::Windows), "C:/repo/a.json");
    let candidates = local_turbo_candidates("C:\\repo", "windows", "x86_64", PathStyle::Windows);
    assert_eq!(candidates[0], "C:\\repo\\node_modules/@turbo\\windows-64\\bin\\turbo.exe");
    assert_eq!(candidates[2], "C:\\repo\\node_modules\\turbo-windows-64\\bin\\turbo.exe");
}

#[test]
fn a_backslash_is_part_of_a_name_on_unix() {
    assert_eq!(join("repo\\", "turbo.json", PathStyle::Unix), "repo\\/turbo.json");
    assert_eq!(relative_display("repo\\", "repo\\/.whycache/last-summary.json", PathStyle::Unix), ".whycache/last-summary.json");
}

#[test]
fn relative_display_strips_windows_roots() {
    assert_eq!(relative_display("C:\\", "C:\\.whycache/last-summary.json", PathStyle::Windows), ".whycache/last-summary.json");
    assert_eq!(
        relative_display("C:\\repo", "C:\\repo\\.whycache/last-summary.json", PathStyle::Windows),
        ".whycache/last-summary.json"
    );
    assert_eq!(relative_display("C:", "C:.whycache/last-summary.json", PathStyle::Windows), ".whycache/last-summary.json");
    assert_eq!(relative_display("C:\\repo", "C:\\repository\\x.json", PathStyle::Windows), "C:/repository/x.json");
}

#[test]
fn a_baseline_captured_at_a_drive_root_is_shown_relative() {
    let loader = Loader::new("C:\\".to_owned(), None, false, PathStyle::Windows, Some("build".to_owned()), vec![]);
    let (loader, _) = step(loader, LoadEvent::Started);
    let (loader, _) = step(loader, LoadEvent::Dry(Ok(summary(None, None))));
    let (loader, _) = step(loader, LoadEvent::Exists(false));
    let (_, action) = step(loader, LoadEvent::Saved(Ok(())));
    match action {
        LoadAction::Finish(Ok(LoadResult::BaselineCaptured(c))) => {
            assert_eq!(c.path, ".whycache/last-summary.json");
            assert_eq!(c.next_command, "whycache build");
        },
        other => panic!("unexpected {other:?}"),
    }
}
