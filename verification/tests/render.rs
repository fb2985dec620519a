use whycache::cli::Cli;
use whycache::map::SortedMap;
use whycache::model::{
    BaselineCaptured, CacheStatus, Cause, CauseKind, Classification, Evidence, GitStat, Report,
    SummaryMetadata, TaskDiagnosis, UnchangedSummary,
};
use whycache::render::{Format, baseline_captured, render, render_human, render_markdown};

fn metadata(path: &str) -> SummaryMetadata {
    SummaryMetadata {
        path: path.to_owned(),
        id: None,
        schema_version: Some("1".to_owned()),
        turbo_version: None,
        commit_sha: None,
    }
}

fn unexplained() -> TaskDiagnosis {
    TaskDiagnosis {
        task_id: "app#build".to_owned(),
        package: "app".to_owned(),
        task: "build".to_owned(),
        cache_status: CacheStatus::Miss,
        baseline_hash: Some("aaa".to_owned()),
        current_hash: Some("bbb".to_owned()),
        classification: Classification::Unexplained,
        causes: vec![],
        unchanged: UnchangedSummary {
            files: 0,
            environment_variables: 0,
            lockfile: None,
            turbo_json: None,
            task_configuration: true,
        },
        hints: vec![],
        git_stats: SortedMap::new(),
    }
}

fn report(tasks: Vec<TaskDiagnosis>, warnings: Vec<String>) -> Report {
    Report { schema_version: "1", baseline: metadata("before"), current: metadata("after"), tasks, warnings }
}

fn cli(json: bool, md: bool) -> Cli {
    Cli { task: None, against: None, json, md, git: false, repo: None, no_color: false }
}

fn root_cause() -> TaskDiagnosis {
    let mut t = unexplained();
    t.task_id = "web#build".to_owned();
    t.classification = Classification::RootCause;
    t.baseline_hash = Some("111111111111aaaa".to_owned());
    t.current_hash = Some("222222222222bbbb".to_owned());
    t.causes = vec![Cause {
        kind: CauseKind::Environment,
        summary: "1 environment fingerprint(s) changed".to_owned(),
        confidence: 98,
        evidence: vec![Evidence {
            source: "NODE_ENV".to_owned(),
            before: Some("env-a".to_owned()),
            after: Some("env-b".to_owned()),
            detail: None,
        }],
    }];
    t.unchanged = UnchangedSummary {
        files: 2,
        environment_variables: 1,
        lockfile: Some(true),
        turbo_json: Some(false),
        task_configuration: false,
    };
    t.hints = vec!["Look here.".to_owned()];
    t
}

#[test]
fn human_output_has_no_ansi_when_disabled() {
    let r = report(vec![unexplained()], vec![]);
    assert!(!render(&r, Format::Human, false).unwrap().contains('\u{1b}'));
}

#[test]
fn human_output_is_styled_when_enabled() {
    let r = report(vec![unexplained()], vec![]);
    let text = render_human(&r, true);
    assert!(text.starts_with("\u{1b}[1;36mWhyCache\u{1b}[0m — Turborepo cache diagnosis\n\n"));
    assert!(text.contains("\u{1b}[1;35mMISS\u{1b}[0m"));
}

#[test]
fn human_output_for_an_unexplained_task() {
    let r = report(vec![unexplained()], vec!["careful".to_owned()]);
    assert_eq!(
        render_human(&r, false),
        "WhyCache — Turborepo cache diagnosis\n\n  Baseline  before\n  Current   after\n  Result    0 root cause(s), 0 cascade(s), 1 task(s)\n\napp#build  MISS  unexplained\n  Hash      aaa → bbb\n\n  UNCHANGED  0 file(s), 0 environment variable(s), task configuration\n\nWarnings\n  ! careful\n"
    );
}

#[test]
fn human_output_lists_causes_and_culprit() {
    let mut t = root_cause();
    t.git_stats.insert("NODE_ENV".to_owned(), GitStat { added_lines: 3, removed_lines: 1 });
    let text = render_human(&report(vec![t], vec![]), false);
    assert!(text.contains("  Result    1 root cause(s), 0 cascade(s), 1 task(s)\n"));
    assert!(text.contains("web#build  MISS  root cause\n  Hash      111111111111 → 222222222222\n"));
    assert!(text.contains("\n  1. 1 environment fingerprint(s) changed  98% confidence\n     • NODE_ENV  env-a → env-b\n       Git: +3 −1 lines\n"));
    assert!(text.contains("\n  💡 Likely culprit: NODE_ENV changed between runs.\n"));
    assert!(text.contains("\n  UNCHANGED  2 file(s), 1 environment variable(s), lockfile\n  Hint: Look here.\n"));
}

#[test]
fn human_output_without_tasks_says_so() {
    let text = render_human(&report(vec![], vec![]), false);
    assert!(text.ends_with("  Result    0 root cause(s), 0 cascade(s), 0 task(s)\n\nNo cache misses or matching tasks were found.\n"));
}

#[test]
fn markdown_output_ends_with_one_line_break() {
    let text = render_markdown(&report(vec![root_cause()], vec![]));
    assert!(text.starts_with("## WhyCache report\n\n| Summary | Source | Turbo | Commit |\n|---|---|---|---|\n| Baseline | `before` | — | — |\n| Current | `after` | — | — |\n"));
    assert!(text.contains("\n### `web#build`\n\n**MISS · root cause** — hash `111111111111` → `222222222222`\n\n"));
    assert!(text.contains("#### 1 environment fingerprint(s) changed · 98% confidence\n\n| Evidence | Before | After | Git |\n|---|---:|---:|---:|\n| `NODE_ENV` | `env-a` | `env-b` | — |\n\n"));
    assert!(text.contains("**Likely culprit:** NODE_ENV changed between runs.\n\n"));
    assert!(text.ends_with("**Next checks**\n\n- Look here.\n"));
    assert!(!text.ends_with("\n\n"));
}

#[test]
fn markdown_escapes_table_cells_and_notes_empty_causes() {
    let mut r = report(vec![unexplained()], vec!["w1".to_owned()]);
    r.baseline.path = "a|b".to_owned();
    r.baseline.commit_sha = Some("0123456789abcdef".to_owned());
    r.baseline.turbo_version = Some("2.0.0".to_owned());
    let text = render_markdown(&r);
    assert!(text.contains("| Baseline | `a\\|b` | 2.0.0 | 0123456789ab |\n"));
    assert!(text.contains("No input differences were detected.\n\n"));
    assert!(text.ends_with("### Warnings\n\n- w1\n"));
}

#[test]
fn json_is_left_to_the_serialiser() {
    let r = report(vec![], vec![]);
    assert!(render(&r, Format::Json, false).is_none());
    assert!(render(&r, Format::Markdown, false).unwrap().starts_with("## WhyCache report"));
}

#[test]
fn format_follows_the_command_line() {
    assert_eq!(Format::from_cli(&cli(true, false)), Format::Json);
    assert_eq!(Format::from_cli(&cli(false, true)), Format::Markdown);
    assert_eq!(Format::from_cli(&cli(false, false)), Format::Human);
}

#[test]
fn baseline_notice_in_each_format() {
    let captured = BaselineCaptured {
        schema_version: "1",
        status: "baseline_captured",
        path: ".whycache/last-summary.json".to_owned(),
        task_count: 3,
        message: "Captured.".to_owned(),
        next_command: "whycache build".to_owned(),
    };
    assert_eq!(
        baseline_captured(&captured, Format::Markdown).unwrap(),
        "## WhyCache baseline captured\n\nCaptured.\n\n- Baseline: `.whycache/last-summary.json`\n- Tasks: 3\n- Next: `whycache build`\n"
    );
    assert_eq!(
        baseline_captured(&captured, Format::Human).unwrap(),
        "WhyCache baseline captured\n\nCaptured.\n\n  Baseline  .whycache/last-summary.json\n  Tasks     3\n  Next      whycache build\n"
    );
    assert!(baseline_captured(&captured, Format::Json).is_none());
}

#[test]
fn markdown_matches_the_golden_report() {
    let mut baseline = metadata("tests/fixtures/repo/.turbo/runs/a-baseline.json");
    baseline.turbo_version = Some("2.9.15".to_owned());
    baseline.commit_sha = Some("aaaaaaaaaaaaaaaaaaaa".to_owned());
    let mut current = metadata("tests/fixtures/repo/.turbo/runs/z-current.json");
    current.turbo_version = Some("2.9.15".to_owned());
    current.commit_sha = Some("bbbbbbbbbbbbbbbbbbbb".to_owned());
    let unchanged = UnchangedSummary {
        files: 0,
        environment_variables: 1,
        lockfile: None,
        turbo_json: Some(true),
        task_configuration: true,
    };
    let cause = |kind: CauseKind, summary: &str, confidence: u8, source: &str, before: &str, after: &str| Cause {
        kind,
        summary: summary.to_owned(),
        confidence,
        evidence: vec![Evidence {
            source: source.to_owned(),
            before: Some(before.to_owned()),
            after: Some(after.to_owned()),
            detail: None,
        }],
    };
    let mut ui = unexplained();
    ui.task_id = "ui#build".to_owned();
    ui.classification = Classification::RootCause;
    ui.baseline_hash = Some("upstream-a".to_owned());
    ui.current_hash = Some("upstream-b".to_owned());
    ui.causes = vec![cause(CauseKind::InputFile, "1 task input file(s) changed", 95, "packages/ui/src/button.tsx", "button-a", "button-b")];
    ui.unchanged = unchanged;
    let mut web = unexplained();
    web.task_id = "web#build".to_owned();
    web.classification = Classification::RootCause;
    web.baseline_hash = Some("111111111111aaaa".to_owned());
    web.current_hash = Some("222222222222bbbb".to_owned());
    web.causes = vec![
        cause(CauseKind::Environment, "1 environment fingerprint(s) changed", 98, "NODE_ENV", "env-a", "env-b"),
        cause(CauseKind::InputFile, "1 task input file(s) changed", 95, "apps/web/src/index.ts", "source-a", "source-b"),
        cause(CauseKind::UpstreamTask, "1 upstream task hash(es) changed", 90, "ui#build", "upstream-a", "upstream-b"),
    ];
    web.unchanged = unchanged;
    web.hints = vec!["Keep task-affecting variables in `env` or `globalEnv`; avoid broad wildcard inputs when possible.".to_owned()];
    let r = Report { schema_version: "1", baseline, current, tasks: vec![ui, web], warnings: vec![] };
    assert_eq!(
        render_markdown(&r),
        "## WhyCache report\n\n| Summary | Source | Turbo | Commit |\n|---|---|---|---|\n| Baseline | `tests/fixtures/repo/.turbo/runs/a-baseline.json` | 2.9.15 | aaaaaaaaaaaa |\n| Current | `tests/fixtures/repo/.turbo/runs/z-current.json` | 2.9.15 | bbbbbbbbbbbb |\n\n### `ui#build`\n\n**MISS · root cause** — hash `upstream-a` → `upstream-b`\n\n#### 1 task input file(s) changed · 95% confidence\n\n| Evidence | Before | After | Git |\n|---|---:|---:|---:|\n| `packages/ui/src/button.tsx` | `button-a` | `button-b` | — |\n\n**Likely culprit:** packages/ui/src/button.tsx changed between runs.\n\n**Unchanged:** 0 file(s), 1 environment variable(s), turbo.json, task configuration\n\n\n### `web#build`\n\n**MISS · root cause** — hash `111111111111` → `222222222222`\n\n#### 1 environment fingerprint(s) changed · 98% confidence\n\n| Evidence | Before | After | Git |\n|---|---:|---:|---:|\n| `NODE_ENV` | `env-a` | `env-b` | — |\n\n#### 1 task input file(s) changed · 95% confidence\n\n| Evidence | Before | After | Git |\n|---|---:|---:|---:|\n| `apps/web/src/index.ts` | `source-a` | `source-b` | — |\n\n#### 1 upstream task hash(es) changed · 90% confidence\n\n| Evidence | Before | After | Git |\n|---|---:|---:|---:|\n| `ui#build` | `upstream-a` | `upstream-b` | — |\n\n**Likely culprit:** NODE_ENV changed between runs.\n\n**Unchanged:** 0 file(s), 1 environment variable(s), turbo.json, task configuration\n\n**Next checks**\n\n- Keep task-affecting variables in `env` or `globalEnv`; avoid broad wildcard inputs when possible.\n"
    );
}
