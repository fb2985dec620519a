//! Human and Markdown renderings of a report.
use vstd::prelude::*;
use crate::cli::Cli;
use crate::map::{SortedMap, map_get};
use crate::model::{
    CacheStatus, Cause, CauseKind, CauseView, Classification, Evidence, EvidenceView, GitStat,
    TaskDiagnosis, TaskDiagnosisView, UnchangedSummary,
};
use crate::text::{
    byte_prefix, dec, decimal, join, join_strings, owned, prefix_of_bytes, push_str, replace_char,
    replace_char_with,
};

verus! {

/// The output formats.
#[derive(Clone, Copy, Debug, PartialEq, Eq, Structural)]
pub enum Format {
    Human,
    Json,
    Markdown,
}

impl Format {
    /// `--json` wins over `--md`; human output otherwise.
    pub fn from_cli(cli: &Cli) -> (r: Format)
        ensures
            r == (if cli.json {
                Format::Json
            } else if cli.md {
                Format::Markdown
            } else {
                Format::Human
            }),
    {
        if cli.json {
            Format::Json
        } else if cli.md {
            Format::Markdown
        } else {
            Format::Human
        }
    }
}

// ---------------------------------------------------------------------
// Small pieces
// ---------------------------------------------------------------------

/// `value` wrapped in the ANSI escape `code` when `enabled`.
pub open spec fn spec_style(value: Seq<char>, code: Seq<char>, enabled: bool) -> Seq<char> {
    if enabled {
        "\u{1b}["@ + code + "m"@ + value + "\u{1b}[0m"@
    } else {
        value
    }
}

fn style(value: &str, code: &str, enabled: bool) -> (r: String)
    ensures
        r@ == spec_style(value@, code@, enabled),
{
    if enabled {
        let mut s = owned("\u{1b}[");
        push_str(&mut s, code);
        push_str(&mut s, "m");
        push_str(&mut s, value);
        push_str(&mut s, "\u{1b}[0m");
        s
    } else {
        owned(value)
    }
}

/// The first twelve bytes of a hash when they end on a character boundary,
/// the whole value otherwise, and a dash when there is none.
pub open spec fn spec_short_hash(value: Option<Seq<char>>) -> Seq<char> {
    match value {
        None => "—"@,
        Some(s) => match byte_prefix(s, 12) {
            Some(p) => p,
            None => s,
        },
    }
}

fn short_hash(value: &Option<String>) -> (r: String)
    ensures
        r@ == spec_short_hash(value.deep_view()),
{
    match value {
        None => owned("—"),
        Some(s) => match prefix_of_bytes(s.as_str(), 12) {
            Some(p) => p,
            None => s.clone(),
        },
    }
}

/// The value, or a dash when there is none.
pub open spec fn spec_optional(value: Option<Seq<char>>) -> Seq<char> {
    match value {
        Some(s) => s,
        None => "—"@,
    }
}

fn optional(value: &Option<String>) -> (r: String)
    ensures
        r@ == spec_optional(value.deep_view()),
{
    match value {
        Some(s) => s.clone(),
        None => owned("—"),
    }
}

/// `value` with each `|` escaped for a Markdown table cell.
pub open spec fn spec_escape_table(value: Seq<char>) -> Seq<char> {
    replace_char(value, '|', "\\|"@)
}

fn escape_table(value: &str) -> (r: String)
    ensures
        r@ == spec_escape_table(value@),
{
    replace_char_with(value, '|', "\\|")
}

pub open spec fn spec_classification_label(c: Classification) -> Seq<char> {
    match c {
        Classification::RootCause => "root cause"@,
        Classification::Cascade => "cascade"@,
        Classification::CacheUnavailable => "cache unavailable"@,
        Classification::Unchanged => "unchanged"@,
        Classification::NewTask => "new task"@,
        Classification::Unexplained => "unexplained"@,
    }
}

fn classification_label(c: Classification) -> (r: &'static str)
    ensures
        r@ == spec_classification_label(c),
{
    match c {
        Classification::RootCause => "root cause",
        Classification::Cascade => "cascade",
        Classification::CacheUnavailable => "cache unavailable",
        Classification::Unchanged => "unchanged",
        Classification::NewTask => "new task",
        Classification::Unexplained => "unexplained",
    }
}

pub open spec fn spec_cache_status_label(s: CacheStatus) -> Seq<char> {
    match s {
        CacheStatus::Hit => "HIT"@,
        CacheStatus::Miss => "MISS"@,
        CacheStatus::Skipped => "SKIPPED"@,
        CacheStatus::Unknown => "UNKNOWN"@,
    }
}

fn cache_status_label(s: CacheStatus) -> (r: &'static str)
    ensures
        r@ == spec_cache_status_label(s),
{
    match s {
        CacheStatus::Hit => "HIT",
        CacheStatus::Miss => "MISS",
        CacheStatus::Skipped => "SKIPPED",
        CacheStatus::Unknown => "UNKNOWN",
    }
}

/// The parts of the "unchanged" line: two counts, then the facts that hold.
pub open spec fn unchanged_parts(u: UnchangedSummary) -> Seq<Seq<char>> {
    seq![dec(u.files as nat) + " file(s)"@, dec(u.environment_variables as nat) + " environment variable(s)"@]
        + (if u.lockfile == Some(true) { seq!["lockfile"@] } else { Seq::empty() })
        + (if u.turbo_json == Some(true) { seq!["turbo.json"@] } else { Seq::empty() })
        + (if u.task_configuration { seq!["task configuration"@] } else { Seq::empty() })
}

pub open spec fn spec_unchanged_text(u: UnchangedSummary) -> Seq<char> {
    join(unchanged_parts(u), ", "@)
}

fn count_text(n: usize, noun: &str) -> (r: String)
    ensures
        r@ == dec(n as nat) + noun@,
{
    let mut s = decimal(n as u64);
    push_str(&mut s, noun);
    s
}

#[verifier::spinoff_prover]
fn unchanged_text(u: &UnchangedSummary) -> (r: String)
    ensures
        r@ == spec_unchanged_text(*u),
{
    let mut parts: Vec<String> = Vec::new();
    parts.push(count_text(u.files, " file(s)"));
    parts.push(count_text(u.environment_variables, " environment variable(s)"));
    let ghost base = parts.deep_view();
    if u.lockfile == Some(true) {
        parts.push(owned("lockfile"));
    }
    let ghost after_lock = parts.deep_view();
    if u.turbo_json == Some(true) {
        parts.push(owned("turbo.json"));
    }
    let ghost after_turbo = parts.deep_view();
    if u.task_configuration {
        parts.push(owned("task configuration"));
    }
    proof {
        let lock: Seq<Seq<char>> = if u.lockfile == Some(true) { seq!["lockfile"@] } else { Seq::empty() };
        let turbo: Seq<Seq<char>> = if u.turbo_json == Some(true) { seq!["turbo.json"@] } else { Seq::empty() };
        let task: Seq<Seq<char>> = if u.task_configuration { seq!["task configuration"@] } else { Seq::empty() };
        assert(base =~= seq![dec(u.files as nat) + " file(s)"@, dec(u.environment_variables as nat) + " environment variable(s)"@]);
        assert(after_lock =~= base + lock);
        assert(after_turbo =~= base + lock + turbo);
        assert(parts.deep_view() =~= base + lock + turbo + task);
    }
    join_strings(&parts, ", ")
}

/// One sentence that names the likeliest culprit, from the first cause and
/// its first evidence.
pub open spec fn spec_likely_culprit(t: TaskDiagnosisView) -> Option<Seq<char>> {
    if t.causes.len() == 0 {
        None
    } else {
        let c = t.causes[0];
        let source: Option<Seq<char>> = if c.evidence.len() > 0 { Some(c.evidence[0].source) } else { None };
        Some(
            match (c.kind, source) {
                (CauseKind::Environment, Some(name)) => name + " changed between runs."@,
                (CauseKind::InputFile, Some(path)) => path + " changed between runs."@,
                (CauseKind::GlobalInput, Some(path)) => path + " changed between runs."@,
                (CauseKind::UpstreamTask, Some(task)) => task + " changed first and cascaded into this"@ + " task."@,
                (CauseKind::CacheUnavailable, _) => "The cache key is unchanged, but its artifact was unavailable."@,
                (CauseKind::TurboVersion, _) => "The Turborepo version changed."@,
                (CauseKind::NewTask, _) => "The task did not exist in the baseline run."@,
                (_, Some(s)) => c.summary + ": "@ + s + "."@,
                (_, None) => c.summary + "."@,
            },
        )
    }
}

#[verifier::spinoff_prover]
fn likely_culprit(task: &TaskDiagnosis) -> (r: Option<String>)
    ensures
        spec_likely_culprit(task@) == (match r { Some(s) => Some(s@), None => None }),
{
    if task.causes.len() == 0 {
        return None;
    }
    let cause = &task.causes[0];
    assert(task@.causes[0] == cause@);
    let source: Option<&String> = if cause.evidence.len() > 0 {
        assert(cause@.evidence[0] == cause.evidence@[0]@);
        Some(&cause.evidence[0].source)
    } else {
        None
    };
    let text = match (cause.kind, source) {
        (CauseKind::Environment, Some(name)) => {
            let mut s = name.clone();
            push_str(&mut s, " changed between runs.");
            s
        },
        (CauseKind::InputFile, Some(path)) | (CauseKind::GlobalInput, Some(path)) => {
            let mut s = path.clone();
            push_str(&mut s, " changed between runs.");
            s
        },
        (CauseKind::UpstreamTask, Some(t)) => {
            let mut s = t.clone();
            push_str(&mut s, " changed first and cascaded into this");
            push_str(&mut s, " task.");
            s
        },
        (CauseKind::CacheUnavailable, _) => owned("The cache key is unchanged, but its artifact was unavailable."),
        (CauseKind::TurboVersion, _) => owned("The Turborepo version changed."),
        (CauseKind::NewTask, _) => owned("The task did not exist in the baseline run."),
        (_, Some(src)) => {
            let mut s = cause.summary.clone();
            push_str(&mut s, ": ");
            push_str(&mut s, src.as_str());
            push_str(&mut s, ".");
            s
        },
        (_, None) => {
            let mut s = cause.summary.clone();
            push_str(&mut s, ".");
            s
        },
    };
    Some(text)
}

/// Lines made of `prefix` and each item.
pub open spec fn lines_with(prefix: Seq<char>, items: Seq<Seq<char>>) -> Seq<char>
    decreases items.len(),
{
    if items.len() == 0 {
        Seq::empty()
    } else {
        lines_with(prefix, items.drop_last()) + prefix + items.last() + "\n"@
    }
}

fn push_lines(out: &mut String, prefix: &str, items: &Vec<String>)
    ensures
        final(out)@ == old(out)@ + lines_with(prefix@, items.deep_view()),
{
    let ghost start = out@;
    let ghost all = items.deep_view();
    let mut i: usize = 0;
    assert(all.take(0) =~= Seq::<Seq<char>>::empty());
    while i < items.len()
        invariant
            i <= items.len(),
            all == items.deep_view(),
            out@ == start + lines_with(prefix@, all.take(i as int)),
        decreases items.len() - i,
    {
        push_str(out, prefix);
        push_str(out, items[i].as_str());
        push_str(out, "\n");
        proof {
            assert(all.take(i + 1).drop_last() =~= all.take(i as int));
            assert(all.take(i + 1).last() == items@[i as int]@);
            assert(out@ =~= start + lines_with(prefix@, all.take(i + 1)));
        }
        i = i + 1;
    }
    assert(all.take(i as int) =~= all);
}

/// Git's line counts for `source`, when there are any.
pub open spec fn git_stat_of(stats: Map<Seq<char>, GitStat>, source: Seq<char>) -> Option<GitStat> {
    map_get(stats, source)
}

} // verus!

verus! {

// ---------------------------------------------------------------------
// Human output
// ---------------------------------------------------------------------

/// The colour of a task's status and classification.
pub open spec fn spec_classification_color(c: Classification) -> Seq<char> {
    match c {
        Classification::Unchanged => "1;32"@,
        Classification::Cascade => "1;33"@,
        Classification::CacheUnavailable | Classification::RootCause => "1;31"@,
        Classification::NewTask | Classification::Unexplained => "1;35"@,
    }
}

fn classification_color(c: Classification) -> (r: &'static str)
    ensures
        r@ == spec_classification_color(c),
{
    match c {
        Classification::Unchanged => "1;32",
        Classification::Cascade => "1;33",
        Classification::CacheUnavailable | Classification::RootCause => "1;31",
        Classification::NewTask | Classification::Unexplained => "1;35",
    }
}

/// How an evidence's hash changed.
pub open spec fn change_text(e: EvidenceView) -> Seq<char> {
    match (e.before, e.after) {
        (Some(b), Some(a)) => spec_short_hash(Some(b)) + " → "@ + spec_short_hash(Some(a)),
        (None, Some(a)) => "added ("@ + spec_short_hash(Some(a)) + ")"@,
        (Some(b), None) => "removed ("@ + spec_short_hash(Some(b)) + ")"@,
        (None, None) => Seq::empty(),
    }
}

fn change(e: &Evidence) -> (r: String)
    ensures
        r@ == change_text(e@),
{
    match (&e.before, &e.after) {
        (Some(_), Some(_)) => {
            let mut s = short_hash(&e.before);
            push_str(&mut s, " → ");
            let a = short_hash(&e.after);
            push_str(&mut s, a.as_str());
            s
        },
        (None, Some(_)) => {
            let mut s = owned("added (");
            let a = short_hash(&e.after);
            push_str(&mut s, a.as_str());
            push_str(&mut s, ")");
            s
        },
        (Some(_), None) => {
            let mut s = owned("removed (");
            let b = short_hash(&e.before);
            push_str(&mut s, b.as_str());
            push_str(&mut s, ")");
            s
        },
        (None, None) => String::new(),
    }
}

/// The Git line of an evidence in human output.
pub open spec fn human_git_line(stats: Map<Seq<char>, GitStat>, source: Seq<char>) -> Seq<char> {
    match git_stat_of(stats, source) {
        Some(st) => "       Git: +"@ + dec(st.added_lines as nat) + " −"@ + dec(st.removed_lines as nat) + " lines\n"@,
        None => Seq::empty(),
    }
}

pub open spec fn human_evidence(evs: Seq<EvidenceView>, stats: Map<Seq<char>, GitStat>) -> Seq<char>
    decreases evs.len(),
{
    if evs.len() == 0 {
        Seq::empty()
    } else {
        let e = evs.last();
        human_evidence(evs.drop_last(), stats) + "     • "@ + e.source + "  "@ + change_text(e) + "\n"@
            + human_git_line(stats, e.source)
    }
}

pub open spec fn human_cause_head(index: nat, c: CauseView) -> Seq<char> {
    "\n  "@ + dec(index) + ". "@ + c.summary + "  "@ + dec(c.confidence as nat) + "% confidence\n"@
}

pub open spec fn human_causes(causes: Seq<CauseView>, stats: Map<Seq<char>, GitStat>) -> Seq<char>
    decreases causes.len(),
{
    if causes.len() == 0 {
        Seq::empty()
    } else {
        let c = causes.last();
        human_causes(causes.drop_last(), stats) + human_cause_head(causes.len(), c) + human_evidence(c.evidence, stats)
    }
}

#[verifier::spinoff_prover]
fn push_human_evidence(out: &mut String, evs: &Vec<Evidence>, stats: &SortedMap<GitStat>)
    ensures
        final(out)@ == old(out)@ + human_evidence(crate::model::evidence_views(evs@), stats@),
{
    let ghost start = out@;
    let ghost all = crate::model::evidence_views(evs@);
    let mut i: usize = 0;
    assert(all.take(0) =~= Seq::<EvidenceView>::empty());
    while i < evs.len()
        invariant
            i <= evs.len(),
            all == crate::model::evidence_views(evs@),
            out@ == start + human_evidence(all.take(i as int), stats@),
        decreases evs.len() - i,
    {
        let e = &evs[i];
        let ghost before = out@;
        push_str(out, "     • ");
        push_str(out, e.source.as_str());
        push_str(out, "  ");
        let ch = change(e);
        push_str(out, ch.as_str());
        push_str(out, "\n");
        let ghost mid = out@;
        match stats.get(e.source.as_str()) {
            Some(st) => {
                push_str(out, "       Git: +");
                let a = decimal(st.added_lines);
                push_str(out, a.as_str());
                push_str(out, " −");
                let b = decimal(st.removed_lines);
                push_str(out, b.as_str());
                push_str(out, " lines\n");
            },
            None => {},
        }
        proof {
            assert(all[i as int] == e@);
            assert(mid =~= before + "     • "@ + e@.source + "  "@ + change_text(e@) + "\n"@);
            assert(out@ =~= mid + human_git_line(stats@, e@.source));
            assert(all.take(i + 1).drop_last() =~= all.take(i as int));
            assert(all.take(i + 1).last() == e@);
            assert(out@ =~= start + human_evidence(all.take(i + 1), stats@));
        }
        i = i + 1;
    }
    assert(all.take(i as int) =~= all);
}

#[verifier::spinoff_prover]
fn push_human_causes(out: &mut String, causes: &Vec<Cause>, stats: &SortedMap<GitStat>)
    ensures
        final(out)@ == old(out)@ + human_causes(crate::model::cause_views(causes@), stats@),
{
    let ghost start = out@;
    let ghost all = crate::model::cause_views(causes@);
    let mut i: usize = 0;
    assert(all.take(0) =~= Seq::<CauseView>::empty());
    while i < causes.len()
        invariant
            i <= causes.len(),
            all == crate::model::cause_views(causes@),
            out@ == start + human_causes(all.take(i as int), stats@),
        decreases causes.len() - i,
    {
        let c = &causes[i];
        let ghost before = out@;
        push_str(out, "\n  ");
        let n = decimal((i + 1) as u64);
        push_str(out, n.as_str());
        push_str(out, ". ");
        push_str(out, c.summary.as_str());
        push_str(out, "  ");
        let conf = decimal(c.confidence as u64);
        push_str(out, conf.as_str());
        push_str(out, "% confidence\n");
        let ghost mid = out@;
        push_human_evidence(out, &c.evidence, stats);
        proof {
            assert(all[i as int] == c@);
            assert(mid =~= before + human_cause_head((i + 1) as nat, c@));
            assert(all.take(i + 1).drop_last() =~= all.take(i as int));
            assert(all.take(i + 1).last() == c@);
            assert(all.take(i + 1).len() == i + 1);
            assert(out@ =~= start + human_causes(all.take(i + 1), stats@));
        }
        i = i + 1;
    }
    assert(all.take(i as int) =~= all);
}

/// The title line of a task in human output.
pub open spec fn human_task_title(t: TaskDiagnosisView, colored: bool) -> Seq<char> {
    let color = spec_classification_color(t.classification);
    "\n"@ + spec_style(t.task_id, "1"@, colored) + "  "@ + spec_style(spec_cache_status_label(t.cache_status), color, colored)
        + "  "@ + spec_style(spec_classification_label(t.classification), color, colored) + "\n"@
}

/// The hash line of a task in human output.
pub open spec fn human_hash_line(t: TaskDiagnosisView) -> Seq<char> {
    "  Hash      "@ + spec_short_hash(t.baseline_hash) + " → "@ + spec_short_hash(t.current_hash) + "\n"@
}

/// The heading lines of a task in human output.
pub open spec fn human_task_head(t: TaskDiagnosisView, colored: bool) -> Seq<char> {
    human_task_title(t, colored) + human_hash_line(t)
}

/// The closing lines of a task in human output.
pub open spec fn human_task_tail(t: TaskDiagnosisView) -> Seq<char> {
    (match spec_likely_culprit(t) {
        Some(c) => "\n  💡 Likely culprit: "@ + c + "\n"@,
        None => Seq::empty(),
    }) + "\n  UNCHANGED  "@ + spec_unchanged_text(t.unchanged) + "\n"@ + lines_with("  Hint: "@, t.hints)
}

/// A task in human output.
pub open spec fn spec_human_task(t: TaskDiagnosisView, colored: bool) -> Seq<char> {
    human_task_head(t, colored) + human_causes(t.causes, t.git_stats) + human_task_tail(t)
}

#[verifier::spinoff_prover]
fn push_human_title(out: &mut String, task: &TaskDiagnosis, colored: bool)
    ensures
        final(out)@ == old(out)@ + human_task_title(task@, colored),
{
    let color = classification_color(task.classification);
    let id = style(task.task_id.as_str(), "1", colored);
    let status = style(cache_status_label(task.cache_status), color, colored);
    let class = style(classification_label(task.classification), color, colored);
    let ghost start = out@;
    push_str(out, "\n");
    push_str(out, id.as_str());
    push_str(out, "  ");
    push_str(out, status.as_str());
    push_str(out, "  ");
    push_str(out, class.as_str());
    push_str(out, "\n");
    assert(out@ =~= start + human_task_title(task@, colored));
}

#[verifier::spinoff_prover]
fn push_human_head(out: &mut String, task: &TaskDiagnosis, colored: bool)
    ensures
        final(out)@ == old(out)@ + human_task_head(task@, colored),
{
    let ghost start = out@;
    push_human_title(out, task, colored);
    let ghost mid = out@;
    let before = short_hash(&task.baseline_hash);
    let after = short_hash(&task.current_hash);
    push_str(out, "  Hash      ");
    push_str(out, before.as_str());
    push_str(out, " → ");
    push_str(out, after.as_str());
    push_str(out, "\n");
    assert(out@ =~= mid + human_hash_line(task@));
    assert(out@ =~= start + human_task_head(task@, colored));
}

#[verifier::spinoff_prover]
fn push_human_tail(out: &mut String, task: &TaskDiagnosis)
    ensures
        final(out)@ == old(out)@ + human_task_tail(task@),
{
    let ghost start = out@;
    match likely_culprit(task) {
        Some(c) => {
            push_str(out, "\n  💡 Likely culprit: ");
            push_str(out, c.as_str());
            push_str(out, "\n");
        },
        None => {},
    }
    let ghost mid = out@;
    push_str(out, "\n  UNCHANGED  ");
    let u = unchanged_text(&task.unchanged);
    push_str(out, u.as_str());
    push_str(out, "\n");
    let ghost mid2 = out@;
    push_lines(out, "  Hint: ", &task.hints);
    proof {
        let culprit = match spec_likely_culprit(task@) {
            Some(c) => "\n  💡 Likely culprit: "@ + c + "\n"@,
            None => Seq::empty(),
        };
        assert(mid =~= start + culprit);
        assert(mid2 =~= mid + "\n  UNCHANGED  "@ + spec_unchanged_text(task.unchanged) + "\n"@);
        assert(out@ =~= start + human_task_tail(task@));
    }
}

fn render_human_task(output: &mut String, task: &TaskDiagnosis, colored: bool)
    ensures
        final(output)@ == old(output)@ + spec_human_task(task@, colored),
{
    let ghost start = output@;
    push_human_head(output, task, colored);
    let ghost a = output@;
    push_human_causes(output, &task.causes, &task.git_stats);
    let ghost b = output@;
    push_human_tail(output, task);
    assert(output@ =~= start + spec_human_task(task@, colored));
}

} // verus!

verus! {

/// Tasks with findings of their own.
pub open spec fn is_root(c: Classification) -> bool {
    c == Classification::RootCause || c == Classification::CacheUnavailable || c == Classification::NewTask
}

pub open spec fn count_roots(tasks: Seq<TaskDiagnosisView>) -> nat
    decreases tasks.len(),
{
    if tasks.len() == 0 {
        0
    } else {
        count_roots(tasks.drop_last()) + (if is_root(tasks.last().classification) { 1nat } else { 0nat })
    }
}

pub open spec fn count_cascades(tasks: Seq<TaskDiagnosisView>) -> nat
    decreases tasks.len(),
{
    if tasks.len() == 0 {
        0
    } else {
        count_cascades(tasks.drop_last()) + (if tasks.last().classification == Classification::Cascade { 1nat } else { 0nat })
    }
}

pub open spec fn human_tasks(tasks: Seq<TaskDiagnosisView>, colored: bool) -> Seq<char>
    decreases tasks.len(),
{
    if tasks.len() == 0 {
        Seq::empty()
    } else {
        human_tasks(tasks.drop_last(), colored) + spec_human_task(tasks.last(), colored)
    }
}

/// The title and the two summaries compared.
pub open spec fn human_intro(r: crate::model::ReportView, colored: bool) -> Seq<char> {
    spec_style("WhyCache"@, "1;36"@, colored) + " — Turborepo cache diagnosis\n\n"@
        + "  Baseline  "@ + r.baseline.path + "\n"@
        + "  Current   "@ + r.current.path + "\n"@
        + (match (r.baseline.turbo_version, r.current.turbo_version) {
            (Some(b), Some(a)) => "  Turbo     "@ + b + " → "@ + a + "\n"@,
            _ => Seq::empty(),
        })
}

/// The counts of findings.
pub open spec fn human_result(tasks: Seq<TaskDiagnosisView>) -> Seq<char> {
    "  Result    "@ + dec(count_roots(tasks)) + " root cause(s), "@ + dec(count_cascades(tasks))
        + " cascade(s), "@ + dec(tasks.len()) + " task(s)\n"@
        + (if tasks.len() == 0 { "\nNo cache misses or matching tasks were found.\n"@ } else { Seq::empty() })
}

/// The summary lines at the top of human output.
pub open spec fn human_header(r: crate::model::ReportView, colored: bool) -> Seq<char> {
    human_intro(r, colored) + human_result(r.tasks)
}

/// The warnings section of human output.
pub open spec fn human_warnings(warnings: Seq<Seq<char>>, colored: bool) -> Seq<char> {
    if warnings.len() > 0 {
        "\n"@ + spec_style("Warnings"@, "1;33"@, colored) + "\n"@ + lines_with("  ! "@, warnings)
    } else {
        Seq::empty()
    }
}

/// The report as text for a terminal.
pub open spec fn spec_render_human(r: crate::model::ReportView, colored: bool) -> Seq<char> {
    human_header(r, colored) + human_tasks(r.tasks, colored) + human_warnings(r.warnings, colored)
}

fn count_classes(tasks: &Vec<TaskDiagnosis>) -> (r: (usize, usize))
    ensures
        r.0 == count_roots(crate::model::diagnosis_views(tasks@)),
        r.1 == count_cascades(crate::model::diagnosis_views(tasks@)),
{
    let ghost all = crate::model::diagnosis_views(tasks@);
    let mut roots: usize = 0;
    let mut cascades: usize = 0;
    let mut i: usize = 0;
    assert(all.take(0) =~= Seq::<TaskDiagnosisView>::empty());
    while i < tasks.len()
        invariant
            i <= tasks.len(),
            all == crate::model::diagnosis_views(tasks@),
            roots == count_roots(all.take(i as int)),
            cascades == count_cascades(all.take(i as int)),
            roots <= i,
            cascades <= i,
        decreases tasks.len() - i,
    {
        let c = tasks[i].classification;
        proof {
            assert(all.take(i + 1).drop_last() =~= all.take(i as int));
            assert(all.take(i + 1).last() == tasks@[i as int]@);
        }
        match c {
            Classification::RootCause | Classification::CacheUnavailable | Classification::NewTask => {
                roots = roots + 1;
            },
            Classification::Cascade => {
                cascades = cascades + 1;
            },
            _ => {},
        }
        i = i + 1;
    }
    assert(all.take(i as int) =~= all);
    (roots, cascades)
}

#[verifier::spinoff_prover]
fn push_human_intro(out: &mut String, report: &crate::model::Report, colored: bool)
    ensures
        final(out)@ == old(out)@ + human_intro(report@, colored),
{
    let ghost start = out@;
    let title = style("WhyCache", "1;36", colored);
    push_str(out, title.as_str());
    push_str(out, " — Turborepo cache diagnosis\n\n");
    push_str(out, "  Baseline  ");
    push_str(out, report.baseline.path.as_str());
    push_str(out, "\n");
    push_str(out, "  Current   ");
    push_str(out, report.current.path.as_str());
    push_str(out, "\n");
    let ghost a = out@;
    match (&report.baseline.turbo_version, &report.current.turbo_version) {
        (Some(b), Some(c)) => {
            push_str(out, "  Turbo     ");
            push_str(out, b.as_str());
            push_str(out, " → ");
            push_str(out, c.as_str());
            push_str(out, "\n");
        },
        _ => {},
    }
    proof {
        let rv = report@;
        let turbo = match (rv.baseline.turbo_version, rv.current.turbo_version) {
            (Some(x), Some(y)) => "  Turbo     "@ + x + " → "@ + y + "\n"@,
            _ => Seq::<char>::empty(),
        };
        assert(a =~= start + spec_style("WhyCache"@, "1;36"@, colored) + " — Turborepo cache diagnosis\n\n"@
            + "  Baseline  "@ + rv.baseline.path + "\n"@ + "  Current   "@ + rv.current.path + "\n"@);
        assert(out@ =~= a + turbo);
        assert(out@ =~= start + human_intro(rv, colored));
    }
}

#[verifier::spinoff_prover]
fn push_human_result(out: &mut String, tasks: &Vec<TaskDiagnosis>)
    ensures
        final(out)@ == old(out)@ + human_result(crate::model::diagnosis_views(tasks@)),
{
    let ghost start = out@;
    let (roots, cascades) = count_classes(tasks);
    push_str(out, "  Result    ");
    let r = decimal(roots as u64);
    push_str(out, r.as_str());
    push_str(out, " root cause(s), ");
    let c = decimal(cascades as u64);
    push_str(out, c.as_str());
    push_str(out, " cascade(s), ");
    let n = decimal(tasks.len() as u64);
    push_str(out, n.as_str());
    push_str(out, " task(s)\n");
    let ghost d = out@;
    if tasks.len() == 0 {
        push_str(out, "\nNo cache misses or matching tasks were found.\n");
    }
    proof {
        let tv = crate::model::diagnosis_views(tasks@);
        assert(tv.len() == tasks.len());
        assert(d =~= start + "  Result    "@ + dec(count_roots(tv)) + " root cause(s), "@ + dec(count_cascades(tv))
            + " cascade(s), "@ + dec(tv.len()) + " task(s)\n"@);
        assert(out@ =~= start + human_result(tv));
    }
}

fn push_human_tasks(output: &mut String, tasks: &Vec<TaskDiagnosis>, colored: bool)
    ensures
        final(output)@ == old(output)@ + human_tasks(crate::model::diagnosis_views(tasks@), colored),
{
    let ghost head = output@;
    let ghost all = crate::model::diagnosis_views(tasks@);
    let mut i: usize = 0;
    assert(all.take(0) =~= Seq::<TaskDiagnosisView>::empty());
    while i < tasks.len()
        invariant
            i <= tasks.len(),
            all == crate::model::diagnosis_views(tasks@),
            output@ == head + human_tasks(all.take(i as int), colored),
        decreases tasks.len() - i,
    {
        render_human_task(output, &tasks[i], colored);
        proof {
            assert(all.take(i + 1).drop_last() =~= all.take(i as int));
            assert(all.take(i + 1).last() == tasks@[i as int]@);
            assert(output@ =~= head + human_tasks(all.take(i + 1), colored));
        }
        i = i + 1;
    }
    assert(all.take(i as int) =~= all);
}

fn push_human_warnings(output: &mut String, warnings: &Vec<String>, colored: bool)
    ensures
        final(output)@ == old(output)@ + human_warnings(warnings.deep_view(), colored),
{
    let ghost start = output@;
    if warnings.len() > 0 {
        push_str(output, "\n");
        let w = style("Warnings", "1;33", colored);
        push_str(output, w.as_str());
        push_str(output, "\n");
        push_lines(output, "  ! ", warnings);
        assert(output@ =~= start + human_warnings(warnings.deep_view(), colored));
    } else {
        assert(output@ =~= start + human_warnings(warnings.deep_view(), colored));
    }
}

/// The report as text for a terminal, styled with ANSI escapes when
/// `colored`.
#[verifier::spinoff_prover]
pub fn render_human(report: &crate::model::Report, colored: bool) -> (r: String)
    ensures
        r@ == spec_render_human(report@, colored),
{
    let mut output = String::new();
    push_human_intro(&mut output, report, colored);
    push_human_result(&mut output, &report.tasks);
    let ghost head = output@;
    push_human_tasks(&mut output, &report.tasks, colored);
    let ghost body = output@;
    push_human_warnings(&mut output, &report.warnings, colored);
    proof {
        assert(head =~= human_header(report@, colored));
        assert(output@ =~= head + human_tasks(report@.tasks, colored) + human_warnings(report@.warnings, colored));
    }
    output
}

} // verus!

verus! {

// ---------------------------------------------------------------------
// Markdown output
// ---------------------------------------------------------------------

/// The Git cell of an evidence row.
pub open spec fn markdown_git_cell(stats: Map<Seq<char>, GitStat>, source: Seq<char>) -> Seq<char> {
    match git_stat_of(stats, source) {
        Some(st) => "+"@ + dec(st.added_lines as nat) + " / −"@ + dec(st.removed_lines as nat),
        None => "—"@,
    }
}

pub open spec fn markdown_evidence_row(e: EvidenceView, stats: Map<Seq<char>, GitStat>) -> Seq<char> {
    "| `"@ + spec_escape_table(e.source) + "` | `"@ + spec_short_hash(e.before) + "` | `"@ + spec_short_hash(e.after)
        + "` | "@ + markdown_git_cell(stats, e.source) + " |\n"@
}

pub open spec fn markdown_evidence(evs: Seq<EvidenceView>, stats: Map<Seq<char>, GitStat>) -> Seq<char>
    decreases evs.len(),
{
    if evs.len() == 0 {
        Seq::empty()
    } else {
        markdown_evidence(evs.drop_last(), stats) + markdown_evidence_row(evs.last(), stats)
    }
}

/// A cause as a Markdown heading and evidence table.
pub open spec fn spec_markdown_cause(c: CauseView, stats: Map<Seq<char>, GitStat>) -> Seq<char> {
    "#### "@ + c.summary + " · "@ + dec(c.confidence as nat) + "% confidence\n\n"@
        + "| Evidence | Before | After | Git |\n"@ + "|---|---:|---:|---:|\n"@
        + markdown_evidence(c.evidence, stats) + "\n"@
}

pub open spec fn markdown_causes(causes: Seq<CauseView>, stats: Map<Seq<char>, GitStat>) -> Seq<char>
    decreases causes.len(),
{
    if causes.len() == 0 {
        Seq::empty()
    } else {
        markdown_causes(causes.drop_last(), stats) + spec_markdown_cause(causes.last(), stats)
    }
}

#[verifier::spinoff_prover]
fn push_markdown_row(out: &mut String, e: &Evidence, stats: &SortedMap<GitStat>)
    ensures
        final(out)@ == old(out)@ + markdown_evidence_row(e@, stats@),
{
    let ghost start = out@;
    let source = escape_table(e.source.as_str());
    let before = short_hash(&e.before);
    let after = short_hash(&e.after);
    let git = match stats.get(e.source.as_str()) {
        Some(st) => {
            let mut g = owned("+");
            let a = decimal(st.added_lines);
            push_str(&mut g, a.as_str());
            push_str(&mut g, " / −");
            let b = decimal(st.removed_lines);
            push_str(&mut g, b.as_str());
            g
        },
        None => owned("—"),
    };
    push_str(out, "| `");
    push_str(out, source.as_str());
    push_str(out, "` | `");
    push_str(out, before.as_str());
    push_str(out, "` | `");
    push_str(out, after.as_str());
    push_str(out, "` | ");
    push_str(out, git.as_str());
    push_str(out, " |\n");
    assert(out@ =~= start + markdown_evidence_row(e@, stats@));
}

#[verifier::spinoff_prover]
fn render_markdown_cause(output: &mut String, cause: &Cause, task: &TaskDiagnosis)
    ensures
        final(output)@ == old(output)@ + spec_markdown_cause(cause@, task@.git_stats),
{
    let ghost start = output@;
    push_str(output, "#### ");
    push_str(output, cause.summary.as_str());
    push_str(output, " · ");
    let conf = decimal(cause.confidence as u64);
    push_str(output, conf.as_str());
    push_str(output, "% confidence\n\n");
    push_str(output, "| Evidence | Before | After | Git |\n");
    push_str(output, "|---|---:|---:|---:|\n");
    let ghost head = output@;
    let ghost all = crate::model::evidence_views(cause.evidence@);
    let mut i: usize = 0;
    assert(all.take(0) =~= Seq::<EvidenceView>::empty());
    while i < cause.evidence.len()
        invariant
            i <= cause.evidence.len(),
            all == crate::model::evidence_views(cause.evidence@),
            output@ == head + markdown_evidence(all.take(i as int), task@.git_stats),
        decreases cause.evidence.len() - i,
    {
        push_markdown_row(output, &cause.evidence[i], &task.git_stats);
        proof {
            assert(all.take(i + 1).drop_last() =~= all.take(i as int));
            assert(all.take(i + 1).last() == cause.evidence@[i as int]@);
            assert(output@ =~= head + markdown_evidence(all.take(i + 1), task@.git_stats));
        }
        i = i + 1;
    }
    assert(all.take(i as int) =~= all);
    push_str(output, "\n");
    assert(output@ =~= start + spec_markdown_cause(cause@, task@.git_stats));
}

/// The status line of a task in Markdown.
pub open spec fn markdown_status_line(t: TaskDiagnosisView) -> Seq<char> {
    "**"@ + spec_cache_status_label(t.cache_status) + " · "@ + spec_classification_label(t.classification)
        + "** — hash `"@ + spec_short_hash(t.baseline_hash) + "` → `"@ + spec_short_hash(t.current_hash) + "`\n\n"@
}

/// The heading of a task in Markdown.
pub open spec fn markdown_task_head(t: TaskDiagnosisView) -> Seq<char> {
    "\n### `"@ + t.task_id + "`\n\n"@ + markdown_status_line(t)
        + (if t.causes.len() == 0 { "No input differences were detected.\n\n"@ } else { Seq::empty() })
}

/// The closing paragraphs of a task in Markdown.
pub open spec fn markdown_task_tail(t: TaskDiagnosisView) -> Seq<char> {
    (match spec_likely_culprit(t) {
        Some(c) => "**Likely culprit:** "@ + c + "\n\n"@,
        None => Seq::empty(),
    }) + "**Unchanged:** "@ + spec_unchanged_text(t.unchanged) + "\n\n"@
        + (if t.hints.len() > 0 { "**Next checks**\n\n"@ + lines_with("- "@, t.hints) + "\n"@ } else { Seq::empty() })
}

pub open spec fn spec_markdown_task(t: TaskDiagnosisView) -> Seq<char> {
    markdown_task_head(t) + markdown_causes(t.causes, t.git_stats) + markdown_task_tail(t)
}

pub open spec fn markdown_tasks(tasks: Seq<TaskDiagnosisView>) -> Seq<char>
    decreases tasks.len(),
{
    if tasks.len() == 0 {
        Seq::empty()
    } else {
        markdown_tasks(tasks.drop_last()) + spec_markdown_task(tasks.last())
    }
}

#[verifier::spinoff_prover]
fn push_markdown_status(out: &mut String, task: &TaskDiagnosis)
    ensures
        final(out)@ == old(out)@ + markdown_status_line(task@),
{
    let ghost start = out@;
    let before = short_hash(&task.baseline_hash);
    let after = short_hash(&task.current_hash);
    push_str(out, "**");
    push_str(out, cache_status_label(task.cache_status));
    push_str(out, " · ");
    push_str(out, classification_label(task.classification));
    push_str(out, "** — hash `");
    push_str(out, before.as_str());
    push_str(out, "` → `");
    push_str(out, after.as_str());
    push_str(out, "`\n\n");
    assert(out@ =~= start + markdown_status_line(task@));
}

#[verifier::spinoff_prover]
fn push_markdown_head(out: &mut String, task: &TaskDiagnosis)
    ensures
        final(out)@ == old(out)@ + markdown_task_head(task@),
{
    let ghost start = out@;
    push_str(out, "\n### `");
    push_str(out, task.task_id.as_str());
    push_str(out, "`\n\n");
    push_markdown_status(out, task);
    let ghost a = out@;
    if task.causes.len() == 0 {
        push_str(out, "No input differences were detected.\n\n");
    }
    proof {
        let t = task@;
        assert(t.causes.len() == task.causes.len());
        assert(a =~= start + "\n### `"@ + t.task_id + "`\n\n"@ + markdown_status_line(t));
        assert(out@ =~= start + markdown_task_head(t));
    }
}

#[verifier::spinoff_prover]
fn push_markdown_tail(out: &mut String, task: &TaskDiagnosis)
    ensures
        final(out)@ == old(out)@ + markdown_task_tail(task@),
{
    let ghost start = out@;
    match likely_culprit(task) {
        Some(c) => {
            push_str(out, "**Likely culprit:** ");
            push_str(out, c.as_str());
            push_str(out, "\n\n");
        },
        None => {},
    }
    let ghost a = out@;
    push_str(out, "**Unchanged:** ");
    let u = unchanged_text(&task.unchanged);
    push_str(out, u.as_str());
    push_str(out, "\n\n");
    let ghost b = out@;
    if task.hints.len() > 0 {
        push_str(out, "**Next checks**\n\n");
        push_lines(out, "- ", &task.hints);
        push_str(out, "\n");
    }
    proof {
        let t = task@;
        assert(t.hints.len() == task.hints.len());
        let culprit = match spec_likely_culprit(t) {
            Some(c) => "**Likely culprit:** "@ + c + "\n\n"@,
            None => Seq::empty(),
        };
        assert(a =~= start + culprit);
        assert(b =~= a + "**Unchanged:** "@ + spec_unchanged_text(t.unchanged) + "\n\n"@);
        assert(out@ =~= start + markdown_task_tail(t));
    }
}

fn push_markdown_task(output: &mut String, task: &TaskDiagnosis)
    ensures
        final(output)@ == old(output)@ + spec_markdown_task(task@),
{
    let ghost start = output@;
    push_markdown_head(output, task);
    let ghost head = output@;
    let ghost all = crate::model::cause_views(task.causes@);
    let mut i: usize = 0;
    assert(all.take(0) =~= Seq::<CauseView>::empty());
    while i < task.causes.len()
        invariant
            i <= task.causes.len(),
            all == crate::model::cause_views(task.causes@),
            all == task@.causes,
            output@ == head + markdown_causes(all.take(i as int), task@.git_stats),
        decreases task.causes.len() - i,
    {
        render_markdown_cause(output, &task.causes[i], task);
        proof {
            assert(all.take(i + 1).drop_last() =~= all.take(i as int));
            assert(all.take(i + 1).last() == task.causes@[i as int]@);
            assert(output@ =~= head + markdown_causes(all.take(i + 1), task@.git_stats));
        }
        i = i + 1;
    }
    assert(all.take(i as int) =~= all);
    push_markdown_tail(output, task);
    assert(output@ =~= start + spec_markdown_task(task@));
}

/// The table row of one summary.
pub open spec fn summary_row(label: Seq<char>, m: crate::model::SummaryMetadataView) -> Seq<char> {
    "| "@ + label + " | `"@ + spec_escape_table(m.path) + "` | "@ + spec_optional(m.turbo_version) + " | "@
        + spec_short_hash(m.commit_sha) + " |\n"@
}

/// The two summaries compared, as a table.
pub open spec fn markdown_header(r: crate::model::ReportView) -> Seq<char> {
    "## WhyCache report\n\n"@ + "| Summary | Source | Turbo | Commit |\n"@ + "|---|---|---|---|\n"@
        + summary_row("Baseline"@, r.baseline) + summary_row("Current"@, r.current)
}

/// Everything of the Markdown report before its line ends are normalised.
pub open spec fn markdown_body(r: crate::model::ReportView) -> Seq<char> {
    markdown_header(r) + markdown_tasks(r.tasks) + (if r.warnings.len() > 0 {
        "### Warnings\n\n"@ + lines_with("- "@, r.warnings)
    } else {
        Seq::empty()
    })
}

/// The report as GitHub-flavored Markdown, ending in exactly one line break.
pub open spec fn spec_render_markdown(r: crate::model::ReportView) -> Seq<char> {
    crate::text::trim_end_char(markdown_body(r), '\n') + "\n"@
}

#[verifier::spinoff_prover]
fn push_summary_row(out: &mut String, label: &str, m: &crate::model::SummaryMetadata)
    ensures
        final(out)@ == old(out)@ + summary_row(label@, m@),
{
    let ghost start = out@;
    let path = escape_table(m.path.as_str());
    let turbo = optional(&m.turbo_version);
    let commit = short_hash(&m.commit_sha);
    push_str(out, "| ");
    push_str(out, label);
    push_str(out, " | `");
    push_str(out, path.as_str());
    push_str(out, "` | ");
    push_str(out, turbo.as_str());
    push_str(out, " | ");
    push_str(out, commit.as_str());
    push_str(out, " |\n");
    assert(out@ =~= start + summary_row(label@, m@));
}

/// The report as GitHub-flavored Markdown.
#[verifier::spinoff_prover]
pub fn render_markdown(report: &crate::model::Report) -> (r: String)
    ensures
        r@ == spec_render_markdown(report@),
{
    let mut output = String::new();
    push_str(&mut output, "## WhyCache report\n\n");
    push_str(&mut output, "| Summary | Source | Turbo | Commit |\n");
    push_str(&mut output, "|---|---|---|---|\n");
    push_summary_row(&mut output, "Baseline", &report.baseline);
    push_summary_row(&mut output, "Current", &report.current);
    assert(output@ =~= markdown_header(report@));
    let ghost head = output@;
    let ghost all = crate::model::diagnosis_views(report.tasks@);
    let mut i: usize = 0;
    assert(all.take(0) =~= Seq::<TaskDiagnosisView>::empty());
    while i < report.tasks.len()
        invariant
            i <= report.tasks.len(),
            all == crate::model::diagnosis_views(report.tasks@),
            output@ == head + markdown_tasks(all.take(i as int)),
        decreases report.tasks.len() - i,
    {
        push_markdown_task(&mut output, &report.tasks[i]);
        proof {
            assert(all.take(i + 1).drop_last() =~= all.take(i as int));
            assert(all.take(i + 1).last() == report.tasks@[i as int]@);
            assert(output@ =~= head + markdown_tasks(all.take(i + 1)));
        }
        i = i + 1;
    }
    assert(all.take(i as int) =~= all);
    if report.warnings.len() > 0 {
        push_str(&mut output, "### Warnings\n\n");
        push_lines(&mut output, "- ", &report.warnings);
    }
    assert(output@ =~= markdown_body(report@));
    let mut trimmed = crate::text::trim_end_matches_char(output.as_str(), '\n');
    push_str(&mut trimmed, "\n");
    trimmed
}

} // verus!

verus! {

// ---------------------------------------------------------------------
// Entry points
// ---------------------------------------------------------------------

/// The text of `report` in `format`; `None` for JSON, which is a
/// serialisation of the report itself and is made by the caller.
pub fn render(report: &crate::model::Report, format: Format, colored: bool) -> (r: Option<String>)
    ensures
        match format {
            Format::Human => r is Some && r->0@ == spec_render_human(report@, colored),
            Format::Markdown => r is Some && r->0@ == spec_render_markdown(report@),
            Format::Json => r is None,
        },
{
    match format {
        Format::Human => Some(render_human(report, colored)),
        Format::Markdown => Some(render_markdown(report)),
        Format::Json => None,
    }
}

/// The notice that a baseline was recorded, in Markdown.
pub open spec fn captured_markdown(c: &crate::model::BaselineCaptured) -> Seq<char> {
    "## WhyCache baseline captured\n\n"@ + c.message@ + "\n\n- Baseline: `"@ + c.path@ + "`\n- Tasks: "@
        + dec(c.task_count as nat) + "\n- Next: `"@ + c.next_command@ + "`\n"@
}

/// The notice that a baseline was recorded, for a terminal.
pub open spec fn captured_human(c: &crate::model::BaselineCaptured) -> Seq<char> {
    "WhyCache baseline captured\n\n"@ + c.message@ + "\n\n  Baseline  "@ + c.path@ + "\n  Tasks     "@
        + dec(c.task_count as nat) + "\n  Next      "@ + c.next_command@ + "\n"@
}

/// The notice that a baseline was recorded, in `format`; `None` for JSON,
/// which the caller serialises.
pub fn baseline_captured(captured: &crate::model::BaselineCaptured, format: Format) -> (r: Option<String>)
    ensures
        match format {
            Format::Human => r is Some && r->0@ == captured_human(captured),
            Format::Markdown => r is Some && r->0@ == captured_markdown(captured),
            Format::Json => r is None,
        },
{
    let count = decimal(captured.task_count as u64);
    match format {
        Format::Json => None,
        Format::Markdown => {
            let mut s = owned("## WhyCache baseline captured\n\n");
            push_str(&mut s, captured.message.as_str());
            push_str(&mut s, "\n\n- Baseline: `");
            push_str(&mut s, captured.path.as_str());
            push_str(&mut s, "`\n- Tasks: ");
            push_str(&mut s, count.as_str());
            push_str(&mut s, "\n- Next: `");
            push_str(&mut s, captured.next_command.as_str());
            push_str(&mut s, "`\n");
            assert(s@ =~= captured_markdown(captured));
            Some(s)
        },
        Format::Human => {
            let mut s = owned("WhyCache baseline captured\n\n");
            push_str(&mut s, captured.message.as_str());
            push_str(&mut s, "\n\n  Baseline  ");
            push_str(&mut s, captured.path.as_str());
            push_str(&mut s, "\n  Tasks     ");
            push_str(&mut s, count.as_str());
            push_str(&mut s, "\n  Next      ");
            push_str(&mut s, captured.next_command.as_str());
            push_str(&mut s, "\n");
            assert(s@ =~= captured_human(captured));
            Some(s)
        },
    }
}

} // verus!

verus! {

proof fn lemma_trim_end(s: Seq<char>, c: char)
    ensures
        crate::text::trim_end_char(s, c).len() == 0 || crate::text::trim_end_char(s, c).last() != c,
    decreases s.len(),
{
    if s.len() > 0 && s.last() == c {
        lemma_trim_end(s.drop_last(), c);
    }
}

/// Markdown output ends in exactly one line break.
pub proof fn law_markdown_single_newline(r: crate::model::ReportView)
    ensures
        spec_render_markdown(r).len() > 0,
        spec_render_markdown(r).last() == '\n',
        spec_render_markdown(r).len() == 1 || spec_render_markdown(r)[spec_render_markdown(r).len() - 2] != '\n',
{
    let body = crate::text::trim_end_char(markdown_body(r), '\n');
    lemma_trim_end(markdown_body(r), '\n');
    reveal_strlit("\n");
    let out = body + "\n"@;
    assert(out.len() == body.len() + 1);
    if body.len() > 0 {
        assert(out[out.len() - 2] == body.last());
    }
}

} // verus!

verus! {

// ---------------------------------------------------------------------
// Output without colour carries no escape
// ---------------------------------------------------------------------

/// Text without the escape character that starts an ANSI style.
pub open spec fn clean(s: Seq<char>) -> bool {
    !s.contains('\u{1b}')
}

pub open spec fn clean_opt(s: Option<Seq<char>>) -> bool {
    match s {
        Some(x) => clean(x),
        None => true,
    }
}

pub open spec fn clean_all(items: Seq<Seq<char>>) -> bool {
    forall|i: int| 0 <= i < items.len() ==> clean(#[trigger] items[i])
}

pub open spec fn clean_evidence(e: EvidenceView) -> bool {
    clean(e.source) && clean_opt(e.before) && clean_opt(e.after)
}

pub open spec fn clean_cause(c: CauseView) -> bool {
    clean(c.summary) && forall|j: int| 0 <= j < c.evidence.len() ==> clean_evidence(#[trigger] c.evidence[j])
}

/// Every text of the task that output shows is free of escapes.
pub open spec fn clean_task(t: TaskDiagnosisView) -> bool {
    &&& clean(t.task_id)
    &&& clean_opt(t.baseline_hash)
    &&& clean_opt(t.current_hash)
    &&& forall|i: int| 0 <= i < t.causes.len() ==> clean_cause(#[trigger] t.causes[i])
    &&& clean_all(t.hints)
}

/// Every text of the report that output shows is free of escapes.
pub open spec fn clean_report(r: crate::model::ReportView) -> bool {
    &&& clean(r.baseline.path)
    &&& clean(r.current.path)
    &&& clean_opt(r.baseline.turbo_version)
    &&& clean_opt(r.current.turbo_version)
    &&& forall|i: int| 0 <= i < r.tasks.len() ==> clean_task(#[trigger] r.tasks[i])
    &&& clean_all(r.warnings)
}

pub broadcast proof fn lemma_clean_add(a: Seq<char>, b: Seq<char>)
    ensures
        #[trigger] clean(a + b) == (clean(a) && clean(b)),
{
    let s = a + b;
    if s.contains('\u{1b}') {
        let i = choose|i: int| 0 <= i < s.len() && s[i] == '\u{1b}';
        if i < a.len() {
            assert(a[i] == '\u{1b}');
        } else {
            assert(b[i - a.len()] == '\u{1b}');
        }
    }
    if a.contains('\u{1b}') {
        let i = choose|i: int| 0 <= i < a.len() && a[i] == '\u{1b}';
        assert(s[i] == '\u{1b}');
    }
    if b.contains('\u{1b}') {
        let i = choose|i: int| 0 <= i < b.len() && b[i] == '\u{1b}';
        assert(s[i + a.len()] == '\u{1b}');
    }
}

proof fn lemma_clean_take(s: Seq<char>, k: int)
    requires
        clean(s),
        0 <= k <= s.len(),
    ensures
        clean(s.take(k)),
{
    if s.take(k).contains('\u{1b}') {
        let i = choose|i: int| 0 <= i < s.take(k).len() && s.take(k)[i] == '\u{1b}';
        assert(s[i] == '\u{1b}');
    }
}

proof fn lemma_clean_dec(n: nat)
    ensures
        clean(dec(n)),
    decreases n,
{
    broadcast use lemma_clean_add;
    if n < 10 {
        assert(dec(n) == seq![crate::text::digit_char(n)]);
        assert(!seq![crate::text::digit_char(n)].contains('\u{1b}')) by {
            assert(seq![crate::text::digit_char(n)][0] != '\u{1b}');
        };
    } else {
        lemma_clean_dec(n / 10);
        let d = crate::text::digit_char(n % 10);
        assert(dec(n) == dec(n / 10) + seq![d]);
        assert(!seq![d].contains('\u{1b}')) by {
            assert(seq![d][0] != '\u{1b}');
        };
    }
}

proof fn lemma_clean_join(parts: Seq<Seq<char>>, sep: Seq<char>)
    requires
        clean_all(parts),
        clean(sep),
    ensures
        clean(crate::text::join(parts, sep)),
    decreases parts.len(),
{
    broadcast use lemma_clean_add;
    if parts.len() == 0 {
        assert(!Seq::<char>::empty().contains('\u{1b}'));
    } else if parts.len() > 1 {
        let init = parts.drop_last();
        assert forall|i: int| 0 <= i < init.len() implies clean(#[trigger] init[i]) by {
            assert(init[i] == parts[i]);
        };
        lemma_clean_join(init, sep);
        assert(clean(parts.last()));
    } else {
        assert(clean(parts[0]));
    }
}

proof fn lemma_clean_lines(prefix: Seq<char>, items: Seq<Seq<char>>)
    requires
        clean(prefix),
        clean_all(items),
    ensures
        clean(lines_with(prefix, items)),
    decreases items.len(),
{
    broadcast use lemma_clean_add;
    reveal_strlit("\n");
    if items.len() == 0 {
        assert(!Seq::<char>::empty().contains('\u{1b}'));
    } else {
        let init = items.drop_last();
        assert forall|i: int| 0 <= i < init.len() implies clean(#[trigger] init[i]) by {
            assert(init[i] == items[i]);
        };
        lemma_clean_lines(prefix, init);
        assert(clean(items.last()));
        assert(clean("\n"@));
    }
}

proof fn lemma_clean_short_hash(v: Option<Seq<char>>)
    requires
        clean_opt(v),
    ensures
        clean(spec_short_hash(v)),
{
    reveal_strlit("—");
    match v {
        None => {
            assert(clean("—"@));
        },
        Some(s) => {
            if let Some(p) = byte_prefix(s, 12) {
                let k = choose|k: int| 0 <= k <= s.len() && crate::text::utf8_len(#[trigger] s.take(k)) == 12;
                lemma_clean_take(s, k);
            }
        },
    }
}

proof fn lemma_clean_small_literals()
    ensures
        clean(" — Turborepo cache diagnosis\n\n"@),
        clean("WhyCache"@),
        clean("  Baseline  "@),
        clean("\n"@),
        clean("  Current   "@),
        clean("  Turbo     "@),
        clean(" → "@),
        clean("  Result    "@),
        clean(" root cause(s), "@),
        clean(" cascade(s), "@),
        clean(" task(s)\n"@),
        clean("\nNo cache misses or matching tasks were found.\n"@),
        clean("Warnings"@),
        clean("  ! "@),
        clean("  "@),
        clean("  Hash      "@),
        clean("added ("@),
        clean(")"@),
        clean("removed ("@),
        clean("     • "@),
        clean("       Git: +"@),
        clean(" −"@),
        clean(" lines\n"@),
        clean("\n  "@),
        clean(". "@),
        clean("% confidence\n"@),
        clean("\n  💡 Likely culprit: "@),
        clean("\n  UNCHANGED  "@),
        clean("  Hint: "@),
{
    reveal_strlit(" — Turborepo cache diagnosis\n\n");
    reveal_strlit("WhyCache");
    reveal_strlit("  Baseline  ");
    reveal_strlit("\n");
    reveal_strlit("  Current   ");
    reveal_strlit("  Turbo     ");
    reveal_strlit(" → ");
    reveal_strlit("  Result    ");
    reveal_strlit(" root cause(s), ");
    reveal_strlit(" cascade(s), ");
    reveal_strlit(" task(s)\n");
    reveal_strlit("\nNo cache misses or matching tasks were found.\n");
    reveal_strlit("Warnings");
    reveal_strlit("  ! ");
    reveal_strlit("  ");
    reveal_strlit("  Hash      ");
    reveal_strlit("added (");
    reveal_strlit(")");
    reveal_strlit("removed (");
    reveal_strlit("     • ");
    reveal_strlit("       Git: +");
    reveal_strlit(" −");
    reveal_strlit(" lines\n");
    reveal_strlit("\n  ");
    reveal_strlit(". ");
    reveal_strlit("% confidence\n");
    reveal_strlit("\n  💡 Likely culprit: ");
    reveal_strlit("\n  UNCHANGED  ");
    reveal_strlit("  Hint: ");
}

proof fn lemma_clean_labels(t: TaskDiagnosisView)
    ensures
        clean(spec_cache_status_label(t.cache_status)),
        clean(spec_classification_label(t.classification)),
        clean(" file(s)"@),
        clean(" environment variable(s)"@),
        clean("lockfile"@),
        clean("turbo.json"@),
        clean("task configuration"@),
        clean(", "@),
{
    reveal_strlit("HIT");
    reveal_strlit("MISS");
    reveal_strlit("SKIPPED");
    reveal_strlit("UNKNOWN");
    reveal_strlit("root cause");
    reveal_strlit("cascade");
    reveal_strlit("cache unavailable");
    reveal_strlit("unchanged");
    reveal_strlit("new task");
    reveal_strlit("unexplained");
    reveal_strlit(" file(s)");
    reveal_strlit(" environment variable(s)");
    reveal_strlit("lockfile");
    reveal_strlit("turbo.json");
    reveal_strlit("task configuration");
    reveal_strlit(", ");
}

proof fn lemma_clean_culprit(t: TaskDiagnosisView)
    requires
        clean_task(t),
    ensures
        clean_opt(spec_likely_culprit(t)),
{
    broadcast use lemma_clean_add;
    reveal_strlit(" changed between runs.");
    reveal_strlit(" changed first and cascaded into this");
    reveal_strlit(" task.");
    reveal_strlit("The cache key is unchanged, but its artifact was unavailable.");
    reveal_strlit("The Turborepo version changed.");
    reveal_strlit("The task did not exist in the baseline run.");
    reveal_strlit(": ");
    reveal_strlit(".");
    if t.causes.len() > 0 {
        let c = t.causes[0];
        assert(clean_cause(c));
        if c.evidence.len() > 0 {
            assert(clean_evidence(c.evidence[0]));
        }
        assert(clean(" changed between runs."@));
        assert(clean(" changed first and cascaded into this"@));
        assert(clean(" task."@));
        assert(clean("The cache key is unchanged, but its artifact was unavailable."@));
        assert(clean("The Turborepo version changed."@));
        assert(clean("The task did not exist in the baseline run."@));
        assert(clean(": "@));
        assert(clean("."@));
    }
}

proof fn lemma_clean_unchanged(t: TaskDiagnosisView)
    ensures
        clean(spec_unchanged_text(t.unchanged)),
{
    broadcast use lemma_clean_add;
    lemma_clean_labels(t);
    let u = t.unchanged;
    lemma_clean_dec(u.files as nat);
    lemma_clean_dec(u.environment_variables as nat);
    let parts = unchanged_parts(u);
    assert forall|i: int| 0 <= i < parts.len() implies clean(#[trigger] parts[i]) by {
        let base = seq![dec(u.files as nat) + " file(s)"@, dec(u.environment_variables as nat) + " environment variable(s)"@];
        let lock: Seq<Seq<char>> = if u.lockfile == Some(true) { seq!["lockfile"@] } else { Seq::empty() };
        let turbo: Seq<Seq<char>> = if u.turbo_json == Some(true) { seq!["turbo.json"@] } else { Seq::empty() };
        let task: Seq<Seq<char>> = if u.task_configuration { seq!["task configuration"@] } else { Seq::empty() };
        assert(parts == base + lock + turbo + task);
        if i < 2 {
            assert(parts[i] == base[i]);
        } else if i < 2 + lock.len() {
            assert(parts[i] == lock[i - 2]);
        } else if i < 2 + lock.len() + turbo.len() {
            assert(parts[i] == turbo[i - 2 - lock.len()]);
        } else {
            assert(parts[i] == task[i - 2 - lock.len() - turbo.len()]);
        }
    };
    lemma_clean_join(parts, ", "@);
}

proof fn lemma_clean_evidence_lines(evs: Seq<EvidenceView>, stats: Map<Seq<char>, GitStat>)
    requires
        forall|j: int| 0 <= j < evs.len() ==> clean_evidence(#[trigger] evs[j]),
    ensures
        clean(human_evidence(evs, stats)),
    decreases evs.len(),
{
    broadcast use lemma_clean_add;
    lemma_clean_small_literals();
    if evs.len() == 0 {
        assert(!Seq::<char>::empty().contains('\u{1b}'));
    } else {
        let init = evs.drop_last();
        assert forall|j: int| 0 <= j < init.len() implies clean_evidence(#[trigger] init[j]) by {
            assert(init[j] == evs[j]);
        };
        lemma_clean_evidence_lines(init, stats);
        let e = evs.last();
        assert(clean_evidence(e));
        lemma_clean_short_hash(e.before);
        lemma_clean_short_hash(e.after);
        if let (Some(b), Some(a)) = (e.before, e.after) {
            assert(spec_short_hash(Some(b)) == spec_short_hash(e.before));
        }
        assert(clean(change_text(e))) by {
            assert(!Seq::<char>::empty().contains('\u{1b}'));
        };
        match git_stat_of(stats, e.source) {
            Some(st) => {
                lemma_clean_dec(st.added_lines as nat);
                lemma_clean_dec(st.removed_lines as nat);
            },
            None => {
                assert(!Seq::<char>::empty().contains('\u{1b}'));
            },
        }
    }
}

proof fn lemma_clean_cause_lines(causes: Seq<CauseView>, stats: Map<Seq<char>, GitStat>)
    requires
        forall|j: int| 0 <= j < causes.len() ==> clean_cause(#[trigger] causes[j]),
    ensures
        clean(human_causes(causes, stats)),
    decreases causes.len(),
{
    broadcast use lemma_clean_add;
    lemma_clean_small_literals();
    if causes.len() == 0 {
        assert(!Seq::<char>::empty().contains('\u{1b}'));
    } else {
        let init = causes.drop_last();
        assert forall|j: int| 0 <= j < init.len() implies clean_cause(#[trigger] init[j]) by {
            assert(init[j] == causes[j]);
        };
        lemma_clean_cause_lines(init, stats);
        let c = causes.last();
        assert(clean_cause(c));
        lemma_clean_dec(causes.len());
        lemma_clean_dec(c.confidence as nat);
        lemma_clean_evidence_lines(c.evidence, stats);
    }
}

proof fn lemma_clean_task(t: TaskDiagnosisView)
    requires
        clean_task(t),
    ensures
        clean(spec_human_task(t, false)),
{
    broadcast use lemma_clean_add;
    lemma_clean_small_literals();
    lemma_clean_labels(t);
    lemma_clean_short_hash(t.baseline_hash);
    lemma_clean_short_hash(t.current_hash);
    lemma_clean_cause_lines(t.causes, t.git_stats);
    lemma_clean_culprit(t);
    lemma_clean_unchanged(t);
    lemma_clean_lines("  Hint: "@, t.hints);
    assert(clean(human_task_title(t, false)));
    assert(clean(human_hash_line(t)));
    assert(clean(human_task_tail(t))) by {
        assert(!Seq::<char>::empty().contains('\u{1b}'));
    };
}

proof fn lemma_clean_tasks(tasks: Seq<TaskDiagnosisView>)
    requires
        forall|i: int| 0 <= i < tasks.len() ==> clean_task(#[trigger] tasks[i]),
    ensures
        clean(human_tasks(tasks, false)),
    decreases tasks.len(),
{
    broadcast use lemma_clean_add;
    if tasks.len() == 0 {
        assert(!Seq::<char>::empty().contains('\u{1b}'));
    } else {
        let init = tasks.drop_last();
        assert forall|i: int| 0 <= i < init.len() implies clean_task(#[trigger] init[i]) by {
            assert(init[i] == tasks[i]);
        };
        lemma_clean_tasks(init);
        lemma_clean_task(tasks.last());
    }
}

/// Without colour, the text for a terminal holds no escape character but
/// those of the report's own texts.
pub proof fn law_plain_human_output(r: crate::model::ReportView)
    requires
        clean_report(r),
    ensures
        clean(spec_render_human(r, false)),
{
    broadcast use lemma_clean_add;
    lemma_clean_small_literals();
    lemma_clean_dec(count_roots(r.tasks));
    lemma_clean_dec(count_cascades(r.tasks));
    lemma_clean_dec(r.tasks.len());
    lemma_clean_tasks(r.tasks);
    lemma_clean_lines("  ! "@, r.warnings);
    assert(clean(human_intro(r, false))) by {
        assert(!Seq::<char>::empty().contains('\u{1b}'));
    };
    assert(clean(human_result(r.tasks))) by {
        assert(!Seq::<char>::empty().contains('\u{1b}'));
    };
    assert(clean(human_warnings(r.warnings, false))) by {
        assert(!Seq::<char>::empty().contains('\u{1b}'));
    };
}

} // verus!

verus! {

/// A text that occurs in `a` occurs in `a` with anything around it.
proof fn lemma_contains_within(x: Seq<char>, a: Seq<char>, y: Seq<char>, p: Seq<char>)
    requires
        crate::text::contains_seq(a, p),
    ensures
        crate::text::contains_seq(x + a + y, p),
{
    let i = choose|i: int| crate::text::occurs_at(a, p, i);
    let s = x + a + y;
    assert(s.subrange(x.len() + i, x.len() + i + p.len()) =~= a.subrange(i, i + p.len()));
    assert(crate::text::occurs_at(s, p, x.len() + i));
}

/// The line of one evidence in human output.
pub open spec fn human_evidence_line(e: EvidenceView) -> Seq<char> {
    "     • "@ + e.source + "  "@ + change_text(e) + "\n"@
}

proof fn lemma_evidence_line(evs: Seq<EvidenceView>, stats: Map<Seq<char>, GitStat>, m: int)
    requires
        0 <= m < evs.len(),
    ensures
        crate::text::contains_seq(human_evidence(evs, stats), human_evidence_line(evs[m])),
    decreases evs.len(),
{
    let init = evs.drop_last();
    let e = evs.last();
    let line = human_evidence_line(e);
    let out = human_evidence(evs, stats);
    assert(out =~= human_evidence(init, stats) + line + human_git_line(stats, e.source));
    if m == evs.len() - 1 {
        let pre = human_evidence(init, stats);
        assert(out.subrange(pre.len() as int, (pre.len() + line.len()) as int) =~= line);
        assert(crate::text::occurs_at(out, line, pre.len() as int));
    } else {
        lemma_evidence_line(init, stats, m);
        assert(init[m] == evs[m]);
        lemma_contains_within(Seq::empty(), human_evidence(init, stats), line + human_git_line(stats, e.source), human_evidence_line(evs[m]));
        assert(Seq::<char>::empty() + human_evidence(init, stats) + (line + human_git_line(stats, e.source)) =~= out);
    }
}

proof fn lemma_cause_evidence_line(causes: Seq<CauseView>, stats: Map<Seq<char>, GitStat>, k: int, m: int)
    requires
        0 <= k < causes.len(),
        0 <= m < causes[k].evidence.len(),
    ensures
        crate::text::contains_seq(human_causes(causes, stats), human_evidence_line(causes[k].evidence[m])),
    decreases causes.len(),
{
    let init = causes.drop_last();
    let c = causes.last();
    let p = human_evidence_line(causes[k].evidence[m]);
    let pre = human_causes(init, stats) + human_cause_head(causes.len(), c);
    if k == causes.len() - 1 {
        lemma_evidence_line(c.evidence, stats, m);
        lemma_contains_within(pre, human_evidence(c.evidence, stats), Seq::empty(), p);
        assert(pre + human_evidence(c.evidence, stats) + Seq::<char>::empty() =~= human_causes(causes, stats));
    } else {
        assert(init[k] == causes[k]);
        lemma_cause_evidence_line(init, stats, k, m);
        let rest = human_cause_head(causes.len(), c) + human_evidence(c.evidence, stats);
        lemma_contains_within(Seq::empty(), human_causes(init, stats), rest, p);
        assert(Seq::<char>::empty() + human_causes(init, stats) + rest =~= human_causes(causes, stats));
    }
}

proof fn lemma_task_evidence_line(tasks: Seq<TaskDiagnosisView>, colored: bool, t: int, k: int, m: int)
    requires
        0 <= t < tasks.len(),
        0 <= k < tasks[t].causes.len(),
        0 <= m < tasks[t].causes[k].evidence.len(),
    ensures
        crate::text::contains_seq(human_tasks(tasks, colored), human_evidence_line(tasks[t].causes[k].evidence[m])),
    decreases tasks.len(),
{
    let init = tasks.drop_last();
    let last = tasks.last();
    let p = human_evidence_line(tasks[t].causes[k].evidence[m]);
    if t == tasks.len() - 1 {
        lemma_cause_evidence_line(last.causes, last.git_stats, k, m);
        lemma_contains_within(human_task_head(last, colored), human_causes(last.causes, last.git_stats), human_task_tail(last), p);
        let pre = human_tasks(init, colored);
        let task = spec_human_task(last, colored);
        lemma_contains_within(pre, task, Seq::empty(), p);
        assert(pre + task + Seq::<char>::empty() =~= human_tasks(tasks, colored));
    } else {
        assert(init[t] == tasks[t]);
        lemma_task_evidence_line(init, colored, t, k, m);
        lemma_contains_within(Seq::empty(), human_tasks(init, colored), spec_human_task(last, colored), p);
        assert(Seq::<char>::empty() + human_tasks(init, colored) + spec_human_task(last, colored) =~= human_tasks(tasks, colored));
    }
}

/// In human output, each evidence of a cause of a task has a line of its
/// own: a file that only the current run has is shown as added, with the
/// start of its new hash, and one that only the baseline has as removed,
/// with the start of its old hash.
pub proof fn law_human_added_removed(r: crate::model::ReportView, colored: bool, t: int, k: int, m: int)
    requires
        0 <= t < r.tasks.len(),
        0 <= k < r.tasks[t].causes.len(),
        0 <= m < r.tasks[t].causes[k].evidence.len(),
    ensures
        r.tasks[t].causes[k].evidence[m].before is None && r.tasks[t].causes[k].evidence[m].after is Some
            ==> crate::text::contains_seq(spec_render_human(r, colored),
                "     • "@ + r.tasks[t].causes[k].evidence[m].source + "  "@ + "added ("@
                    + spec_short_hash(r.tasks[t].causes[k].evidence[m].after) + ")"@ + "\n"@),
        r.tasks[t].causes[k].evidence[m].before is Some && r.tasks[t].causes[k].evidence[m].after is None
            ==> crate::text::contains_seq(spec_render_human(r, colored),
                "     • "@ + r.tasks[t].causes[k].evidence[m].source + "  "@ + "removed ("@
                    + spec_short_hash(r.tasks[t].causes[k].evidence[m].before) + ")"@ + "\n"@),
{
    let e = r.tasks[t].causes[k].evidence[m];
    lemma_task_evidence_line(r.tasks, colored, t, k, m);
    lemma_contains_within(human_header(r, colored), human_tasks(r.tasks, colored), human_warnings(r.warnings, colored), human_evidence_line(e));
    if e.before is None && e.after is Some {
        assert(human_evidence_line(e) =~= "     • "@ + e.source + "  "@ + "added ("@ + spec_short_hash(e.after) + ")"@ + "\n"@);
    }
    if e.before is Some && e.after is None {
        assert(human_evidence_line(e) =~= "     • "@ + e.source + "  "@ + "removed ("@ + spec_short_hash(e.before) + ")"@ + "\n"@);
    }
}

} // verus!
