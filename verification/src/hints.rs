//! Curated next checks for a diagnosed task.
use vstd::prelude::*;
use crate::map::{SortedMap, sorted_keys, strictly_sorted};
use crate::model::{Cause, CauseKind, CauseView, Classification, TaskSummary, cause_views};
use crate::text::{
    ascii_upper, before_first, contains_seq, owned, push_str, trim_end_char, trim_start_char,
    trim_start_seq, upper_eq,
};

verus! {

/// The variable name is one that changes on every CI run.
pub open spec fn spec_volatile_environment_name(name: Seq<char>) -> bool {
    let n = ascii_upper(name);
    ||| n == "BUILD_TIME"@
    ||| n == "BUILD_TIMESTAMP"@
    ||| n == "CI_COMMIT_SHA"@
    ||| n == "GITHUB_RUN_ID"@
    ||| n == "GITHUB_RUN_NUMBER"@
    ||| n == "GITHUB_SHA"@
    ||| n == "RUN_ID"@
    ||| n == "SOURCE_DATE_EPOCH"@
    ||| n == "TIMESTAMP"@
}

pub fn volatile_environment_name(name: &str) -> (r: bool)
    ensures
        r == spec_volatile_environment_name(name@),
{
    upper_eq(name, "BUILD_TIME") || upper_eq(name, "BUILD_TIMESTAMP") || upper_eq(name, "CI_COMMIT_SHA")
        || upper_eq(name, "GITHUB_RUN_ID") || upper_eq(name, "GITHUB_RUN_NUMBER") || upper_eq(name, "GITHUB_SHA")
        || upper_eq(name, "RUN_ID") || upper_eq(name, "SOURCE_DATE_EPOCH") || upper_eq(name, "TIMESTAMP")
}

/// The literal directory an output glob names: the glob without leading `!`
/// and `./`, up to its first `*`, without trailing `/`.
pub open spec fn output_prefix(output: Seq<char>) -> Seq<char> {
    trim_end_char(before_first(trim_start_seq(trim_start_char(output, '!'), "./"@), '*'), '/')
}

/// The input is, or lies under, the literal directory of the output glob.
pub open spec fn spec_path_matches_output(input: Seq<char>, output: Seq<char>) -> bool {
    let prefix = output_prefix(output);
    prefix.len() > 0 && (input == prefix || (prefix + "/"@).is_prefix_of(input))
}

pub fn path_matches_output(input: &str, output: &str) -> (r: bool)
    ensures
        r == spec_path_matches_output(input@, output@),
{
    let a = crate::text::trim_start_matches_char(output, '!');
    let b = crate::text::trim_start_matches_str(a.as_str(), "./");
    let c = crate::text::before_first_char(b.as_str(), '*');
    let prefix = crate::text::trim_end_matches_char(c.as_str(), '/');
    if prefix.as_str().is_empty() {
        return false;
    }
    let mut dir = prefix.clone();
    push_str(&mut dir, "/");
    crate::text::str_eq(input, prefix.as_str()) || crate::text::starts_with(input, dir.as_str())
}

/// Some output glob of the task matches the input.
pub open spec fn matches_some_output(input: Seq<char>, outputs: Seq<Seq<char>>) -> bool {
    exists|i: int| 0 <= i < outputs.len() && spec_path_matches_output(input, #[trigger] outputs[i])
}

fn matches_any_output(input: &str, outputs: &Vec<String>) -> (r: bool)
    ensures
        r == matches_some_output(input@, outputs.deep_view()),
{
    let mut i: usize = 0;
    while i < outputs.len()
        invariant
            i <= outputs.len(),
            forall|k: int| 0 <= k < i ==> !spec_path_matches_output(input@, #[trigger] outputs.deep_view()[k]),
        decreases outputs.len() - i,
    {
        if path_matches_output(input, outputs[i].as_str()) {
            assert(spec_path_matches_output(input@, outputs.deep_view()[i as int]));
            return true;
        }
        i = i + 1;
    }
    false
}

/// The input path looks like a log written by the task.
pub open spec fn is_log_input(path: Seq<char>, log_file: Option<Seq<char>>) -> bool {
    ||| ".log"@.is_suffix_of(path)
    ||| contains_seq(path, ".turbo/"@)
    ||| (match log_file {
        Some(l) => path.is_suffix_of(l) || l.is_suffix_of(path),
        None => false,
    })
}

fn log_input(path: &str, log_file: &Option<String>) -> (r: bool)
    ensures
        r == is_log_input(path@, log_file.deep_view()),
{
    crate::text::ends_with(path, ".log") || crate::text::contains_str(path, ".turbo/") || match log_file {
        Some(l) => crate::text::ends_with(l.as_str(), path) || crate::text::ends_with(path, l.as_str()),
        None => false,
    }
}

/// Which kind of generated file a hint is about.
#[derive(Clone, Copy, PartialEq, Eq, Structural)]
pub enum Generated {
    Output,
    Log,
}

pub open spec fn is_generated(which: Generated, path: Seq<char>, t: &TaskSummary) -> bool {
    match which {
        Generated::Output => matches_some_output(path, t.outputs.deep_view()),
        Generated::Log => is_log_input(path, t.log_file.deep_view()),
    }
}

/// The first path of `paths` that is a generated file.
pub open spec fn first_generated(paths: Seq<Seq<char>>, which: Generated, t: &TaskSummary) -> Option<Seq<char>>
    decreases paths.len(),
{
    if paths.len() == 0 {
        None
    } else if is_generated(which, paths[0], t) {
        Some(paths[0])
    } else {
        first_generated(paths.drop_first(), which, t)
    }
}

fn find_generated(t: &TaskSummary, which: Generated) -> (r: Option<String>)
    ensures
        r.deep_view() == first_generated(sorted_keys(t.inputs@.dom()), which, t),
{
    proof {
        use_type_invariant(&t.inputs);
        t.inputs.lemma_key_order();
    }
    let ghost keys = t.inputs.key_seq();
    let mut i: usize = 0;
    let n = t.inputs.len();
    assert(keys.skip(0) =~= keys);
    while i < n
        invariant
            i <= n,
            n == keys.len(),
            keys == t.inputs.key_seq(),
            keys == sorted_keys(t.inputs@.dom()),
            first_generated(keys, which, t) == first_generated(keys.skip(i as int), which, t),
        decreases n - i,
    {
        let k = t.inputs.key_at(i);
        let hit = match which {
            Generated::Output => matches_any_output(k.as_str(), &t.outputs),
            Generated::Log => log_input(k.as_str(), &t.log_file),
        };
        assert(keys.skip(i as int).len() > 0);
        assert(keys.skip(i as int)[0] == k@);
        if hit {
            assert(is_generated(which, k@, t));
            return Some(k.clone());
        }
        assert(keys.skip(i as int).drop_first() =~= keys.skip(i + 1));
        i = i + 1;
    }
    assert(keys.skip(i as int).len() == 0);
    None
}

/// Some cause is of kind `kind`.
pub open spec fn has_kind(causes: Seq<CauseView>, kind: CauseKind) -> bool {
    exists|i: int| 0 <= i < causes.len() && #[trigger] causes[i].kind == kind
}

fn any_kind(causes: &Vec<Cause>, kind: CauseKind) -> (r: bool)
    ensures
        r == has_kind(cause_views(causes@), kind),
{
    let mut i: usize = 0;
    while i < causes.len()
        invariant
            i <= causes.len(),
            forall|k: int| 0 <= k < i ==> #[trigger] cause_views(causes@)[k].kind != kind,
        decreases causes.len() - i,
    {
        assert(cause_views(causes@)[i as int].kind == causes@[i as int].kind);
        if causes[i].kind == kind {
            return true;
        }
        i = i + 1;
    }
    false
}

/// The names in the evidence of environment causes that change on every run.
pub open spec fn volatile_names(causes: Seq<CauseView>) -> Set<Seq<char>> {
    Set::new(|n: Seq<char>| exists|i: int, j: int| 0 <= i < causes.len() && causes[i].kind == CauseKind::Environment
        && 0 <= j < causes[i].evidence.len() && #[trigger] causes[i].evidence[j].source == n
        && spec_volatile_environment_name(n))
}

fn collect_volatile(causes: &Vec<Cause>) -> (r: Vec<String>)
    ensures
        r.deep_view() == sorted_keys(volatile_names(cause_views(causes@))),
{
    let ghost cv = cause_views(causes@);
    let mut set: SortedMap<bool> = SortedMap::new();
    let mut i: usize = 0;
    while i < causes.len()
        invariant
            i <= causes.len(),
            cv == cause_views(causes@),
            forall|n: Seq<char>| set@.dom().contains(n) <==> (exists|x: int, j: int| 0 <= x < i && cv[x].kind == CauseKind::Environment
                && 0 <= j < cv[x].evidence.len() && #[trigger] cv[x].evidence[j].source == n
                && spec_volatile_environment_name(n)),
        decreases causes.len() - i,
    {
        let cause = &causes[i];
        assert(cv[i as int] == cause@);
        if cause.kind == CauseKind::Environment {
            let mut j: usize = 0;
            while j < cause.evidence.len()
                invariant
                    i < causes.len(),
                    cause == &causes@[i as int],
                    cv == cause_views(causes@),
                    cv[i as int] == cause@,
                    cause.kind == CauseKind::Environment,
                    j <= cause.evidence.len(),
                    forall|n: Seq<char>| set@.dom().contains(n) <==> ((exists|x: int, j2: int| 0 <= x < i && cv[x].kind == CauseKind::Environment
                        && 0 <= j2 < cv[x].evidence.len() && #[trigger] cv[x].evidence[j2].source == n
                        && spec_volatile_environment_name(n))
                        || (exists|j2: int| 0 <= j2 < j && #[trigger] cv[i as int].evidence[j2].source == n
                        && spec_volatile_environment_name(n))),
                decreases cause.evidence.len() - j,
            {
                let source = &cause.evidence[j].source;
                assert(cv[i as int].evidence[j as int].source == source@);
                if volatile_environment_name(source.as_str()) {
                    set.insert(source.clone(), true);
                }
                j = j + 1;
            }
        }
        i = i + 1;
    }
    assert(set@.dom() =~= volatile_names(cv));
    set.keys()
}

/// Exactly one kind of direct cause, the dependency graph, and a lockfile
/// among the evidence.
pub open spec fn only_lockfile_changed(causes: Seq<CauseView>) -> bool {
    &&& exists|i: int| 0 <= i < causes.len() && #[trigger] causes[i].kind == CauseKind::DependencyGraph
    &&& forall|i: int| 0 <= i < causes.len() && #[trigger] causes[i].kind != CauseKind::UpstreamTask
        ==> causes[i].kind == CauseKind::DependencyGraph
    &&& exists|i: int, j: int| 0 <= i < causes.len() && 0 <= j < causes[i].evidence.len()
        && crate::causes::spec_is_lockfile(#[trigger] causes[i].evidence[j].source)
}

fn lockfile_only(causes: &Vec<Cause>) -> (r: bool)
    ensures
        r == only_lockfile_changed(cause_views(causes@)),
{
    let ghost cv = cause_views(causes@);
    let mut has_graph = false;
    let mut all_graph = true;
    let mut has_lock = false;
    let mut i: usize = 0;
    while i < causes.len()
        invariant
            i <= causes.len(),
            cv == cause_views(causes@),
            has_graph == (exists|x: int| 0 <= x < i && #[trigger] cv[x].kind == CauseKind::DependencyGraph),
            all_graph == (forall|x: int| 0 <= x < i && #[trigger] cv[x].kind != CauseKind::UpstreamTask ==> cv[x].kind == CauseKind::DependencyGraph),
            has_lock == (exists|x: int, j: int| 0 <= x < i && 0 <= j < cv[x].evidence.len()
                && crate::causes::spec_is_lockfile(#[trigger] cv[x].evidence[j].source)),
        decreases causes.len() - i,
    {
        let cause = &causes[i];
        assert(cv[i as int] == cause@);
        assert(cv[i as int].kind == cause.kind);
        if cause.kind == CauseKind::DependencyGraph {
            has_graph = true;
        }
        if cause.kind != CauseKind::UpstreamTask && cause.kind != CauseKind::DependencyGraph {
            all_graph = false;
        }
        let mut j: usize = 0;
        let ghost had_lock = has_lock;
        while j < cause.evidence.len()
            invariant
                i < causes.len(),
                cause == &causes@[i as int],
                cv == cause_views(causes@),
                cv[i as int] == cause@,
                j <= cause.evidence.len(),
                has_lock == (had_lock || exists|j2: int| 0 <= j2 < j
                    && crate::causes::spec_is_lockfile(#[trigger] cv[i as int].evidence[j2].source)),
            decreases cause.evidence.len() - j,
        {
            assert(cv[i as int].evidence[j as int].source == cause.evidence@[j as int].source@);
            if crate::causes::is_lockfile(cause.evidence[j].source.as_str()) {
                has_lock = true;
            }
            j = j + 1;
        }
        proof {
            if has_lock && !had_lock {
                let j2 = choose|j2: int| 0 <= j2 < j && crate::causes::spec_is_lockfile(#[trigger] cv[i as int].evidence[j2].source);
                assert(crate::causes::spec_is_lockfile(cv[i as int].evidence[j2].source));
            }
        }
        i = i + 1;
    }
    has_graph && all_graph && has_lock
}

pub open spec fn hint_if(present: bool, hint: Seq<char>) -> Set<Seq<char>> {
    if present {
        set![hint]
    } else {
        Set::empty()
    }
}

/// Every hint that applies to the task.
pub open spec fn hint_set(current: &TaskSummary, classification: Classification, causes: Seq<CauseView>) -> Set<Seq<char>> {
    let volatile = sorted_keys(volatile_names(causes));
    let output = first_generated(sorted_keys(current.inputs@.dom()), Generated::Output, current);
    let log = first_generated(sorted_keys(current.inputs@.dom()), Generated::Log, current);
    hint_if(classification == Classification::CacheUnavailable,
        "Check remote-cache authentication, cache retention, and whether the artifact was evicted."@)
    + hint_if(classification == Classification::CacheUnavailable,
        "Confirm that every runner uses the same remote-cache team and signature settings."@)
    + hint_if(has_kind(causes, CauseKind::Environment),
        "Keep task-affecting variables in `env` or `globalEnv`; avoid broad wildcard inputs when possible."@)
    + hint_if(has_kind(causes, CauseKind::Environment) && volatile.len() > 0,
        "Per-run variable(s) "@ + crate::text::join(volatile, ", "@)
            + " commonly invalidate every build; remove them from task hashing unless their values affect outputs."@)
    + hint_if(has_kind(causes, CauseKind::DependencyGraph),
        "Review the lockfile diff and workspace dependency ranges before clearing caches."@)
    + hint_if(current.outputs@.len() == 0,
        "This"@ + " task declares no outputs; add `outputs` if its artifacts should be restored from cache."@)
    + hint_if(output is Some,
        "Generated output "@ + output.unwrap_or(Seq::empty())
            + " is also hashed as an input; exclude generated directories from inputs and version control."@)
    + hint_if(log is Some,
        "Generated log "@ + log.unwrap_or(Seq::empty())
            + " is part of the task inputs; ignore or exclude it to prevent self-invalidating builds."@)
    + hint_if(only_lockfile_changed(causes),
        "Only the lockfile changed; inspect resolved versions and workspace links before clearing the cache."@)
}

/// The applicable hints, sorted and without repeats.
pub open spec fn spec_build_hints(current: &TaskSummary, classification: Classification, causes: Seq<CauseView>) -> Seq<Seq<char>> {
    sorted_keys(hint_set(current, classification, causes))
}

fn add_hint(set: &mut SortedMap<bool>, present: bool, hint: String)
    ensures
        final(set)@.dom() == old(set)@.dom() + hint_if(present, hint@),
{
    if present {
        set.insert(hint, true);
    }
    assert(set@.dom() =~= old(set)@.dom() + hint_if(present, hint@));
}

pub fn build_hints(current: &TaskSummary, classification: Classification, causes: &Vec<Cause>) -> (r: Vec<String>)
    ensures
        r.deep_view() == spec_build_hints(current, classification, cause_views(causes@)),
        strictly_sorted(r.deep_view()),
{
    let ghost cv = cause_views(causes@);
    let mut set: SortedMap<bool> = SortedMap::new();
    let unavailable = classification == Classification::CacheUnavailable;
    add_hint(&mut set, unavailable, owned("Check remote-cache authentication, cache retention, and whether the artifact was evicted."));
    add_hint(&mut set, unavailable, owned("Confirm that every runner uses the same remote-cache team and signature settings."));
    let env = any_kind(causes, CauseKind::Environment);
    add_hint(&mut set, env, owned("Keep task-affecting variables in `env` or `globalEnv`; avoid broad wildcard inputs when possible."));
    let volatile = if env { collect_volatile(causes) } else { Vec::new() };
    let ghost gv = sorted_keys(volatile_names(cv));
    let mut per_run = owned("Per-run variable(s) ");
    if env {
        let joined = crate::text::join_strings(&volatile, ", ");
        push_str(&mut per_run, joined.as_str());
    }
    push_str(&mut per_run, " commonly invalidate every build; remove them from task hashing unless their values affect outputs.");
    add_hint(&mut set, env && volatile.len() > 0, per_run);
    let graph = any_kind(causes, CauseKind::DependencyGraph);
    add_hint(&mut set, graph, owned("Review the lockfile diff and workspace dependency ranges before clearing caches."));
    let mut no_outputs = owned("This");
    push_str(&mut no_outputs, " task declares no outputs; add `outputs` if its artifacts should be restored from cache.");
    add_hint(&mut set, current.outputs.len() == 0, no_outputs);
    let output = find_generated(current, Generated::Output);
    let mut output_hint = owned("Generated output ");
    match &output {
        Some(p) => push_str(&mut output_hint, p.as_str()),
        None => {},
    }
    push_str(&mut output_hint, " is also hashed as an input; exclude generated directories from inputs and version control.");
    add_hint(&mut set, output.is_some(), output_hint);
    let log = find_generated(current, Generated::Log);
    let mut log_hint = owned("Generated log ");
    match &log {
        Some(p) => push_str(&mut log_hint, p.as_str()),
        None => {},
    }
    push_str(&mut log_hint, " is part of the task inputs; ignore or exclude it to prevent self-invalidating builds.");
    add_hint(&mut set, log.is_some(), log_hint);
    let lock = lockfile_only(causes);
    add_hint(&mut set, lock,
        owned("Only the lockfile changed; inspect resolved versions and workspace links before clearing the cache."));
    proof {
        assert(set@.dom() =~= hint_set(current, classification, cv));
    }
    set.keys()
}

} // verus!

verus! {

/// The hint for a task that declares no outputs.
pub open spec fn no_outputs_hint() -> Seq<char> {
    "This"@ + " task declares no outputs; add `outputs` if its artifacts should be restored from cache."@
}

/// The hint that a task declares no outputs is given exactly to the tasks
/// whose current run declares none, whatever else was found.
pub proof fn law_no_outputs_hint(current: &TaskSummary, classification: Classification, causes: Seq<CauseView>)
    ensures
        spec_build_hints(current, classification, causes).contains(no_outputs_hint())
            <==> current.outputs@.len() == 0,
{
    let set = hint_set(current, classification, causes);
    let volatile = sorted_keys(volatile_names(causes));
    let output = first_generated(sorted_keys(current.inputs@.dom()), Generated::Output, current);
    let log = first_generated(sorted_keys(current.inputs@.dom()), Generated::Log, current);
    reveal_strlit("This");
    reveal_strlit("Check remote-cache authentication, cache retention, and whether the artifact was evicted.");
    reveal_strlit("Confirm that every runner uses the same remote-cache team and signature settings.");
    reveal_strlit("Keep task-affecting variables in `env` or `globalEnv`; avoid broad wildcard inputs when possible.");
    reveal_strlit("Per-run variable(s) ");
    reveal_strlit("Review the lockfile diff and workspace dependency ranges before clearing caches.");
    reveal_strlit("Generated output ");
    reveal_strlit("Generated log ");
    reveal_strlit("Only the lockfile changed; inspect resolved versions and workspace links before clearing the cache.");
    let h = no_outputs_hint();
    assert(h[0] == 'T');
    let per_run = "Per-run variable(s) "@ + crate::text::join(volatile, ", "@)
        + " commonly invalidate every build; remove them from task hashing unless their values affect outputs."@;
    assert(per_run[0] == 'P');
    let gen_out = "Generated output "@ + output.unwrap_or(Seq::empty())
        + " is also hashed as an input; exclude generated directories from inputs and version control."@;
    assert(gen_out[0] == 'G');
    let gen_log = "Generated log "@ + log.unwrap_or(Seq::empty())
        + " is part of the task inputs; ignore or exclude it to prevent self-invalidating builds."@;
    assert(gen_log[0] == 'G');
    assert(set.finite());
    crate::map::lemma_sorted_keys_exist(set);
    if current.outputs@.len() == 0 {
        assert(set.contains(h));
    } else {
        assert(!set.contains(h));
    }
}

} // verus!
