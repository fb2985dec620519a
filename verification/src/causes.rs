//! The causes that explain why a task's cache key changed.
use vstd::prelude::*;
use crate::map::{DeepEq, SortedMap, map_get, sorted_keys, lemma_sorted_keys, strictly_sorted};
use crate::model::{
    Cause, CauseKind, CauseView, Evidence, EvidenceView, cause_views, changed_keys, changed_set,
    evidence_views,
};
use crate::text::{decimal, dec, last_path_segment, last_segment, owned, push_str, str_eq};

verus! {

// ---------------------------------------------------------------------
// File classes
// ---------------------------------------------------------------------

/// The path names a dependency lockfile.
pub open spec fn spec_is_lockfile(path: Seq<char>) -> bool {
    let name = last_segment(path);
    ||| name == "bun.lock"@
    ||| name == "bun.lockb"@
    ||| name == "package-lock.json"@
    ||| name == "pnpm-lock.yaml"@
    ||| name == "yarn.lock"@
}

pub fn is_lockfile(path: &str) -> (r: bool)
    ensures
        r == spec_is_lockfile(path@),
{
    let name = last_path_segment(path);
    let n = name.as_str();
    str_eq(n, "bun.lock") || str_eq(n, "bun.lockb") || str_eq(n, "package-lock.json")
        || str_eq(n, "pnpm-lock.yaml") || str_eq(n, "yarn.lock")
}

/// The path names a task or workspace configuration file.
pub open spec fn spec_is_task_config(path: Seq<char>) -> bool {
    let name = last_segment(path);
    ||| name == "turbo.json"@
    ||| name == "package.json"@
    ||| name == "tsconfig.json"@
    ||| name == "tsconfig.base.json"@
}

pub fn is_task_config(path: &str) -> (r: bool)
    ensures
        r == spec_is_task_config(path@),
{
    let name = last_path_segment(path);
    let n = name.as_str();
    str_eq(n, "turbo.json") || str_eq(n, "package.json") || str_eq(n, "tsconfig.json")
        || str_eq(n, "tsconfig.base.json")
}

/// Which changed input paths a cause covers.
#[derive(Clone, Copy, PartialEq, Eq, Structural)]
pub enum FileClass {
    Lockfile,
    TaskConfig,
    Ordinary,
}

pub open spec fn in_class(class: FileClass, path: Seq<char>) -> bool {
    match class {
        FileClass::Lockfile => spec_is_lockfile(path),
        FileClass::TaskConfig => spec_is_task_config(path),
        FileClass::Ordinary => !spec_is_lockfile(path) && !spec_is_task_config(path),
    }
}

/// The paths of `paths` in `class`, in order.
pub open spec fn select(paths: Seq<Seq<char>>, class: FileClass) -> Seq<Seq<char>>
    decreases paths.len(),
{
    if paths.len() == 0 {
        Seq::empty()
    } else if in_class(class, paths.last()) {
        select(paths.drop_last(), class).push(paths.last())
    } else {
        select(paths.drop_last(), class)
    }
}

fn is_in_class(class: FileClass, path: &str) -> (r: bool)
    ensures
        r == in_class(class, path@),
{
    match class {
        FileClass::Lockfile => is_lockfile(path),
        FileClass::TaskConfig => is_task_config(path),
        FileClass::Ordinary => !is_lockfile(path) && !is_task_config(path),
    }
}

fn select_paths(paths: &Vec<String>, class: FileClass) -> (r: Vec<String>)
    ensures
        r.deep_view() == select(paths.deep_view(), class),
{
    let mut r: Vec<String> = Vec::new();
    let mut i: usize = 0;
    while i < paths.len()
        invariant
            i <= paths.len(),
            r.deep_view() == select(paths.deep_view().take(i as int), class),
        decreases paths.len() - i,
    {
        let ghost before = r.deep_view();
        assert(paths.deep_view().take(i + 1).drop_last() =~= paths.deep_view().take(i as int));
        if is_in_class(class, paths[i].as_str()) {
            r.push(paths[i].clone());
            assert(r.deep_view() =~= before.push(paths[i as int]@));
        }
        i = i + 1;
    }
    assert(paths.deep_view().take(i as int) =~= paths.deep_view());
    r
}

// ---------------------------------------------------------------------
// Evidence about files
// ---------------------------------------------------------------------

pub open spec fn file_detail(path: Seq<char>, before: Map<Seq<char>, Seq<char>>, after: Map<Seq<char>, Seq<char>>) -> Seq<char> {
    if !before.dom().contains(path) && after.dom().contains(path) {
        "File was added to the task inputs."@
    } else if before.dom().contains(path) && !after.dom().contains(path) {
        "File was removed from the task inputs."@
    } else {
        "File content fingerprint changed."@
    }
}

pub open spec fn file_evidence(path: Seq<char>, before: Map<Seq<char>, Seq<char>>, after: Map<Seq<char>, Seq<char>>) -> EvidenceView {
    EvidenceView {
        source: path,
        before: map_get(before, path),
        after: map_get(after, path),
        detail: Some(file_detail(path, before, after)),
    }
}

pub open spec fn file_evidence_list(paths: Seq<Seq<char>>, before: Map<Seq<char>, Seq<char>>, after: Map<Seq<char>, Seq<char>>) -> Seq<EvidenceView> {
    paths.map_values(|p: Seq<char>| file_evidence(p, before, after))
}

/// A cause whose evidence is the fingerprints of `paths` before and after.
pub open spec fn spec_file_cause(
    kind: CauseKind,
    summary: Seq<char>,
    confidence: u8,
    paths: Seq<Seq<char>>,
    before: Map<Seq<char>, Seq<char>>,
    after: Map<Seq<char>, Seq<char>>,
) -> CauseView {
    CauseView { kind, summary, confidence, evidence: file_evidence_list(paths, before, after) }
}

fn clone_value(v: Option<&String>) -> (r: Option<String>)
    ensures
        r.deep_view() == (match v { Some(s) => Some(s@), None => None }),
{
    match v {
        Some(s) => Some(s.clone()),
        None => None,
    }
}

pub fn file_cause(
    kind: CauseKind,
    summary: String,
    confidence: u8,
    paths: &Vec<String>,
    before: &SortedMap<String>,
    after: &SortedMap<String>,
) -> (r: Cause)
    ensures
        r@ == spec_file_cause(kind, summary@, confidence, paths.deep_view(), before@, after@),
{
    let mut evidence: Vec<Evidence> = Vec::new();
    let mut i: usize = 0;
    while i < paths.len()
        invariant
            i <= paths.len(),
            evidence_views(evidence@) == file_evidence_list(paths.deep_view().take(i as int), before@, after@),
        decreases paths.len() - i,
    {
        let path = &paths[i];
        let b = before.get(path.as_str());
        let a = after.get(path.as_str());
        let detail = match (b.is_some(), a.is_some()) {
            (false, true) => owned("File was added to the task inputs."),
            (true, false) => owned("File was removed from the task inputs."),
            _ => owned("File content fingerprint changed."),
        };
        let e = Evidence { source: path.clone(), before: clone_value(b), after: clone_value(a), detail: Some(detail) };
        assert(e@ == file_evidence(paths.deep_view()[i as int], before@, after@));
        let ghost prev = evidence@;
        assert(evidence_views(prev).len() == i);
        evidence.push(e);
        assert(evidence@ == prev.push(e));
        assert(evidence_views(evidence@) =~= evidence_views(prev).push(e@));
        assert(file_evidence_list(paths.deep_view().take(i + 1), before@, after@) =~= file_evidence_list(paths.deep_view().take(i as int), before@, after@).push(e@));
        i = i + 1;
    }
    assert(paths.deep_view().take(i as int) =~= paths.deep_view());
    Cause { kind, summary, confidence, evidence }
}

// ---------------------------------------------------------------------
// Task inputs
// ---------------------------------------------------------------------

/// The changed inputs, as a lockfile cause, a configuration cause and a cause
/// for the remaining files, each present only when it has files.
pub open spec fn spec_input_causes(before: Map<Seq<char>, Seq<char>>, after: Map<Seq<char>, Seq<char>>) -> Seq<CauseView> {
    let changed = sorted_keys(changed_set(before, after));
    let locks = select(changed, FileClass::Lockfile);
    let config = select(changed, FileClass::TaskConfig);
    let ordinary = select(changed, FileClass::Ordinary);
    (if locks.len() > 0 {
        seq![spec_file_cause(CauseKind::DependencyGraph, "A dependency lockfile changed"@, 96, locks, before, after)]
    } else {
        Seq::empty()
    }) + (if config.len() > 0 {
        seq![spec_file_cause(CauseKind::TaskConfiguration, "Task or workspace configuration changed"@, 94, config, before, after)]
    } else {
        Seq::empty()
    }) + (if ordinary.len() > 0 {
        seq![spec_file_cause(
            CauseKind::InputFile,
            dec(ordinary.len()) + " task input file(s) changed"@,
            if ordinary.len() == 1 { 95u8 } else { 91u8 },
            ordinary,
            before,
            after,
        )]
    } else {
        Seq::empty()
    })
}

pub fn add_input_causes(causes: &mut Vec<Cause>, before: &SortedMap<String>, after: &SortedMap<String>)
    ensures
        cause_views(final(causes)@) == cause_views(old(causes)@) + spec_input_causes(before@, after@),
{
    let changed = changed_keys(before, after);
    let locks = select_paths(&changed, FileClass::Lockfile);
    let config = select_paths(&changed, FileClass::TaskConfig);
    let ordinary = select_paths(&changed, FileClass::Ordinary);
    let ghost start = cause_views(causes@);
    let ghost c1 = if locks.len() > 0 {
        seq![spec_file_cause(CauseKind::DependencyGraph, "A dependency lockfile changed"@, 96, locks.deep_view(), before@, after@)]
    } else {
        Seq::empty()
    };
    let ghost c2 = if config.len() > 0 {
        seq![spec_file_cause(CauseKind::TaskConfiguration, "Task or workspace configuration changed"@, 94, config.deep_view(), before@, after@)]
    } else {
        Seq::empty()
    };
    if locks.len() > 0 {
        let c = file_cause(CauseKind::DependencyGraph, owned("A dependency lockfile changed"), 96, &locks, before, after);
        let ghost prev = causes@;
        causes.push(c);
        assert(causes@ == prev.push(c));
    }
    assert(cause_views(causes@) =~= start + c1);
    if config.len() > 0 {
        let c = file_cause(CauseKind::TaskConfiguration, owned("Task or workspace configuration changed"), 94, &config, before, after);
        let ghost prev = causes@;
        causes.push(c);
        assert(causes@ == prev.push(c));
    }
    assert(cause_views(causes@) =~= start + c1 + c2);
    if ordinary.len() > 0 {
        let mut summary = decimal(ordinary.len() as u64);
        push_str(&mut summary, " task input file(s) changed");
        let confidence: u8 = if ordinary.len() == 1 { 95 } else { 91 };
        let c = file_cause(CauseKind::InputFile, summary, confidence, &ordinary, before, after);
        let ghost prev = causes@;
        causes.push(c);
        assert(causes@ == prev.push(c));
    }
    assert(cause_views(causes@) =~= start + spec_input_causes(before@, after@));
}

} // verus!

verus! {

// ---------------------------------------------------------------------
// Environment
// ---------------------------------------------------------------------

pub open spec fn env_detail() -> Seq<char> {
    "Only the variable name and Turborepo fingerprint are shown; values are never recorded by WhyCache."@
}

/// The fingerprint of `name`: the task's binding, else the global one.
pub open spec fn env_value(
    task: Map<Seq<char>, Option<Seq<char>>>,
    global: Map<Seq<char>, Option<Seq<char>>>,
    name: Seq<char>,
) -> Option<Seq<char>> {
    if task.dom().contains(name) {
        task[name]
    } else if global.dom().contains(name) {
        global[name]
    } else {
        None
    }
}

pub open spec fn env_evidence(
    name: Seq<char>,
    task_before: Map<Seq<char>, Option<Seq<char>>>,
    task_after: Map<Seq<char>, Option<Seq<char>>>,
    global_before: Map<Seq<char>, Option<Seq<char>>>,
    global_after: Map<Seq<char>, Option<Seq<char>>>,
) -> EvidenceView {
    EvidenceView {
        source: name,
        before: env_value(task_before, global_before, name),
        after: env_value(task_after, global_after, name),
        detail: Some(env_detail()),
    }
}

pub open spec fn env_evidence_list(
    names: Seq<Seq<char>>,
    task_before: Map<Seq<char>, Option<Seq<char>>>,
    task_after: Map<Seq<char>, Option<Seq<char>>>,
    global_before: Map<Seq<char>, Option<Seq<char>>>,
    global_after: Map<Seq<char>, Option<Seq<char>>>,
) -> Seq<EvidenceView> {
    names.map_values(|n: Seq<char>| env_evidence(n, task_before, task_after, global_before, global_after))
}

/// The variables whose task or global fingerprint changed, in order.
pub open spec fn changed_env_names(
    task_before: Map<Seq<char>, Option<Seq<char>>>,
    task_after: Map<Seq<char>, Option<Seq<char>>>,
    global_before: Map<Seq<char>, Option<Seq<char>>>,
    global_after: Map<Seq<char>, Option<Seq<char>>>,
) -> Seq<Seq<char>> {
    sorted_keys(changed_set(task_before, task_after).union(changed_set(global_before, global_after)))
}

/// One cause listing every variable whose fingerprint changed, if any did.
pub open spec fn spec_environment_causes(
    task_before: Map<Seq<char>, Option<Seq<char>>>,
    task_after: Map<Seq<char>, Option<Seq<char>>>,
    global_before: Map<Seq<char>, Option<Seq<char>>>,
    global_after: Map<Seq<char>, Option<Seq<char>>>,
) -> Seq<CauseView> {
    let names = changed_env_names(task_before, task_after, global_before, global_after);
    if names.len() == 0 {
        Seq::empty()
    } else {
        seq![CauseView {
            kind: CauseKind::Environment,
            summary: dec(names.len()) + " environment fingerprint(s) changed"@,
            confidence: 98,
            evidence: env_evidence_list(names, task_before, task_after, global_before, global_after),
        }]
    }
}

fn env_lookup(task: &SortedMap<Option<String>>, global: &SortedMap<Option<String>>, name: &str) -> (r: Option<String>)
    ensures
        r.deep_view() == env_value(task@, global@, name@),
{
    match task.get(name) {
        Some(v) => v.deep_clone(),
        None => match global.get(name) {
            Some(v) => v.deep_clone(),
            None => None,
        },
    }
}

/// The union of two string lists as an ascending list.
pub fn sorted_union(a: &Vec<String>, b: &Vec<String>) -> (r: Vec<String>)
    ensures
        r.deep_view() == sorted_keys(a.deep_view().to_set().union(b.deep_view().to_set())),
{
    let mut set: SortedMap<bool> = SortedMap::new();
    let ghost av = a.deep_view();
    let ghost bv = b.deep_view();
    let mut i: usize = 0;
    while i < a.len()
        invariant
            i <= a.len(),
            av == a.deep_view(),
            forall|k: Seq<char>| set@.dom().contains(k) <==> (exists|x: int| 0 <= x < i && #[trigger] av[x] == k),
        decreases a.len() - i,
    {
        set.insert(a[i].clone(), true);
        assert(av[i as int] == a@[i as int]@);
        i = i + 1;
    }
    let mut j: usize = 0;
    while j < b.len()
        invariant
            j <= b.len(),
            i == a.len(),
            av == a.deep_view(),
            bv == b.deep_view(),
            forall|k: Seq<char>| set@.dom().contains(k) <==> ((exists|x: int| 0 <= x < i && #[trigger] av[x] == k)
                || (exists|x: int| 0 <= x < j && #[trigger] bv[x] == k)),
        decreases b.len() - j,
    {
        set.insert(b[j].clone(), true);
        assert(bv[j as int] == b@[j as int]@);
        j = j + 1;
    }
    assert forall|k: Seq<char>| set@.dom().contains(k) <==> a.deep_view().to_set().union(b.deep_view().to_set()).contains(k) by {
        if av.contains(k) {
            let x = choose|x: int| 0 <= x < av.len() && av[x] == k;
        }
        if bv.contains(k) {
            let x = choose|x: int| 0 <= x < bv.len() && bv[x] == k;
        }
    };
    assert(set@.dom() =~= a.deep_view().to_set().union(b.deep_view().to_set()));
    set.keys()
}

pub fn add_environment_causes(
    causes: &mut Vec<Cause>,
    task_before: &SortedMap<Option<String>>,
    task_after: &SortedMap<Option<String>>,
    global_before: &SortedMap<Option<String>>,
    global_after: &SortedMap<Option<String>>,
)
    ensures
        cause_views(final(causes)@) == cause_views(old(causes)@)
            + spec_environment_causes(task_before@, task_after@, global_before@, global_after@),
{
    let task_changed = changed_keys(task_before, task_after);
    let global_changed = changed_keys(global_before, global_after);
    let names = sorted_union(&task_changed, &global_changed);
    proof {
        assert(task_changed.deep_view().to_set() =~= changed_set(task_before@, task_after@));
        assert(global_changed.deep_view().to_set() =~= changed_set(global_before@, global_after@));
    }
    let ghost gnames = changed_env_names(task_before@, task_after@, global_before@, global_after@);
    assert(names.deep_view() == gnames);
    if names.len() == 0 {
        assert(cause_views(causes@) =~= cause_views(causes@) + spec_environment_causes(task_before@, task_after@, global_before@, global_after@));
        return;
    }
    let mut evidence: Vec<Evidence> = Vec::new();
    let mut i: usize = 0;
    while i < names.len()
        invariant
            i <= names.len(),
            names.deep_view() == gnames,
            evidence_views(evidence@) == env_evidence_list(gnames.take(i as int), task_before@, task_after@, global_before@, global_after@),
        decreases names.len() - i,
    {
        let name = names[i].as_str();
        let e = Evidence {
            source: names[i].clone(),
            before: env_lookup(task_before, global_before, name),
            after: env_lookup(task_after, global_after, name),
            detail: Some(owned("Only the variable name and Turborepo fingerprint are shown; values are never recorded by WhyCache.")),
        };
        let ghost prev = evidence@;
        assert(evidence_views(prev).len() == i);
        evidence.push(e);
        assert(evidence_views(evidence@) =~= evidence_views(prev).push(e@));
        assert(env_evidence_list(gnames.take(i + 1), task_before@, task_after@, global_before@, global_after@)
            =~= env_evidence_list(gnames.take(i as int), task_before@, task_after@, global_before@, global_after@).push(e@));
        i = i + 1;
    }
    assert(gnames.take(i as int) =~= gnames);
    let mut summary = decimal(names.len() as u64);
    push_str(&mut summary, " environment fingerprint(s) changed");
    let c = Cause { kind: CauseKind::Environment, summary, confidence: 98, evidence };
    let ghost prev = causes@;
    causes.push(c);
    assert(causes@ == prev.push(c));
    assert(cause_views(causes@) =~= cause_views(prev) + spec_environment_causes(task_before@, task_after@, global_before@, global_after@));
}

} // verus!

verus! {

// ---------------------------------------------------------------------
// Global inputs
// ---------------------------------------------------------------------

/// The first of `a` and `b` that is present.
pub open spec fn or_else(a: Option<Seq<char>>, b: Option<Seq<char>>) -> Option<Seq<char>> {
    if a is Some {
        a
    } else {
        b
    }
}

/// The engine constraints that changed, if any.
pub open spec fn spec_engines_detail(before: Map<Seq<char>, Seq<char>>, after: Map<Seq<char>, Seq<char>>) -> Option<Seq<char>> {
    let changed = sorted_keys(changed_set(before, after));
    if changed.len() == 0 {
        None
    } else {
        Some("Changed engine constraints: "@ + crate::text::join(changed, ", "@))
    }
}

pub fn engines_detail(before: &SortedMap<String>, after: &SortedMap<String>) -> (r: Option<String>)
    ensures
        r.deep_view() == spec_engines_detail(before@, after@),
{
    let changed = changed_keys(before, after);
    if changed.len() == 0 {
        None
    } else {
        let mut s = owned("Changed engine constraints: ");
        let joined = crate::text::join_strings(&changed, ", ");
        push_str(&mut s, joined.as_str());
        Some(s)
    }
}

pub open spec fn pipeline_detail() -> Seq<char> {
    "The raw pipeline is omitted because arbitrary configuration can contain sensitive values."@
}

/// Causes in the repository-wide inputs: changed global files, a changed
/// dependency graph or engine constraints, and a changed root pipeline.
pub open spec fn spec_global_causes(before: &crate::model::GlobalCacheInputs, after: &crate::model::GlobalCacheInputs) -> Seq<CauseView> {
    let files = sorted_keys(changed_set(before.files@, after.files@));
    (if files.len() > 0 {
        seq![spec_file_cause(
            CauseKind::GlobalInput,
            dec(files.len()) + " global dependency file(s) changed"@,
            93,
            files,
            before.files@,
            after.files@,
        )]
    } else {
        Seq::empty()
    }) + (if before.root_key.deep_view() != after.root_key.deep_view()
        || before.hash_of_external_dependencies.deep_view() != after.hash_of_external_dependencies.deep_view()
        || before.hash_of_internal_dependencies.deep_view() != after.hash_of_internal_dependencies.deep_view()
        || before.engines@ != after.engines@ {
        seq![CauseView {
            kind: CauseKind::DependencyGraph,
            summary: "The global dependency graph or runtime engines changed"@,
            confidence: 92,
            evidence: seq![EvidenceView {
                source: "globalCacheInputs"@,
                before: or_else(before.hash_of_external_dependencies.deep_view(), before.root_key.deep_view()),
                after: or_else(after.hash_of_external_dependencies.deep_view(), after.root_key.deep_view()),
                detail: spec_engines_detail(before.engines@, after.engines@),
            }],
        }]
    } else {
        Seq::empty()
    }) + (if before.root_pipeline.deep_view() != after.root_pipeline.deep_view() {
        seq![CauseView {
            kind: CauseKind::TaskConfiguration,
            summary: "The repository-wide Turborepo pipeline changed"@,
            confidence: 95,
            evidence: seq![EvidenceView {
                source: "globalCacheInputs.rootPipeline"@,
                before: None,
                after: None,
                detail: Some(pipeline_detail()),
            }],
        }]
    } else {
        Seq::empty()
    })
}

fn first_present(a: &Option<String>, b: &Option<String>) -> (r: Option<String>)
    ensures
        r.deep_view() == or_else(a.deep_view(), b.deep_view()),
{
    match a {
        Some(s) => Some(s.clone()),
        None => b.deep_clone(),
    }
}

/// A cause with one piece of evidence.
fn single_cause(kind: CauseKind, summary: &str, confidence: u8, evidence: Evidence) -> (r: Cause)
    ensures
        r@ == (CauseView { kind, summary: summary@, confidence, evidence: seq![evidence@] }),
{
    let mut list: Vec<Evidence> = Vec::new();
    list.push(evidence);
    assert(evidence_views(list@) =~= seq![evidence@]);
    Cause { kind, summary: owned(summary), confidence, evidence: list }
}

fn push_cause(causes: &mut Vec<Cause>, c: Cause)
    ensures
        cause_views(final(causes)@) == cause_views(old(causes)@).push(c@),
{
    let ghost prev = causes@;
    causes.push(c);
    assert(causes@ == prev.push(c));
    assert(cause_views(causes@) =~= cause_views(prev).push(c@));
}

pub fn add_global_causes(causes: &mut Vec<Cause>, before: &crate::model::GlobalCacheInputs, after: &crate::model::GlobalCacheInputs)
    ensures
        cause_views(final(causes)@) == cause_views(old(causes)@) + spec_global_causes(before, after),
{
    proof {
        use_type_invariant(&before.engines);
        use_type_invariant(&after.engines);
    }
    let ghost start = cause_views(causes@);
    let changed_files = changed_keys(&before.files, &after.files);
    let ghost files = sorted_keys(changed_set(before.files@, after.files@));
    let ghost c1 = if files.len() > 0 {
        seq![spec_file_cause(CauseKind::GlobalInput, dec(files.len()) + " global dependency file(s) changed"@, 93, files, before.files@, after.files@)]
    } else {
        Seq::<CauseView>::empty()
    };
    if changed_files.len() > 0 {
        let mut summary = decimal(changed_files.len() as u64);
        push_str(&mut summary, " global dependency file(s) changed");
        let c = file_cause(CauseKind::GlobalInput, summary, 93, &changed_files, &before.files, &after.files);
        push_cause(causes, c);
    }
    assert(cause_views(causes@) =~= start + c1);
    let graph_changed = !before.root_key.deep_eq(&after.root_key)
        || !before.hash_of_external_dependencies.deep_eq(&after.hash_of_external_dependencies)
        || !before.hash_of_internal_dependencies.deep_eq(&after.hash_of_internal_dependencies)
        || !before.engines.same_as(&after.engines);
    let ghost mid = cause_views(causes@);
    if graph_changed {
        let e = Evidence {
            source: owned("globalCacheInputs"),
            before: first_present(&before.hash_of_external_dependencies, &before.root_key),
            after: first_present(&after.hash_of_external_dependencies, &after.root_key),
            detail: engines_detail(&before.engines, &after.engines),
        };
        let c = single_cause(CauseKind::DependencyGraph, "The global dependency graph or runtime engines changed", 92, e);
        push_cause(causes, c);
    }
    let ghost mid2 = cause_views(causes@);
    if !before.root_pipeline.deep_eq(&after.root_pipeline) {
        let e = Evidence {
            source: owned("globalCacheInputs.rootPipeline"),
            before: None,
            after: None,
            detail: Some(owned("The raw pipeline is omitted because arbitrary configuration can contain sensitive values.")),
        };
        let c = single_cause(CauseKind::TaskConfiguration, "The repository-wide Turborepo pipeline changed", 95, e);
        push_cause(causes, c);
    }
    assert(cause_views(causes@) =~= start + spec_global_causes(before, after));
}

// ---------------------------------------------------------------------
// Task configuration
// ---------------------------------------------------------------------

/// `c` upper-cased, with `-` written as `_`.
pub open spec fn norm_char(c: char) -> char {
    let u = crate::text::upper(c);
    if u == '-' {
        '_'
    } else {
        u
    }
}

pub open spec fn normalize_name(s: Seq<char>) -> Seq<char> {
    s.map_values(|c: char| norm_char(c))
}

/// The name, without leading dashes, upper-cased and with `-` as `_`,
/// contains one of the markers of a secret.
pub open spec fn spec_sensitive_name(name: Seq<char>) -> bool {
    let n = normalize_name(crate::text::trim_start_char(name, '-'));
    ||| crate::text::contains_seq(n, "TOKEN"@)
    ||| crate::text::contains_seq(n, "SECRET"@)
    ||| crate::text::contains_seq(n, "PASSWORD"@)
    ||| crate::text::contains_seq(n, "PASSWD"@)
    ||| crate::text::contains_seq(n, "API_KEY"@)
    ||| crate::text::contains_seq(n, "AUTH"@)
    ||| crate::text::contains_seq(n, "CREDENTIAL"@)
}

fn marker_in(n: &Vec<char>, marker: &str) -> (r: bool)
    ensures
        r == crate::text::contains_seq(n@, marker@),
{
    let m = crate::text::chars_of(marker);
    crate::text::chars_contains(n, &m)
}

pub fn sensitive_name(name: &str) -> (r: bool)
    ensures
        r == spec_sensitive_name(name@),
{
    let trimmed = crate::text::trim_start_matches_char(name, '-');
    let t = crate::text::chars_of(trimmed.as_str());
    let mut n: Vec<char> = Vec::new();
    let mut i: usize = 0;
    while i < t.len()
        invariant
            i <= t.len(),
            n@ == normalize_name(t@.take(i as int)),
        decreases t.len() - i,
    {
        let u = crate::text::upper_char(t[i]);
        let c = if u == '-' { '_' } else { u };
        n.push(c);
        i = i + 1;
        assert(n@ =~= normalize_name(t@.take(i as int)));
    }
    assert(t@.take(i as int) =~= t@);
    marker_in(&n, "TOKEN") || marker_in(&n, "SECRET") || marker_in(&n, "PASSWORD") || marker_in(&n, "PASSWD")
        || marker_in(&n, "API_KEY") || marker_in(&n, "AUTH") || marker_in(&n, "CREDENTIAL")
}

/// A word of a command with the value of a secret-looking `NAME=value`
/// assignment replaced.
pub open spec fn redact_part(part: Seq<char>) -> Seq<char> {
    match crate::text::split_once(part, '=') {
        Some((name, _)) => if spec_sensitive_name(name) {
            name + "=<redacted>"@
        } else {
            part
        },
        None => part,
    }
}

pub open spec fn redact_parts(parts: Seq<Seq<char>>) -> Seq<Seq<char>> {
    parts.map_values(|p: Seq<char>| redact_part(p))
}

/// Redaction hides the value of every assignment to a sensitive name, and
/// redacting a word again changes nothing.
pub proof fn law_redaction(part: Seq<char>)
    ensures
        redact_part(redact_part(part)) == redact_part(part),
        match crate::text::split_once(redact_part(part), '=') {
            Some((name, value)) => spec_sensitive_name(name) ==> value == "<redacted>"@,
            None => true,
        },
{
    match crate::text::split_once(part, '=') {
        Some((name, _)) => {
            if spec_sensitive_name(name) {
                lemma_redacted_split(part, name);
            }
        },
        None => {},
    }
}

/// Redacting a whole redacted command changes nothing.
pub proof fn law_redact_command(command: Seq<char>)
    ensures
        spec_redact_command(spec_redact_command(command)) == spec_redact_command(command),
{
    let parts = crate::text::words(command);
    crate::text::lemma_words_are_words(command);
    let redacted = redact_parts(parts);
    assert forall|i: int| 0 <= i < redacted.len() implies crate::text::is_word(#[trigger] redacted[i]) by {
        lemma_redacted_word(parts[i]);
    };
    crate::text::lemma_words_of_join(redacted);
    assert forall|i: int| 0 <= i < redacted.len() implies #[trigger] redact_part(redacted[i]) == redacted[i] by {
        law_redaction(parts[i]);
    };
    assert(redact_parts(redacted) =~= redacted);
}

/// A redacted word is still a word.
proof fn lemma_redacted_word(part: Seq<char>)
    requires
        crate::text::is_word(part),
    ensures
        crate::text::is_word(redact_part(part)),
{
    if let Some((name, _)) = crate::text::split_once(part, '=') {
        if spec_sensitive_name(name) {
            reveal_strlit("=<redacted>");
            assert(part.contains('='));
            crate::text::lemma_first_index(part, '=');
            let tail = "=<redacted>"@;
            assert forall|k: int| 0 <= k < tail.len() implies !crate::text::is_ws(#[trigger] tail[k]) by {
                assert(tail =~= seq!['=', '<', 'r', 'e', 'd', 'a', 'c', 't', 'e', 'd', '>']);
            };
            let r = name + tail;
            assert forall|k: int| 0 <= k < r.len() implies !crate::text::is_ws(#[trigger] r[k]) by {
                if k < name.len() {
                    assert(r[k] == part[k]);
                } else {
                    assert(r[k] == tail[k - name.len()]);
                }
            };
        }
    }
}

proof fn lemma_redacted_split(part: Seq<char>, name: Seq<char>)
    requires
        crate::text::split_once(part, '=') matches Some((n, _)) && n == name,
    ensures
        crate::text::split_once(name + "=<redacted>"@, '=') == Some((name, "<redacted>"@)),
{
    reveal_strlit("=<redacted>");
    reveal_strlit("<redacted>");
    crate::text::lemma_first_index(part, '=');
    let i = crate::text::first_index(part, '=')->0;
    assert(name =~= part.take(i));
    let r = name + "=<redacted>"@;
    assert(r[name.len() as int] == '=');
    assert forall|k: int| 0 <= k < name.len() implies r[k] != '=' by {
        assert(r[k] == part[k]);
    };
    crate::text::lemma_first_index(r, '=');
    let j = crate::text::first_index(r, '=')->0;
    if j < name.len() {
        assert(r[j] != '=');
    }
    if j > name.len() {
        assert(r[name.len() as int] != '=');
    }
    assert(j == name.len());
    assert(r.take(j) =~= name);
    assert(r.skip(j + 1) =~= "<redacted>"@);
}

/// The command's words, each redacted, joined by single spaces.
pub open spec fn spec_redact_command(command: Seq<char>) -> Seq<char> {
    crate::text::join(redact_parts(crate::text::words(command)), " "@)
}

pub fn redact_command(command: &str) -> (r: String)
    ensures
        r@ == spec_redact_command(command@),
{
    let parts = crate::text::split_whitespace(command);
    let mut out: Vec<String> = Vec::new();
    let mut i: usize = 0;
    while i < parts.len()
        invariant
            i <= parts.len(),
            out.deep_view() == redact_parts(parts.deep_view().take(i as int)),
        decreases parts.len() - i,
    {
        let part = parts[i].as_str();
        let redacted = match crate::text::split_once_char(part, '=') {
            Some((name, _value)) => if sensitive_name(name.as_str()) {
                let mut r = name;
                push_str(&mut r, "=<redacted>");
                r
            } else {
                owned(part)
            },
            None => owned(part),
        };
        assert(redacted@ == redact_part(parts.deep_view()[i as int]));
        let ghost prev = out.deep_view();
        out.push(redacted);
        assert(out.deep_view() =~= prev.push(redacted@));
        assert(redact_parts(parts.deep_view().take(i + 1)) =~= redact_parts(parts.deep_view().take(i as int)).push(redacted@));
        i = i + 1;
    }
    assert(parts.deep_view().take(i as int) =~= parts.deep_view());
    crate::text::join_strings(&out, " ")
}

pub open spec fn opt_redact(c: Option<String>) -> Option<Seq<char>> {
    match c {
        Some(s) => Some(spec_redact_command(s@)),
        None => None,
    }
}

/// `dependencies=[..], dependents=[..]` for a task.
pub open spec fn graph_text(t: &crate::model::TaskSummary) -> Seq<char> {
    "dependencies=["@ + crate::text::join(t.dependencies.deep_view(), ", "@) + "], dependents=["@
        + crate::text::join(t.dependents.deep_view(), ", "@) + "]"@
}

pub open spec fn task_def_detail() -> Seq<char> {
    "The raw task definition is omitted because arbitrary configuration can contain sensitive values."@
}

pub open spec fn cause_if(present: bool, c: CauseView) -> Seq<CauseView> {
    if present {
        seq![c]
    } else {
        Seq::empty()
    }
}

pub open spec fn bare_evidence(source: Seq<char>, before: Option<Seq<char>>, after: Option<Seq<char>>) -> EvidenceView {
    EvidenceView { source, before, after, detail: None }
}

pub open spec fn definition_cause(b: &crate::model::TaskSummary, c: &crate::model::TaskSummary) -> Seq<CauseView> {
    cause_if(b.resolved_task_definition.deep_view() != c.resolved_task_definition.deep_view(), CauseView {
        kind: CauseKind::TaskConfiguration,
        summary: "The resolved Turborepo task definition changed"@,
        confidence: 95,
        evidence: seq![EvidenceView { source: "resolvedTaskDefinition"@, before: None, after: None, detail: Some(task_def_detail()) }],
    })
}

pub open spec fn command_cause(b: &crate::model::TaskSummary, c: &crate::model::TaskSummary) -> Seq<CauseView> {
    cause_if(b.command.deep_view() != c.command.deep_view(), CauseView {
        kind: CauseKind::TaskConfiguration,
        summary: "The task command changed"@,
        confidence: 93,
        evidence: seq![bare_evidence("command"@, opt_redact(b.command), opt_redact(c.command))],
    })
}

pub open spec fn external_dependencies_cause(b: &crate::model::TaskSummary, c: &crate::model::TaskSummary) -> Seq<CauseView> {
    cause_if(b.hash_of_external_dependencies.deep_view() != c.hash_of_external_dependencies.deep_view(), CauseView {
        kind: CauseKind::DependencyGraph,
        summary: "The task's external dependency fingerprint changed"@,
        confidence: 94,
        evidence: seq![bare_evidence("hashOfExternalDependencies"@, b.hash_of_external_dependencies.deep_view(), c.hash_of_external_dependencies.deep_view())],
    })
}

pub open spec fn directory_cause(b: &crate::model::TaskSummary, c: &crate::model::TaskSummary) -> Seq<CauseView> {
    cause_if(b.directory.deep_view() != c.directory.deep_view(), CauseView {
        kind: CauseKind::TaskConfiguration,
        summary: "The task package directory changed"@,
        confidence: 91,
        evidence: seq![bare_evidence("directory"@, b.directory.deep_view(), c.directory.deep_view())],
    })
}

pub open spec fn graph_cause(b: &crate::model::TaskSummary, c: &crate::model::TaskSummary) -> Seq<CauseView> {
    cause_if(b.dependents.deep_view() != c.dependents.deep_view() || b.dependencies.deep_view() != c.dependencies.deep_view(), CauseView {
        kind: CauseKind::TaskConfiguration,
        summary: "The task graph edges changed"@,
        confidence: 91,
        evidence: seq![bare_evidence("task graph"@, Some(graph_text(b)), Some(graph_text(c)))],
    })
}

pub open spec fn outputs_cause(b: &crate::model::TaskSummary, c: &crate::model::TaskSummary) -> Seq<CauseView> {
    cause_if(b.outputs.deep_view() != c.outputs.deep_view() || b.excluded_outputs.deep_view() != c.excluded_outputs.deep_view(), CauseView {
        kind: CauseKind::TaskConfiguration,
        summary: "The declared task outputs changed"@,
        confidence: 91,
        evidence: seq![bare_evidence("outputs"@, Some(crate::text::join(b.outputs.deep_view(), ", "@)), Some(crate::text::join(c.outputs.deep_view(), ", "@)))],
    })
}

/// Causes in the task's own configuration: its resolved definition, command,
/// external dependency fingerprint, directory, graph edges and outputs.
pub open spec fn spec_configuration_causes(b: &crate::model::TaskSummary, c: &crate::model::TaskSummary) -> Seq<CauseView> {
    definition_cause(b, c) + command_cause(b, c) + external_dependencies_cause(b, c) + directory_cause(b, c)
        + graph_cause(b, c) + outputs_cause(b, c)
}

/// A change of the task's own configuration or dependency graph ranks
/// between 91 and 95.
pub proof fn law_configuration_confidence(b: &crate::model::TaskSummary, c: &crate::model::TaskSummary)
    ensures
        forall|i: int| 0 <= i < spec_configuration_causes(b, c).len() ==> {
            let x = #[trigger] spec_configuration_causes(b, c)[i];
            &&& x.kind == CauseKind::TaskConfiguration || x.kind == CauseKind::DependencyGraph
            &&& 91 <= x.confidence <= 95
        },
{
    let all = spec_configuration_causes(b, c);
    assert forall|i: int| 0 <= i < all.len() implies {
        let x = #[trigger] all[i];
        &&& x.kind == CauseKind::TaskConfiguration || x.kind == CauseKind::DependencyGraph
        &&& 91 <= x.confidence <= 95
    } by {
        let d = definition_cause(b, c);
        let m = command_cause(b, c);
        let e = external_dependencies_cause(b, c);
        let r = directory_cause(b, c);
        let g = graph_cause(b, c);
        let o = outputs_cause(b, c);
        let k0 = d.len();
        let k1 = k0 + m.len();
        let k2 = k1 + e.len();
        let k3 = k2 + r.len();
        let k4 = k3 + g.len();
        if i < k0 {
            assert(all[i] == d[i]);
        } else if i < k1 {
            assert(all[i] == m[i - k0]);
        } else if i < k2 {
            assert(all[i] == e[i - k1]);
        } else if i < k3 {
            assert(all[i] == r[i - k2]);
        } else if i < k4 {
            assert(all[i] == g[i - k3]);
        } else {
            assert(all[i] == o[i - k4]);
        }
    };
}

fn redact_optional(c: &Option<String>) -> (r: Option<String>)
    ensures
        r.deep_view() == opt_redact(*c),
{
    match c {
        Some(s) => Some(redact_command(s.as_str())),
        None => None,
    }
}

fn graph_description(t: &crate::model::TaskSummary) -> (r: String)
    ensures
        r@ == graph_text(t),
{
    let mut s = owned("dependencies=[");
    let deps = crate::text::join_strings(&t.dependencies, ", ");
    push_str(&mut s, deps.as_str());
    push_str(&mut s, "], dependents=[");
    let dependents = crate::text::join_strings(&t.dependents, ", ");
    push_str(&mut s, dependents.as_str());
    push_str(&mut s, "]");
    s
}

fn add_definition_cause(causes: &mut Vec<Cause>, b: &crate::model::TaskSummary, c: &crate::model::TaskSummary)
    ensures
        cause_views(final(causes)@) == cause_views(old(causes)@) + definition_cause(b, c),
{
    let ghost start = cause_views(causes@);
    if !b.resolved_task_definition.deep_eq(&c.resolved_task_definition) {
        let e = Evidence {
            source: owned("resolvedTaskDefinition"),
            before: None,
            after: None,
            detail: Some(owned("The raw task definition is omitted because arbitrary configuration can contain sensitive values.")),
        };
        push_cause(causes, single_cause(CauseKind::TaskConfiguration, "The resolved Turborepo task definition changed", 95, e));
    }
    assert(cause_views(causes@) =~= start + definition_cause(b, c));
}

fn add_command_cause(causes: &mut Vec<Cause>, b: &crate::model::TaskSummary, c: &crate::model::TaskSummary)
    ensures
        cause_views(final(causes)@) == cause_views(old(causes)@) + command_cause(b, c),
{
    let ghost start = cause_views(causes@);
    if !b.command.deep_eq(&c.command) {
        let e = Evidence { source: owned("command"), before: redact_optional(&b.command), after: redact_optional(&c.command), detail: None };
        push_cause(causes, single_cause(CauseKind::TaskConfiguration, "The task command changed", 93, e));
    }
    assert(cause_views(causes@) =~= start + command_cause(b, c));
}

fn add_external_dependencies_cause(causes: &mut Vec<Cause>, b: &crate::model::TaskSummary, c: &crate::model::TaskSummary)
    ensures
        cause_views(final(causes)@) == cause_views(old(causes)@) + external_dependencies_cause(b, c),
{
    let ghost start = cause_views(causes@);
    if !b.hash_of_external_dependencies.deep_eq(&c.hash_of_external_dependencies) {
        let e = Evidence {
            source: owned("hashOfExternalDependencies"),
            before: b.hash_of_external_dependencies.deep_clone(),
            after: c.hash_of_external_dependencies.deep_clone(),
            detail: None,
        };
        push_cause(causes, single_cause(CauseKind::DependencyGraph, "The task's external dependency fingerprint changed", 94, e));
    }
    assert(cause_views(causes@) =~= start + external_dependencies_cause(b, c));
}

fn add_directory_cause(causes: &mut Vec<Cause>, b: &crate::model::TaskSummary, c: &crate::model::TaskSummary)
    ensures
        cause_views(final(causes)@) == cause_views(old(causes)@) + directory_cause(b, c),
{
    let ghost start = cause_views(causes@);
    if !b.directory.deep_eq(&c.directory) {
        let e = Evidence { source: owned("directory"), before: b.directory.deep_clone(), after: c.directory.deep_clone(), detail: None };
        push_cause(causes, single_cause(CauseKind::TaskConfiguration, "The task package directory changed", 91, e));
    }
    assert(cause_views(causes@) =~= start + directory_cause(b, c));
}

fn add_graph_cause(causes: &mut Vec<Cause>, b: &crate::model::TaskSummary, c: &crate::model::TaskSummary)
    ensures
        cause_views(final(causes)@) == cause_views(old(causes)@) + graph_cause(b, c),
{
    let ghost start = cause_views(causes@);
    if !b.dependents.deep_eq(&c.dependents) || !b.dependencies.deep_eq(&c.dependencies) {
        let e = Evidence { source: owned("task graph"), before: Some(graph_description(b)), after: Some(graph_description(c)), detail: None };
        push_cause(causes, single_cause(CauseKind::TaskConfiguration, "The task graph edges changed", 91, e));
    }
    assert(cause_views(causes@) =~= start + graph_cause(b, c));
}

fn add_outputs_cause(causes: &mut Vec<Cause>, b: &crate::model::TaskSummary, c: &crate::model::TaskSummary)
    ensures
        cause_views(final(causes)@) == cause_views(old(causes)@) + outputs_cause(b, c),
{
    let ghost start = cause_views(causes@);
    if !b.outputs.deep_eq(&c.outputs) || !b.excluded_outputs.deep_eq(&c.excluded_outputs) {
        let e = Evidence {
            source: owned("outputs"),
            before: Some(crate::text::join_strings(&b.outputs, ", ")),
            after: Some(crate::text::join_strings(&c.outputs, ", ")),
            detail: None,
        };
        push_cause(causes, single_cause(CauseKind::TaskConfiguration, "The declared task outputs changed", 91, e));
    }
    assert(cause_views(causes@) =~= start + outputs_cause(b, c));
}

pub fn add_configuration_causes(causes: &mut Vec<Cause>, b: &crate::model::TaskSummary, c: &crate::model::TaskSummary)
    ensures
        cause_views(final(causes)@) == cause_views(old(causes)@) + spec_configuration_causes(b, c),
{
    let ghost start = cause_views(causes@);
    add_definition_cause(causes, b, c);
    add_command_cause(causes, b, c);
    add_external_dependencies_cause(causes, b, c);
    add_directory_cause(causes, b, c);
    add_graph_cause(causes, b, c);
    add_outputs_cause(causes, b, c);
    assert(cause_views(causes@) =~= start + spec_configuration_causes(b, c));
}

// ---------------------------------------------------------------------
// Turborepo version
// ---------------------------------------------------------------------

pub open spec fn spec_version_cause(before: Option<Seq<char>>, after: Option<Seq<char>>) -> Seq<CauseView> {
    cause_if(before != after, CauseView {
        kind: CauseKind::TurboVersion,
        summary: "The Turborepo version changed"@,
        confidence: 84,
        evidence: seq![EvidenceView {
            source: "turboVersion"@,
            before,
            after,
            detail: Some("Hashing behavior can change across Turborepo versions."@),
        }],
    })
}

pub fn add_version_cause(causes: &mut Vec<Cause>, before: &Option<String>, after: &Option<String>)
    ensures
        cause_views(final(causes)@) == cause_views(old(causes)@) + spec_version_cause(before.deep_view(), after.deep_view()),
{
    let ghost start = cause_views(causes@);
    if !before.deep_eq(after) {
        let e = Evidence {
            source: owned("turboVersion"),
            before: before.deep_clone(),
            after: after.deep_clone(),
            detail: Some(owned("Hashing behavior can change across Turborepo versions.")),
        };
        push_cause(causes, single_cause(CauseKind::TurboVersion, "The Turborepo version changed", 84, e));
    }
    assert(cause_views(causes@) =~= start + spec_version_cause(before.deep_view(), after.deep_view()));
}

} // verus!

verus! {

// ---------------------------------------------------------------------
// Upstream tasks
// ---------------------------------------------------------------------

/// Task id to the index of the last task with that id.
pub open spec fn spec_task_index(tasks: Seq<crate::model::TaskSummary>) -> Map<Seq<char>, usize>
    decreases tasks.len(),
{
    if tasks.len() == 0 {
        Map::empty()
    } else {
        spec_task_index(tasks.drop_last()).insert(tasks.last().spec_identity(), (tasks.len() - 1) as usize)
    }
}

pub proof fn lemma_task_index(tasks: Seq<crate::model::TaskSummary>)
    requires
        tasks.len() <= usize::MAX,
    ensures
        forall|k: Seq<char>| #[trigger] spec_task_index(tasks).dom().contains(k) ==> spec_task_index(tasks)[k] < tasks.len()
            && tasks[spec_task_index(tasks)[k] as int].spec_identity() == k,
        forall|i: int| 0 <= i < tasks.len() ==> #[trigger] spec_task_index(tasks).dom().contains(tasks[i].spec_identity()),
    decreases tasks.len(),
{
    if tasks.len() > 0 {
        let prev = tasks.drop_last();
        lemma_task_index(prev);
        let m = spec_task_index(tasks);
        assert forall|k: Seq<char>| #[trigger] m.dom().contains(k) implies m[k] < tasks.len()
            && tasks[m[k] as int].spec_identity() == k by {
            if k == tasks.last().spec_identity() {
                assert(m[k] == tasks.len() - 1);
                assert(tasks[tasks.len() - 1] == tasks.last());
            } else {
                assert(spec_task_index(prev).dom().contains(k));
                assert(m[k] == spec_task_index(prev)[k]);
                assert(prev[spec_task_index(prev)[k] as int] == tasks[spec_task_index(prev)[k] as int]);
            }
        };
        assert forall|i: int| 0 <= i < tasks.len() implies #[trigger] m.dom().contains(tasks[i].spec_identity()) by {
            if i < tasks.len() - 1 {
                assert(prev[i] == tasks[i]);
                assert(spec_task_index(prev).dom().contains(prev[i].spec_identity()));
            }
        };
    }
}

pub fn task_map(tasks: &Vec<crate::model::TaskSummary>) -> (r: SortedMap<usize>)
    ensures
        r@ == spec_task_index(tasks@),
{
    let mut r: SortedMap<usize> = SortedMap::new();
    let mut i: usize = 0;
    assert(r@ =~= spec_task_index(tasks@.take(0)));
    while i < tasks.len()
        invariant
            i <= tasks.len(),
            r@ == spec_task_index(tasks@.take(i as int)),
        decreases tasks.len() - i,
    {
        assert(tasks@.take(i + 1).drop_last() =~= tasks@.take(i as int));
        r.insert(tasks[i].identity(), i);
        i = i + 1;
    }
    assert(tasks@.take(i as int) =~= tasks@);
    r
}

pub open spec fn upstream_detail() -> Seq<char> {
    "This dependency changed first; the current task inherited its hash change."@
}

/// The hash of task `t`.
pub open spec fn task_hash(t: crate::model::TaskSummary) -> Option<Seq<char>> {
    t.hash.deep_view()
}

/// Evidence for each dependency present in both runs whose hash changed.
pub open spec fn upstream_evidence(
    deps: Seq<Seq<char>>,
    before: Seq<crate::model::TaskSummary>,
    after: Seq<crate::model::TaskSummary>,
) -> Seq<EvidenceView>
    decreases deps.len(),
{
    if deps.len() == 0 {
        Seq::empty()
    } else {
        let rest = upstream_evidence(deps.drop_last(), before, after);
        let d = deps.last();
        let bm = spec_task_index(before);
        let am = spec_task_index(after);
        if bm.dom().contains(d) && am.dom().contains(d)
            && task_hash(before[bm[d] as int]) != task_hash(after[am[d] as int]) {
            rest.push(EvidenceView {
                source: d,
                before: task_hash(before[bm[d] as int]),
                after: task_hash(after[am[d] as int]),
                detail: Some(upstream_detail()),
            })
        } else {
            rest
        }
    }
}

/// The dependencies of either version of the task, in order.
pub open spec fn all_dependencies(b: &crate::model::TaskSummary, c: &crate::model::TaskSummary) -> Seq<Seq<char>> {
    sorted_keys(b.dependencies.deep_view().to_set().union(c.dependencies.deep_view().to_set()))
}

/// One cause listing the direct dependencies whose hash changed, if any did.
pub open spec fn spec_upstream_causes(
    b: &crate::model::TaskSummary,
    c: &crate::model::TaskSummary,
    before: Seq<crate::model::TaskSummary>,
    after: Seq<crate::model::TaskSummary>,
) -> Seq<CauseView> {
    let ev = upstream_evidence(all_dependencies(b, c), before, after);
    cause_if(ev.len() > 0, CauseView {
        kind: CauseKind::UpstreamTask,
        summary: dec(ev.len()) + " upstream task hash(es) changed"@,
        confidence: 90,
        evidence: ev,
    })
}

pub fn add_upstream_causes(
    causes: &mut Vec<Cause>,
    b: &crate::model::TaskSummary,
    c: &crate::model::TaskSummary,
    before_tasks: &Vec<crate::model::TaskSummary>,
    before_map: &SortedMap<usize>,
    after_tasks: &Vec<crate::model::TaskSummary>,
    after_map: &SortedMap<usize>,
)
    requires
        before_map@ == spec_task_index(before_tasks@),
        after_map@ == spec_task_index(after_tasks@),
    ensures
        cause_views(final(causes)@) == cause_views(old(causes)@) + spec_upstream_causes(b, c, before_tasks@, after_tasks@),
{
    proof {
        assert(before_tasks@.len() == before_tasks.len());
        assert(after_tasks@.len() == after_tasks.len());
        lemma_task_index(before_tasks@);
        lemma_task_index(after_tasks@);
    }
    let deps = sorted_union(&b.dependencies, &c.dependencies);
    let ghost gdeps = all_dependencies(b, c);
    assert(deps.deep_view() == gdeps);
    let mut evidence: Vec<Evidence> = Vec::new();
    let mut i: usize = 0;
    while i < deps.len()
        invariant
            i <= deps.len(),
            deps.deep_view() == gdeps,
            before_map@ == spec_task_index(before_tasks@),
            after_map@ == spec_task_index(after_tasks@),
            forall|k: Seq<char>| #[trigger] spec_task_index(before_tasks@).dom().contains(k) ==> spec_task_index(before_tasks@)[k] < before_tasks@.len(),
            forall|k: Seq<char>| #[trigger] spec_task_index(after_tasks@).dom().contains(k) ==> spec_task_index(after_tasks@)[k] < after_tasks@.len(),
            evidence_views(evidence@) == upstream_evidence(gdeps.take(i as int), before_tasks@, after_tasks@),
        decreases deps.len() - i,
    {
        let d = deps[i].as_str();
        assert(gdeps.take(i + 1).drop_last() =~= gdeps.take(i as int));
        assert(gdeps.take(i + 1).last() == d@);
        match (before_map.get(d), after_map.get(d)) {
            (Some(bi), Some(ai)) => {
                let bh = &before_tasks[*bi].hash;
                let ah = &after_tasks[*ai].hash;
                if !bh.deep_eq(ah) {
                    let e = Evidence {
                        source: deps[i].clone(),
                        before: bh.deep_clone(),
                        after: ah.deep_clone(),
                        detail: Some(owned("This dependency changed first; the current task inherited its hash change.")),
                    };
                    let ghost prev = evidence@;
                    evidence.push(e);
                    assert(evidence@ == prev.push(e));
                    assert(evidence_views(evidence@) =~= evidence_views(prev).push(e@));
                }
            },
            _ => {},
        }
        i = i + 1;
    }
    assert(gdeps.take(i as int) =~= gdeps);
    let ghost start = cause_views(causes@);
    if evidence.len() > 0 {
        let mut summary = decimal(evidence.len() as u64);
        push_str(&mut summary, " upstream task hash(es) changed");
        assert(evidence_views(evidence@).len() == evidence.len());
        push_cause(causes, Cause { kind: CauseKind::UpstreamTask, summary, confidence: 90, evidence });
    }
    assert(cause_views(causes@) =~= start + spec_upstream_causes(b, c, before_tasks@, after_tasks@));
}

} // verus!
