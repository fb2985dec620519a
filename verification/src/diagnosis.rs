//! Per-task diagnosis and the report over all tasks.
use vstd::prelude::*;
use crate::causes::{
    task_map, add_configuration_causes, add_environment_causes, add_global_causes, add_input_causes,
    add_upstream_causes, add_version_cause, spec_configuration_causes, spec_environment_causes,
    spec_global_causes, spec_input_causes, spec_is_lockfile, spec_is_task_config,
    spec_task_index, spec_upstream_causes, spec_version_cause,
};
use crate::hints::{build_hints, has_kind, spec_build_hints};
use crate::map::{DeepEq, SortedMap, extend_map, sorted_keys};
use crate::graph::{spec_topological_order, task_of, topological_order};
use crate::order::{insert_by, lemma_sort_by, sort_by, strict_order};
use crate::model::{
    CacheStatus, Cause, CauseKind, CauseView, Classification, Evidence, EvidenceView, Report,
    ReportView, RunSummary, SummaryMetadata, SummaryMetadataView, SummaryPair, SummarySource,
    TaskDiagnosis, TaskDiagnosisView, TaskSummary, UnchangedSummary, cause_views,
    diagnosis_views, evidence_views, portable_path, spec_portable_path,
};
use crate::text::{dec, decimal, join, owned, push_str, seq_lt, str_lt};

verus! {

// ---------------------------------------------------------------------
// Cache facts
// ---------------------------------------------------------------------

pub open spec fn fact_if(present: bool, fact: Seq<char>) -> Seq<Seq<char>> {
    if present {
        seq![fact]
    } else {
        Seq::empty()
    }
}

pub open spec fn opt_fact(prefix: Seq<char>, v: Option<String>) -> Seq<Seq<char>> {
    match v {
        Some(s) => seq![prefix + s@],
        None => Seq::empty(),
    }
}

/// What the current summary records about its cache lookup.
pub open spec fn cache_facts(t: &TaskSummary) -> Seq<Seq<char>> {
    opt_fact("source="@, t.cache.source)
        + fact_if(t.cache.remote, "remote=true"@)
        + fact_if(t.cache.local, "local=true"@)
        + opt_fact("artifact="@, t.cache.sha)
        + opt_fact("dirtyHash="@, t.cache.dirty_hash)
        + opt_fact("hashReason="@, t.hash_reason)
        + (match t.cache.time_saved {
            Some(n) => seq!["timeSaved="@ + dec(n as nat) + "ms"@],
            None => Seq::empty(),
        })
}

/// The cache facts joined by `, `, or a fixed sentence when there are none.
pub open spec fn spec_cache_detail(t: &TaskSummary) -> Seq<char> {
    let facts = cache_facts(t);
    if facts.len() == 0 {
        "The summary reports a miss for an identical hash."@
    } else {
        join(facts, ", "@)
    }
}

fn push_fact(facts: &mut Vec<String>, prefix: &str, v: &Option<String>)
    ensures
        final(facts).deep_view() == old(facts).deep_view() + opt_fact(prefix@, *v),
{
    let ghost start = facts.deep_view();
    match v {
        Some(s) => {
            let mut f = owned(prefix);
            push_str(&mut f, s.as_str());
            facts.push(f);
        },
        None => {},
    }
    assert(facts.deep_view() =~= start + opt_fact(prefix@, *v));
}

fn push_flag(facts: &mut Vec<String>, present: bool, fact: &str)
    ensures
        final(facts).deep_view() == old(facts).deep_view() + fact_if(present, fact@),
{
    let ghost start = facts.deep_view();
    if present {
        facts.push(owned(fact));
    }
    assert(facts.deep_view() =~= start + fact_if(present, fact@));
}

#[verifier::spinoff_prover]
pub fn cache_detail(t: &TaskSummary) -> (r: String)
    ensures
        r@ == spec_cache_detail(t),
{
    let mut facts: Vec<String> = Vec::new();
    assert(facts.deep_view() =~= Seq::<Seq<char>>::empty());
    push_fact(&mut facts, "source=", &t.cache.source);
    push_flag(&mut facts, t.cache.remote, "remote=true");
    push_flag(&mut facts, t.cache.local, "local=true");
    push_fact(&mut facts, "artifact=", &t.cache.sha);
    push_fact(&mut facts, "dirtyHash=", &t.cache.dirty_hash);
    push_fact(&mut facts, "hashReason=", &t.hash_reason);
    let ghost before = facts.deep_view();
    match t.cache.time_saved {
        Some(n) => {
            let mut f = owned("timeSaved=");
            let d = decimal(n);
            push_str(&mut f, d.as_str());
            push_str(&mut f, "ms");
            facts.push(f);
        },
        None => {},
    }
    assert(facts.deep_view() =~= cache_facts(t));
    if facts.len() == 0 {
        owned("The summary reports a miss for an identical hash.")
    } else {
        crate::text::join_strings(&facts, ", ")
    }
}

// ---------------------------------------------------------------------
// Ranking causes
// ---------------------------------------------------------------------

/// Position of a kind in the declared order of `CauseKind`.
pub open spec fn kind_rank(k: CauseKind) -> int {
    match k {
        CauseKind::Environment => 0,
        CauseKind::InputFile => 1,
        CauseKind::DependencyGraph => 2,
        CauseKind::GlobalInput => 3,
        CauseKind::TaskConfiguration => 4,
        CauseKind::UpstreamTask => 5,
        CauseKind::TurboVersion => 6,
        CauseKind::CacheUnavailable => 7,
        CauseKind::NewTask => 8,
    }
}

fn kind_position(k: CauseKind) -> (r: u8)
    ensures
        r as int == kind_rank(k),
{
    match k {
        CauseKind::Environment => 0,
        CauseKind::InputFile => 1,
        CauseKind::DependencyGraph => 2,
        CauseKind::GlobalInput => 3,
        CauseKind::TaskConfiguration => 4,
        CauseKind::UpstreamTask => 5,
        CauseKind::TurboVersion => 6,
        CauseKind::CacheUnavailable => 7,
        CauseKind::NewTask => 8,
    }
}

/// `x` is listed before `y`: higher confidence first, then by kind, then by
/// summary.
pub open spec fn cause_before(x: CauseView, y: CauseView) -> bool {
    ||| x.confidence > y.confidence
    ||| x.confidence == y.confidence && kind_rank(x.kind) < kind_rank(y.kind)
    ||| x.confidence == y.confidence && kind_rank(x.kind) == kind_rank(y.kind) && seq_lt(x.summary, y.summary)
}

/// `x` placed into `s` before the first element it precedes.
pub open spec fn insert_cause(x: CauseView, s: Seq<CauseView>) -> Seq<CauseView>
    decreases s.len(),
{
    if s.len() == 0 {
        seq![x]
    } else if cause_before(x, s[0]) {
        seq![x] + s
    } else {
        seq![s[0]] + insert_cause(x, s.drop_first())
    }
}

/// The causes ranked by `cause_before`, equally ranked ones in their order
/// (a stable sort).
pub open spec fn sort_causes(s: Seq<CauseView>) -> Seq<CauseView>
    decreases s.len(),
{
    if s.len() == 0 {
        s
    } else {
        insert_cause(s.last(), sort_causes(s.drop_last()))
    }
}

proof fn lemma_insert_cause(x: CauseView, s: Seq<CauseView>, p: int)
    requires
        0 <= p <= s.len(),
        forall|k: int| 0 <= k < p ==> !cause_before(x, #[trigger] s[k]),
        p < s.len() ==> cause_before(x, s[p]),
    ensures
        insert_cause(x, s) == s.take(p).push(x) + s.skip(p),
    decreases s.len(),
{
    if s.len() == 0 {
        assert(s.take(p).push(x) + s.skip(p) =~= seq![x]);
    } else if p == 0 {
        assert(s.take(p).push(x) + s.skip(p) =~= seq![x] + s);
    } else {
        let t = s.drop_first();
        assert forall|k: int| 0 <= k < p - 1 implies !cause_before(x, #[trigger] t[k]) by {
            assert(t[k] == s[k + 1]);
        };
        lemma_insert_cause(x, t, p - 1);
        assert(s.take(p).push(x) + s.skip(p) =~= seq![s[0]] + (t.take(p - 1).push(x) + t.skip(p - 1)));
    }
}

fn precedes(x: &Cause, y: &Cause) -> (r: bool)
    ensures
        r == cause_before(x@, y@),
{
    if x.confidence != y.confidence {
        return x.confidence > y.confidence;
    }
    let kx = kind_position(x.kind);
    let ky = kind_position(y.kind);
    if kx != ky {
        return kx < ky;
    }
    str_lt(x.summary.as_str(), y.summary.as_str())
}

/// Ranks the causes: highest confidence first, then by kind, then by summary.
pub fn rank_causes(causes: Vec<Cause>) -> (r: Vec<Cause>)
    ensures
        cause_views(r@) == sort_causes(cause_views(causes@)),
{
    let ghost input = cause_views(causes@);
    let mut rest = causes;
    let mut out: Vec<Cause> = Vec::new();
    let mut taken: usize = 0;
    let ghost n = input.len();
    assert(input.take(0) =~= Seq::<CauseView>::empty());
    assert(input.skip(0) =~= input);
    assert(n == rest.len());
    while rest.len() > 0
        invariant
            taken + rest.len() == n,
            n == input.len(),
            n <= usize::MAX,
            cause_views(rest@) == input.skip(taken as int),
            cause_views(out@) == sort_causes(input.take(taken as int)),
        decreases rest.len(),
    {
        let ghost rv = cause_views(rest@);
        let ghost raw = rest@;
        let c = rest.remove(0);
        assert(c == raw[0]);
        assert(rest@ == raw.remove(0));
        assert(rv[0] == c@);
        assert(cause_views(rest@) =~= rv.drop_first());
        assert(rv[0] == input.skip(taken as int)[0]);
        assert(c@ == input[taken as int]);
        let ghost sorted = cause_views(out@);
        let mut p: usize = 0;
        while p < out.len() && !precedes(&c, &out[p])
            invariant
                p <= out.len(),
                sorted == cause_views(out@),
                forall|k: int| 0 <= k < p ==> !cause_before(c@, #[trigger] sorted[k]),
            decreases out.len() - p,
        {
            p = p + 1;
        }
        proof {
            lemma_insert_cause(c@, sorted, p as int);
        }
        let ghost cv = c@;
        out.insert(p, c);
        assert(cause_views(out@) =~= sorted.take(p as int).push(cv) + sorted.skip(p as int));
        assert(input.take(taken + 1).drop_last() =~= input.take(taken as int));
        assert(input.skip(taken as int).drop_first() =~= input.skip(taken + 1));
        taken = taken + 1;
    }
    assert(input.take(taken as int) =~= input);
    out
}

// ---------------------------------------------------------------------
// Classification
// ---------------------------------------------------------------------

/// Some cause other than an upstream change or an unavailable artifact.
pub open spec fn has_direct(causes: Seq<CauseView>) -> bool {
    exists|i: int| 0 <= i < causes.len() && #[trigger] causes[i].kind != CauseKind::UpstreamTask
        && causes[i].kind != CauseKind::CacheUnavailable
}

/// The task's classification from what was found.
pub open spec fn spec_classify(unavailable: bool, same_hash: bool, causes: Seq<CauseView>) -> Classification {
    if unavailable {
        Classification::CacheUnavailable
    } else if same_hash && causes.len() == 0 {
        Classification::Unchanged
    } else if !has_direct(causes) && has_kind(causes, CauseKind::UpstreamTask) {
        Classification::Cascade
    } else if causes.len() > 0 {
        Classification::RootCause
    } else {
        Classification::Unexplained
    }
}

fn classify(unavailable: bool, same_hash: bool, causes: &Vec<Cause>) -> (r: Classification)
    ensures
        r == spec_classify(unavailable, same_hash, cause_views(causes@)),
{
    let ghost cv = cause_views(causes@);
    let mut direct = false;
    let mut upstream = false;
    let mut i: usize = 0;
    while i < causes.len()
        invariant
            i <= causes.len(),
            cv == cause_views(causes@),
            direct == (exists|x: int| 0 <= x < i && #[trigger] cv[x].kind != CauseKind::UpstreamTask
                && cv[x].kind != CauseKind::CacheUnavailable),
            upstream == (exists|x: int| 0 <= x < i && #[trigger] cv[x].kind == CauseKind::UpstreamTask),
        decreases causes.len() - i,
    {
        let k = causes[i].kind;
        assert(cv[i as int].kind == k);
        if k != CauseKind::UpstreamTask && k != CauseKind::CacheUnavailable {
            direct = true;
        }
        if k == CauseKind::UpstreamTask {
            upstream = true;
        }
        i = i + 1;
    }
    if unavailable {
        Classification::CacheUnavailable
    } else if same_hash && causes.len() == 0 {
        Classification::Unchanged
    } else if !direct && upstream {
        Classification::Cascade
    } else if causes.len() > 0 {
        Classification::RootCause
    } else {
        Classification::Unexplained
    }
}

// ---------------------------------------------------------------------
// Unchanged evidence
// ---------------------------------------------------------------------

/// Number of the keys of `keys` that `before` binds as `after` does and
/// that are neither lockfiles nor configuration files.
pub open spec fn count_unchanged_files(keys: Seq<Seq<char>>, before: Map<Seq<char>, Seq<char>>, after: Map<Seq<char>, Seq<char>>) -> nat
    decreases keys.len(),
{
    if keys.len() == 0 {
        0
    } else {
        let k = keys.last();
        count_unchanged_files(keys.drop_last(), before, after) + (if !spec_is_lockfile(k) && !spec_is_task_config(k)
            && after.dom().contains(k) && after[k] == before[k] { 1nat } else { 0nat })
    }
}

/// Number of the names of `keys` bound the same way in `before` and `after`.
pub open spec fn count_same<V>(keys: Seq<Seq<char>>, before: Map<Seq<char>, V>, after: Map<Seq<char>, V>) -> nat
    decreases keys.len(),
{
    if keys.len() == 0 {
        0
    } else {
        let k = keys.last();
        count_same(keys.drop_last(), before, after) + (if after.dom().contains(k) && after[k] == before[k] { 1nat } else { 0nat })
    }
}

/// Which group of paths a comparison covers.
#[derive(Clone, Copy, PartialEq, Eq, Structural)]
pub enum PathGroup {
    Lockfile,
    TurboJson,
}

pub open spec fn in_group(group: PathGroup, path: Seq<char>) -> bool {
    match group {
        PathGroup::Lockfile => spec_is_lockfile(path),
        PathGroup::TurboJson => crate::text::last_segment(path) == "turbo.json"@,
    }
}

fn is_in_group(group: PathGroup, path: &str) -> (r: bool)
    ensures
        r == in_group(group, path@),
{
    match group {
        PathGroup::Lockfile => crate::causes::is_lockfile(path),
        PathGroup::TurboJson => {
            let name = crate::text::last_path_segment(path);
            crate::text::str_eq(name.as_str(), "turbo.json")
        },
    }
}

/// The task inputs and global files in `group`, the global fingerprint
/// winning for a path in both.
pub open spec fn group_files(group: PathGroup, inputs: Map<Seq<char>, Seq<char>>, files: Map<Seq<char>, Seq<char>>) -> Map<Seq<char>, Seq<char>> {
    Map::new(
        |k: Seq<char>| (inputs.dom().contains(k) || files.dom().contains(k)) && in_group(group, k),
        |k: Seq<char>| if files.dom().contains(k) { files[k] } else { inputs[k] },
    )
}

/// Whether the files of `group` are unchanged; `None` when neither run has any.
pub open spec fn spec_path_unchanged(group: PathGroup, b: &TaskSummary, c: &TaskSummary, b_run: &RunSummary, c_run: &RunSummary) -> Option<bool> {
    let before = group_files(group, b.inputs@, b_run.global_cache_inputs.files@);
    let after = group_files(group, c.inputs@, c_run.global_cache_inputs.files@);
    if before.dom() == Set::<Seq<char>>::empty() && after.dom() == Set::<Seq<char>>::empty() {
        None
    } else {
        Some(before == after)
    }
}

fn add_group(out: &mut SortedMap<String>, group: PathGroup, m: &SortedMap<String>)
    ensures
        final(out)@ == extend_map(old(out)@, Map::new(
            |k: Seq<char>| m@.dom().contains(k) && in_group(group, k),
            |k: Seq<char>| m@[k],
        )),
{
    proof {
        use_type_invariant(m);
    }
    let ghost start = out@;
    let n = m.len();
    let mut i: usize = 0;
    while i < n
        invariant
            i <= n,
            n == m.key_seq().len(),
            m.wf(),
            out@ == extend_map(start, Map::new(
                |k: Seq<char>| (exists|x: int| 0 <= x < i && m.key_seq()[x] == k) && in_group(group, k),
                |k: Seq<char>| m@[k],
            )),
        decreases n - i,
    {
        proof { m.lemma_index(i as int); }
        let k = m.key_at(i);
        if is_in_group(group, k.as_str()) {
            out.insert(k.clone(), m.value_at(i).clone());
        }
        i = i + 1;
        assert(out@ =~= extend_map(start, Map::new(
            |k: Seq<char>| (exists|x: int| 0 <= x < i && m.key_seq()[x] == k) && in_group(group, k),
            |k: Seq<char>| m@[k],
        )));
    }
    assert forall|k: Seq<char>| #![auto] m@.dom().contains(k) implies (exists|x: int| 0 <= x < i && m.key_seq()[x] == k) by {
        let x = choose|x: int| 0 <= x < m.key_seq().len() && m.key_seq()[x] == k;
    };
    assert(out@ =~= extend_map(start, Map::new(
        |k: Seq<char>| m@.dom().contains(k) && in_group(group, k),
        |k: Seq<char>| m@[k],
    )));
}

fn collect_group(group: PathGroup, inputs: &SortedMap<String>, files: &SortedMap<String>) -> (r: SortedMap<String>)
    ensures
        r@ == group_files(group, inputs@, files@),
{
    let mut out: SortedMap<String> = SortedMap::new();
    assert(out@ =~= Map::<Seq<char>, Seq<char>>::empty());
    add_group(&mut out, group, inputs);
    add_group(&mut out, group, files);
    assert(out@ =~= group_files(group, inputs@, files@));
    out
}

pub fn path_unchanged(group: PathGroup, b: &TaskSummary, c: &TaskSummary, b_run: &RunSummary, c_run: &RunSummary) -> (r: Option<bool>)
    ensures
        r == spec_path_unchanged(group, b, c, b_run, c_run),
{
    let before = collect_group(group, &b.inputs, &b_run.global_cache_inputs.files);
    let after = collect_group(group, &c.inputs, &c_run.global_cache_inputs.files);
    proof {
        use_type_invariant(&before);
        use_type_invariant(&after);
        before.lemma_key_order();
        after.lemma_key_order();
        if before@.dom() == Set::<Seq<char>>::empty() {
            assert(before.key_seq().len() == 0) by {
                if before.key_seq().len() > 0 {
                    assert(before@.dom().contains(before.key_seq()[0]));
                }
            };
        }
        if after@.dom() == Set::<Seq<char>>::empty() {
            assert(after.key_seq().len() == 0) by {
                if after.key_seq().len() > 0 {
                    assert(after@.dom().contains(after.key_seq()[0]));
                }
            };
        }
        if before.key_seq().len() == 0 {
            assert(before@.dom() =~= Set::<Seq<char>>::empty());
        }
        if after.key_seq().len() == 0 {
            assert(after@.dom() =~= Set::<Seq<char>>::empty());
        }
    }
    if before.len() == 0 && after.len() == 0 {
        None
    } else {
        Some(before.same_as(&after))
    }
}

fn count_files(b: &SortedMap<String>, c: &SortedMap<String>) -> (n: usize)
    ensures
        n == count_unchanged_files(sorted_keys(b@.dom()), b@, c@),
{
    proof {
        use_type_invariant(b);
        b.lemma_key_order();
    }
    let ghost keys = b.key_seq();
    let len = b.len();
    let mut n: usize = 0;
    let mut i: usize = 0;
    while i < len
        invariant
            i <= len,
            len == keys.len(),
            keys == b.key_seq(),
            b.wf(),
            n <= i,
            n == count_unchanged_files(keys.take(i as int), b@, c@),
        decreases len - i,
    {
        proof { b.lemma_index(i as int); }
        let k = b.key_at(i);
        assert(keys.take(i + 1).drop_last() =~= keys.take(i as int));
        let same = !crate::causes::is_lockfile(k.as_str()) && !crate::causes::is_task_config(k.as_str())
            && match c.get(k.as_str()) {
                Some(v) => v.deep_eq(b.value_at(i)),
                None => false,
            };
        if same {
            n = n + 1;
        }
        i = i + 1;
    }
    assert(keys.take(i as int) =~= keys);
    n
}

fn count_same_bindings<V: DeepEq>(b: &SortedMap<V>, c: &SortedMap<V>) -> (n: usize)
    ensures
        n == count_same(sorted_keys(b@.dom()), b@, c@),
{
    proof {
        use_type_invariant(b);
        b.lemma_key_order();
    }
    let ghost keys = b.key_seq();
    let len = b.len();
    let mut n: usize = 0;
    let mut i: usize = 0;
    while i < len
        invariant
            i <= len,
            len == keys.len(),
            keys == b.key_seq(),
            b.wf(),
            n <= i,
            n == count_same(keys.take(i as int), b@, c@),
        decreases len - i,
    {
        proof { b.lemma_index(i as int); }
        let k = b.key_at(i);
        assert(keys.take(i + 1).drop_last() =~= keys.take(i as int));
        let same = match c.get(k.as_str()) {
            Some(v) => v.deep_eq(b.value_at(i)),
            None => false,
        };
        if same {
            n = n + 1;
        }
        i = i + 1;
    }
    assert(keys.take(i as int) =~= keys);
    n
}

/// The fingerprints of a task with the run's global ones added.
pub open spec fn combined_env(t: &TaskSummary, run: &RunSummary) -> Map<Seq<char>, Option<Seq<char>>> {
    extend_map(t.environment_variables.spec_fingerprints(), run.global_cache_inputs.environment_variables.spec_fingerprints())
}

/// Every piece of the task's configuration is the same in both runs.
pub open spec fn same_configuration(b: &TaskSummary, c: &TaskSummary) -> bool {
    &&& b.resolved_task_definition.deep_view() == c.resolved_task_definition.deep_view()
    &&& b.command.deep_view() == c.command.deep_view()
    &&& b.outputs.deep_view() == c.outputs.deep_view()
    &&& b.excluded_outputs.deep_view() == c.excluded_outputs.deep_view()
    &&& b.directory.deep_view() == c.directory.deep_view()
    &&& b.dependencies.deep_view() == c.dependencies.deep_view()
    &&& b.dependents.deep_view() == c.dependents.deep_view()
}

/// What stayed the same for a task present in both runs.
pub open spec fn spec_unchanged_summary(b: &TaskSummary, c: &TaskSummary, b_run: &RunSummary, c_run: &RunSummary) -> UnchangedSummary {
    let before_env = combined_env(b, b_run);
    let after_env = combined_env(c, c_run);
    UnchangedSummary {
        files: count_unchanged_files(sorted_keys(b.inputs@.dom()), b.inputs@, c.inputs@) as usize,
        environment_variables: count_same(sorted_keys(before_env.dom()), before_env, after_env) as usize,
        lockfile: spec_path_unchanged(PathGroup::Lockfile, b, c, b_run, c_run),
        turbo_json: spec_path_unchanged(PathGroup::TurboJson, b, c, b_run, c_run),
        task_configuration: same_configuration(b, c),
    }
}

#[verifier::spinoff_prover]
pub fn unchanged_summary(b: &TaskSummary, c: &TaskSummary, b_run: &RunSummary, c_run: &RunSummary) -> (r: UnchangedSummary)
    ensures
        r == spec_unchanged_summary(b, c, b_run, c_run),
{
    let files = count_files(&b.inputs, &c.inputs);
    let mut before_env = b.environment_variables.fingerprints();
    before_env.extend_from(&b_run.global_cache_inputs.environment_variables.fingerprints());
    let mut after_env = c.environment_variables.fingerprints();
    after_env.extend_from(&c_run.global_cache_inputs.environment_variables.fingerprints());
    let environment_variables = count_same_bindings(&before_env, &after_env);
    let lockfile = path_unchanged(PathGroup::Lockfile, b, c, b_run, c_run);
    let turbo_json = path_unchanged(PathGroup::TurboJson, b, c, b_run, c_run);
    let task_configuration = b.resolved_task_definition.deep_eq(&c.resolved_task_definition)
        && b.command.deep_eq(&c.command) && b.outputs.deep_eq(&c.outputs)
        && b.excluded_outputs.deep_eq(&c.excluded_outputs) && b.directory.deep_eq(&c.directory)
        && b.dependencies.deep_eq(&c.dependencies) && b.dependents.deep_eq(&c.dependents);
    UnchangedSummary { files, environment_variables, lockfile, turbo_json, task_configuration }
}

} // verus!

verus! {

// ---------------------------------------------------------------------
// One task
// ---------------------------------------------------------------------

pub open spec fn new_task_cause(c: &TaskSummary) -> CauseView {
    CauseView {
        kind: CauseKind::NewTask,
        summary: "Task is not present in the baseline run"@,
        confidence: 100,
        evidence: seq![EvidenceView {
            source: c.spec_identity(),
            before: None,
            after: c.hash.deep_view(),
            detail: Some("No baseline task with the same id was found."@),
        }],
    }
}

pub open spec fn unavailable_cause(b: &TaskSummary, c: &TaskSummary) -> CauseView {
    CauseView {
        kind: CauseKind::CacheUnavailable,
        summary: "The task hash is unchanged, but the cached artifact was unavailable"@,
        confidence: 99,
        evidence: seq![EvidenceView {
            source: "task hash"@,
            before: b.hash.deep_view(),
            after: c.hash.deep_view(),
            detail: Some(spec_cache_detail(c)),
        }],
    }
}

/// Every cause found by comparing the task and its runs, before ranking.
pub open spec fn found_causes(b: &TaskSummary, c: &TaskSummary, b_run: &RunSummary, c_run: &RunSummary) -> Seq<CauseView> {
    spec_environment_causes(
        b.environment_variables.spec_fingerprints(),
        c.environment_variables.spec_fingerprints(),
        b_run.global_cache_inputs.environment_variables.spec_fingerprints(),
        c_run.global_cache_inputs.environment_variables.spec_fingerprints(),
    ) + spec_input_causes(b.inputs@, c.inputs@) + spec_global_causes(&b_run.global_cache_inputs, &c_run.global_cache_inputs)
        + spec_configuration_causes(b, c) + spec_upstream_causes(b, c, b_run.tasks@, c_run.tasks@)
        + spec_version_cause(b_run.turbo_version.deep_view(), c_run.turbo_version.deep_view())
}

/// The hash is unchanged, yet the current run missed the cache.
pub open spec fn artifact_unavailable(b: &TaskSummary, c: &TaskSummary) -> bool {
    b.hash is Some && b.hash.deep_view() == c.hash.deep_view() && c.cache.spec_status() == CacheStatus::Miss
}

pub open spec fn ranked_causes(b: &TaskSummary, c: &TaskSummary, b_run: &RunSummary, c_run: &RunSummary) -> Seq<CauseView> {
    let found = found_causes(b, c, b_run, c_run);
    sort_causes(if artifact_unavailable(b, c) { seq![unavailable_cause(b, c)] + found } else { found })
}

pub open spec fn new_task_hint() -> Seq<char> {
    "Verify that the same package and task graph were selected in both runs."@
}

/// The diagnosis of `c`, whose baseline counterpart is `baseline`.
pub open spec fn spec_diagnose_task(baseline: Option<&TaskSummary>, c: &TaskSummary, b_run: &RunSummary, c_run: &RunSummary) -> TaskDiagnosisView {
    match baseline {
        None => TaskDiagnosisView {
            task_id: c.spec_identity(),
            package: c.package@,
            task: c.task@,
            cache_status: c.cache.spec_status(),
            baseline_hash: None,
            current_hash: c.hash.deep_view(),
            classification: Classification::NewTask,
            causes: seq![new_task_cause(c)],
            unchanged: UnchangedSummary { files: 0, environment_variables: 0, lockfile: None, turbo_json: None, task_configuration: false },
            hints: seq![new_task_hint()],
            git_stats: Map::empty(),
        },
        Some(b) => {
            let causes = ranked_causes(b, c, b_run, c_run);
            let classification = spec_classify(artifact_unavailable(b, c), b.hash.deep_view() == c.hash.deep_view(), causes);
            TaskDiagnosisView {
                task_id: c.spec_identity(),
                package: c.package@,
                task: c.task@,
                cache_status: c.cache.spec_status(),
                baseline_hash: b.hash.deep_view(),
                current_hash: c.hash.deep_view(),
                classification,
                causes,
                unchanged: spec_unchanged_summary(b, c, b_run, c_run),
                hints: spec_build_hints(c, classification, causes),
                git_stats: Map::empty(),
            }
        },
    }
}

#[verifier::spinoff_prover]
fn new_task_diagnosis(c: &TaskSummary, b_run: &RunSummary, c_run: &RunSummary) -> (r: TaskDiagnosis)
    ensures
        r@ == spec_diagnose_task(None, c, b_run, c_run),
{
    let id = c.identity();
    let e = Evidence {
        source: id.clone(),
        before: None,
        after: c.hash.deep_clone(),
        detail: Some(owned("No baseline task with the same id was found.")),
    };
    let mut evidence: Vec<Evidence> = Vec::new();
    evidence.push(e);
    assert(evidence_views(evidence@) =~= seq![e@]);
    let cause = Cause { kind: CauseKind::NewTask, summary: owned("Task is not present in the baseline run"), confidence: 100, evidence };
    let mut causes: Vec<Cause> = Vec::new();
    causes.push(cause);
    assert(cause_views(causes@) =~= seq![cause@]);
    let mut hints: Vec<String> = Vec::new();
    hints.push(owned("Verify that the same package and task graph were selected in both runs."));
    assert(hints.deep_view() =~= seq![new_task_hint()]);
    let git_stats = SortedMap::new();
    assert(git_stats@ =~= Map::<Seq<char>, crate::model::GitStat>::empty());
    TaskDiagnosis {
        task_id: id,
        package: c.package.clone(),
        task: c.task.clone(),
        cache_status: c.cache.status(),
        baseline_hash: None,
        current_hash: c.hash.deep_clone(),
        classification: Classification::NewTask,
        causes,
        unchanged: UnchangedSummary { files: 0, environment_variables: 0, lockfile: None, turbo_json: None, task_configuration: false },
        hints,
        git_stats,
    }
}

#[verifier::spinoff_prover]
fn collect_causes(
    b: &TaskSummary,
    c: &TaskSummary,
    b_run: &RunSummary,
    c_run: &RunSummary,
    b_map: &SortedMap<usize>,
    c_map: &SortedMap<usize>,
) -> (r: Vec<Cause>)
    requires
        b_map@ == spec_task_index(b_run.tasks@),
        c_map@ == spec_task_index(c_run.tasks@),
    ensures
        cause_views(r@) == found_causes(b, c, b_run, c_run),
{
    let mut causes: Vec<Cause> = Vec::new();
    assert(cause_views(causes@) =~= Seq::<CauseView>::empty());
    let task_before = b.environment_variables.fingerprints();
    let task_after = c.environment_variables.fingerprints();
    let global_before = b_run.global_cache_inputs.environment_variables.fingerprints();
    let global_after = c_run.global_cache_inputs.environment_variables.fingerprints();
    add_environment_causes(&mut causes, &task_before, &task_after, &global_before, &global_after);
    add_input_causes(&mut causes, &b.inputs, &c.inputs);
    add_global_causes(&mut causes, &b_run.global_cache_inputs, &c_run.global_cache_inputs);
    add_configuration_causes(&mut causes, b, c);
    add_upstream_causes(&mut causes, b, c, &b_run.tasks, b_map, &c_run.tasks, c_map);
    add_version_cause(&mut causes, &b_run.turbo_version, &c_run.turbo_version);
    assert(cause_views(causes@) =~= found_causes(b, c, b_run, c_run));
    causes
}

/// `found` with the unavailable-artifact cause in front.
fn with_unavailable(found: Vec<Cause>, b: &TaskSummary, c: &TaskSummary) -> (r: Vec<Cause>)
    ensures
        cause_views(r@) == seq![unavailable_cause(b, c)] + cause_views(found@),
{
    let ghost fv = cause_views(found@);
    let mut found = found;
    let e = Evidence {
        source: owned("task hash"),
        before: b.hash.deep_clone(),
        after: c.hash.deep_clone(),
        detail: Some(cache_detail(c)),
    };
    let mut evidence: Vec<Evidence> = Vec::new();
    evidence.push(e);
    assert(evidence_views(evidence@) =~= seq![e@]);
    let cause = Cause {
        kind: CauseKind::CacheUnavailable,
        summary: owned("The task hash is unchanged, but the cached artifact was unavailable"),
        confidence: 99,
        evidence,
    };
    let ghost cv0 = cause@;
    found.insert(0, cause);
    assert(cause_views(found@) =~= seq![cv0] + fv);
    found
}

#[verifier::spinoff_prover]
pub fn diagnose_task(
    baseline: Option<&TaskSummary>,
    c: &TaskSummary,
    b_run: &RunSummary,
    c_run: &RunSummary,
    b_map: &SortedMap<usize>,
    c_map: &SortedMap<usize>,
) -> (r: TaskDiagnosis)
    requires
        b_map@ == spec_task_index(b_run.tasks@),
        c_map@ == spec_task_index(c_run.tasks@),
    ensures
        r@ == spec_diagnose_task(baseline, c, b_run, c_run),
{
    let b = match baseline {
        None => {
            return new_task_diagnosis(c, b_run, c_run);
        },
        Some(b) => b,
    };
    let found = collect_causes(b, c, b_run, c_run, b_map, c_map);
    let same_hash = b.hash.is_some() && b.hash.deep_eq(&c.hash);
    let is_miss = c.cache.status() == CacheStatus::Miss;
    let unavailable = same_hash && is_miss;
    let found = if unavailable { with_unavailable(found, b, c) } else { found };
    let causes = rank_causes(found);
    let classification = classify(unavailable, b.hash.deep_eq(&c.hash), &causes);
    let unchanged = unchanged_summary(b, c, b_run, c_run);
    let hints = build_hints(c, classification, &causes);
    let git_stats = SortedMap::new();
    assert(git_stats@ =~= Map::<Seq<char>, crate::model::GitStat>::empty());
    TaskDiagnosis {
        task_id: c.identity(),
        package: c.package.clone(),
        task: c.task.clone(),
        cache_status: c.cache.status(),
        baseline_hash: b.hash.deep_clone(),
        current_hash: c.hash.deep_clone(),
        classification,
        causes,
        unchanged,
        hints,
        git_stats,
    }
}

} // verus!

verus! {

// ---------------------------------------------------------------------
// The report over all tasks
// ---------------------------------------------------------------------

/// Report rows are grouped by this rank: tasks with findings of their own
/// first, then cascades, unexplained misses and unchanged tasks.
pub open spec fn spec_classification_rank(c: Classification) -> int {
    match c {
        Classification::RootCause | Classification::CacheUnavailable | Classification::NewTask => 0,
        Classification::Cascade => 1,
        Classification::Unexplained => 2,
        Classification::Unchanged => 3,
    }
}

fn classification_rank(c: Classification) -> (r: u8)
    ensures
        r == spec_classification_rank(c),
{
    match c {
        Classification::RootCause | Classification::CacheUnavailable | Classification::NewTask => 0,
        Classification::Cascade => 1,
        Classification::Unexplained => 2,
        Classification::Unchanged => 3,
    }
}

/// Row `x` comes before row `y`: by rank, then by the position of the task in
/// the dependency order `order`, then by task id.
pub open spec fn diagnosis_before(x: TaskDiagnosisView, y: TaskDiagnosisView, order: Seq<Seq<char>>) -> bool {
    let rx = spec_classification_rank(x.classification);
    let ry = spec_classification_rank(y.classification);
    let px = order.index_of(x.task_id);
    let py = order.index_of(y.task_id);
    ||| rx < ry
    ||| rx == ry && px < py
    ||| rx == ry && px == py && seq_lt(x.task_id, y.task_id)
}

/// `x` placed into `s` before the first row it precedes.
pub open spec fn insert_diagnosis(x: TaskDiagnosisView, s: Seq<TaskDiagnosisView>, order: Seq<Seq<char>>) -> Seq<TaskDiagnosisView>
    decreases s.len(),
{
    if s.len() == 0 {
        seq![x]
    } else if diagnosis_before(x, s[0], order) {
        seq![x] + s
    } else {
        seq![s[0]] + insert_diagnosis(x, s.drop_first(), order)
    }
}

/// The rows ordered by `diagnosis_before`, equally placed ones in their order
/// (a stable sort).
pub open spec fn sort_diagnoses(s: Seq<TaskDiagnosisView>, order: Seq<Seq<char>>) -> Seq<TaskDiagnosisView>
    decreases s.len(),
{
    if s.len() == 0 {
        s
    } else {
        insert_diagnosis(s.last(), sort_diagnoses(s.drop_last(), order), order)
    }
}

proof fn lemma_insert_diagnosis(x: TaskDiagnosisView, s: Seq<TaskDiagnosisView>, order: Seq<Seq<char>>, p: int)
    requires
        0 <= p <= s.len(),
        forall|k: int| 0 <= k < p ==> !diagnosis_before(x, #[trigger] s[k], order),
        p < s.len() ==> diagnosis_before(x, s[p], order),
    ensures
        insert_diagnosis(x, s, order) == s.take(p).push(x) + s.skip(p),
    decreases s.len(),
{
    if s.len() == 0 {
        assert(s.take(p).push(x) + s.skip(p) =~= seq![x]);
    } else if p == 0 {
        assert(s.take(p).push(x) + s.skip(p) =~= seq![x] + s);
    } else {
        let t = s.drop_first();
        assert forall|k: int| 0 <= k < p - 1 implies !diagnosis_before(x, #[trigger] t[k], order) by {
            assert(t[k] == s[k + 1]);
        };
        lemma_insert_diagnosis(x, t, order, p - 1);
        assert(s.take(p).push(x) + s.skip(p) =~= seq![s[0]] + (t.take(p - 1).push(x) + t.skip(p - 1)));
    }
}

proof fn lemma_index_of(order: Seq<Seq<char>>, p: int)
    requires
        order.no_duplicates(),
        0 <= p < order.len(),
    ensures
        order.index_of(order[p]) == p,
{
    let i = order.index_of(order[p]);
    assert(0 <= i < order.len() && order[i] == order[p]);
}

fn diagnosis_precedes(x: &TaskDiagnosis, px: usize, y: &TaskDiagnosis, py: usize, Ghost(order): Ghost<Seq<Seq<char>>>) -> (r: bool)
    requires
        px == order.index_of(x@.task_id),
        py == order.index_of(y@.task_id),
    ensures
        r == diagnosis_before(x@, y@, order),
{
    let rx = classification_rank(x.classification);
    let ry = classification_rank(y.classification);
    if rx != ry {
        return rx < ry;
    }
    if px != py {
        return px < py;
    }
    str_lt(x.task_id.as_str(), y.task_id.as_str())
}

/// The tasks that the report covers: those matching the filter when there is
/// one, else those that missed the cache or have no known status.
pub open spec fn is_selected(t: TaskSummary, filter: Option<Seq<char>>) -> bool {
    match filter {
        Some(f) => t.spec_matches(f),
        None => t.cache.spec_status() == CacheStatus::Miss || t.cache.spec_status() == CacheStatus::Unknown,
    }
}

/// The task of `run` with id `id`, if there is one.
pub open spec fn baseline_task(run: &RunSummary, id: Seq<char>) -> Option<&TaskSummary> {
    if spec_task_index(run.tasks@).dom().contains(id) {
        Some(&run.tasks@[spec_task_index(run.tasks@)[id] as int])
    } else {
        None
    }
}

/// The diagnoses of the selected tasks among `ids`, in the order of `ids`.
pub open spec fn selected_diagnoses(pair: &SummaryPair, filter: Option<Seq<char>>, ids: Seq<Seq<char>>) -> Seq<TaskDiagnosisView>
    decreases ids.len(),
{
    if ids.len() == 0 {
        Seq::empty()
    } else {
        let prev = selected_diagnoses(pair, filter, ids.drop_last());
        let t = task_of(pair.current.summary.tasks@, ids.last());
        if is_selected(t, filter) {
            prev.push(spec_diagnose_task(baseline_task(&pair.baseline.summary, ids.last()), &t, &pair.baseline.summary, &pair.current.summary))
        } else {
            prev
        }
    }
}

pub open spec fn spec_metadata(s: &SummarySource) -> SummaryMetadataView {
    SummaryMetadataView {
        path: spec_portable_path(s.path@),
        id: s.summary.id.deep_view(),
        schema_version: s.summary.version.deep_view(),
        turbo_version: s.summary.turbo_version.deep_view(),
        commit_sha: s.summary.spec_commit_sha(),
    }
}

/// Where a summary came from and what it says of itself.
pub fn metadata(source: &SummarySource) -> (r: SummaryMetadata)
    ensures
        r@ == spec_metadata(source),
{
    let commit_sha = match source.summary.commit_sha() {
        Some(s) => Some(s.clone()),
        None => None,
    };
    SummaryMetadata {
        path: portable_path(source.path.as_str()),
        id: source.summary.id.deep_clone(),
        schema_version: source.summary.version.deep_clone(),
        turbo_version: source.summary.turbo_version.deep_clone(),
        commit_sha,
    }
}

/// The report on `pair`: each selected task of the current run diagnosed,
/// ordered by `diagnosis_before` along the current run's dependency order.
pub open spec fn spec_analyze(pair: &SummaryPair, filter: Option<Seq<char>>) -> ReportView {
    let c_tasks = pair.current.summary.tasks@;
    ReportView {
        schema_version: "1"@,
        baseline: spec_metadata(&pair.baseline),
        current: spec_metadata(&pair.current),
        tasks: sort_diagnoses(
            selected_diagnoses(pair, filter, sorted_keys(spec_task_index(c_tasks).dom())),
            spec_topological_order(c_tasks),
        ),
        warnings: pair.warnings.deep_view(),
    }
}

pub open spec fn filter_view(filter: Option<&str>) -> Option<Seq<char>> {
    match filter {
        Some(f) => Some(f@),
        None => None,
    }
}

fn selects(t: &TaskSummary, filter: Option<&str>) -> (r: bool)
    ensures
        r == is_selected(*t, filter_view(filter)),
{
    match filter {
        Some(f) => t.matches(f),
        None => {
            let s = t.cache.status();
            s == CacheStatus::Miss || s == CacheStatus::Unknown
        },
    }
}

/// Inserts `d`, whose task is at `pos` in `order`, into the ordered rows
/// `out`, whose tasks are at `ranks`.
#[verifier::spinoff_prover]
fn insert_row(out: &mut Vec<TaskDiagnosis>, ranks: &mut Vec<usize>, d: TaskDiagnosis, pos: usize, Ghost(order): Ghost<Seq<Seq<char>>>)
    requires
        old(ranks).len() == old(out).len(),
        forall|j: int| 0 <= j < old(out).len() ==> old(ranks)@[j] == order.index_of(#[trigger] old(out)@[j]@.task_id),
        pos == order.index_of(d@.task_id),
    ensures
        diagnosis_views(final(out)@) == insert_diagnosis(d@, diagnosis_views(old(out)@), order),
        final(ranks).len() == final(out).len(),
        forall|j: int| 0 <= j < final(out).len() ==> final(ranks)@[j] == order.index_of(#[trigger] final(out)@[j]@.task_id),
{
    let ghost sorted = diagnosis_views(out@);
    let ghost raw = out@;
    let mut p: usize = 0;
    while p < out.len() && !diagnosis_precedes(&d, pos, &out[p], ranks[p], Ghost(order))
        invariant
            p <= out.len(),
            out@ == raw,
            ranks.len() == out.len(),
            sorted == diagnosis_views(out@),
            pos == order.index_of(d@.task_id),
            forall|j: int| 0 <= j < out.len() ==> ranks@[j] == order.index_of(#[trigger] out@[j]@.task_id),
            forall|j: int| 0 <= j < p ==> !diagnosis_before(d@, #[trigger] sorted[j], order),
        decreases out.len() - p,
    {
        assert(sorted[p as int] == out@[p as int]@);
        p = p + 1;
    }
    proof {
        if p < out.len() {
            assert(sorted[p as int] == out@[p as int]@);
        }
        lemma_insert_diagnosis(d@, sorted, order, p as int);
    }
    let ghost dv = d@;
    let ghost old_ranks = ranks@;
    out.insert(p, d);
    ranks.insert(p, pos);
    proof {
        assert(diagnosis_views(out@) =~= sorted.take(p as int).push(dv) + sorted.skip(p as int));
        assert forall|j: int| 0 <= j < out.len() implies ranks@[j] == order.index_of(#[trigger] out@[j]@.task_id) by {
            if j < p {
                assert(out@[j] == raw[j]);
                assert(ranks@[j] == old_ranks[j]);
            } else if j > p {
                assert(out@[j] == raw[j - 1]);
                assert(ranks@[j] == old_ranks[j - 1]);
            }
        };
    }
}

#[verifier::spinoff_prover]
fn diagnose_selected(
    pair: &SummaryPair,
    filter: Option<&str>,
    b_map: &SortedMap<usize>,
    c_map: &SortedMap<usize>,
    positions: &Vec<usize>,
) -> (r: Vec<TaskDiagnosis>)
    requires
        b_map@ == spec_task_index(pair.baseline.summary.tasks@),
        c_map@ == spec_task_index(pair.current.summary.tasks@),
        positions.len() == c_map.key_seq().len(),
        spec_topological_order(pair.current.summary.tasks@).no_duplicates(),
        forall|k: int| #![trigger positions@[k]] 0 <= k < positions.len() ==> positions@[k] < spec_topological_order(pair.current.summary.tasks@).len()
            && spec_topological_order(pair.current.summary.tasks@)[positions@[k] as int] == c_map.key_seq()[k],
    ensures
        diagnosis_views(r@) == sort_diagnoses(
            selected_diagnoses(pair, filter_view(filter), sorted_keys(spec_task_index(pair.current.summary.tasks@).dom())),
            spec_topological_order(pair.current.summary.tasks@),
        ),
{
    let b_run = &pair.baseline.summary;
    let c_run = &pair.current.summary;
    let ghost c_tasks = c_run.tasks@;
    let ghost order = spec_topological_order(c_tasks);
    let ghost fv = filter_view(filter);
    proof {
        use_type_invariant(c_map);
        c_map.lemma_key_order();
        assert(c_tasks.len() == c_run.tasks.len());
        assert(b_run.tasks@.len() == b_run.tasks.len());
        crate::causes::lemma_task_index(c_tasks);
        crate::causes::lemma_task_index(b_run.tasks@);
    }
    let ghost ids = c_map.key_seq();
    let n = c_map.len();
    let mut out: Vec<TaskDiagnosis> = Vec::new();
    let mut ranks: Vec<usize> = Vec::new();
    let mut k: usize = 0;
    assert(ids.take(0) =~= Seq::<Seq<char>>::empty());
    while k < n
        invariant
            k <= n,
            n == ids.len(),
            ids == c_map.key_seq(),
            ids == sorted_keys(spec_task_index(c_tasks).dom()),
            c_map.wf(),
            b_run == &pair.baseline.summary,
            c_run == &pair.current.summary,
            c_tasks == c_run.tasks@,
            order == spec_topological_order(c_tasks),
            order.no_duplicates(),
            fv == filter_view(filter),
            b_map@ == spec_task_index(b_run.tasks@),
            c_map@ == spec_task_index(c_tasks),
            positions.len() == n,
            forall|j: int| #![trigger positions@[j]] 0 <= j < n ==> positions@[j] < order.len() && order[positions@[j] as int] == c_map.key_seq()[j],
            forall|q: Seq<char>| #[trigger] spec_task_index(c_tasks).dom().contains(q) ==> spec_task_index(c_tasks)[q] < c_tasks.len()
                && c_tasks[spec_task_index(c_tasks)[q] as int].spec_identity() == q,
            forall|q: Seq<char>| #[trigger] spec_task_index(b_run.tasks@).dom().contains(q) ==> spec_task_index(b_run.tasks@)[q] < b_run.tasks@.len(),
            diagnosis_views(out@) == sort_diagnoses(selected_diagnoses(pair, fv, ids.take(k as int)), order),
            ranks.len() == out.len(),
            forall|j: int| 0 <= j < out.len() ==> ranks@[j] == order.index_of(#[trigger] out@[j]@.task_id),
        decreases n - k,
    {
        proof {
            c_map.lemma_index(k as int);
            assert(ids.take(k + 1).drop_last() =~= ids.take(k as int));
            assert(ids.take(k + 1).last() == ids[k as int]);
            assert(spec_task_index(c_tasks).dom().contains(ids[k as int]));
        }
        let idx = *c_map.value_at(k);
        let t = &c_run.tasks[idx];
        assert(*t == task_of(c_tasks, ids[k as int]));
        if selects(t, filter) {
            let key = c_map.key_at(k);
            let baseline = match b_map.get(key.as_str()) {
                Some(i) => Some(&b_run.tasks[*i]),
                None => None,
            };
            assert(baseline == baseline_task(b_run, ids[k as int]));
            let d = diagnose_task(baseline, t, b_run, c_run, b_map, c_map);
            let ghost dv = d@;
            let pos = positions[k];
            proof {
                lemma_index_of(order, pos as int);
                assert(d@.task_id == ids[k as int]);
            }
            insert_row(&mut out, &mut ranks, d, pos, Ghost(order));
            proof {
                let prev = selected_diagnoses(pair, fv, ids.take(k as int));
                assert(prev.push(dv).drop_last() =~= prev);
            }
        }
        k = k + 1;
    }
    assert(ids.take(n as int) =~= ids);
    out
}

/// A task filter that matched no task is an error.
pub fn require_match(report: &Report, task: Option<&str>) -> (r: Result<(), crate::error::Error>)
    ensures
        r is Err <==> (task is Some && report.tasks.len() == 0),
        r matches Err(e) ==> e matches crate::error::Error::TaskNotFound(t) && t@ == task->0@,
{
    match task {
        Some(t) => {
            if report.tasks.len() == 0 {
                return Err(crate::error::Error::TaskNotFound(owned(t)));
            }
            Ok(())
        },
        None => Ok(()),
    }
}

/// Diagnoses the tasks of the current run against the baseline run.
pub fn analyze(pair: SummaryPair, task_filter: Option<&str>) -> (r: Report)
    ensures
        r@ == spec_analyze(&pair, filter_view(task_filter)),
{
    let b_map = task_map(&pair.baseline.summary.tasks);
    let c_map = task_map(&pair.current.summary.tasks);
    let positions = topological_order(&pair.current.summary.tasks, &c_map);
    let tasks = diagnose_selected(&pair, task_filter, &b_map, &c_map, &positions);
    let baseline = metadata(&pair.baseline);
    let current = metadata(&pair.current);
    let SummaryPair { baseline: _, current: _, warnings } = pair;
    Report { schema_version: "1", baseline, current, tasks, warnings }
}

} // verus!

verus! {

// ---------------------------------------------------------------------
// Laws of the ordering
// ---------------------------------------------------------------------

pub open spec fn cause_order() -> spec_fn(CauseView, CauseView) -> bool {
    |x: CauseView, y: CauseView| cause_before(x, y)
}

pub open spec fn diagnosis_order(order: Seq<Seq<char>>) -> spec_fn(TaskDiagnosisView, TaskDiagnosisView) -> bool {
    |x: TaskDiagnosisView, y: TaskDiagnosisView| diagnosis_before(x, y, order)
}

proof fn lemma_insert_cause_by(x: CauseView, s: Seq<CauseView>)
    ensures
        insert_cause(x, s) == insert_by(x, s, cause_order()),
    decreases s.len(),
{
    if s.len() > 0 && !cause_before(x, s[0]) {
        lemma_insert_cause_by(x, s.drop_first());
    }
}

proof fn lemma_sort_causes_by(s: Seq<CauseView>)
    ensures
        sort_causes(s) == sort_by(s, cause_order()),
    decreases s.len(),
{
    if s.len() > 0 {
        lemma_sort_causes_by(s.drop_last());
        lemma_insert_cause_by(s.last(), sort_causes(s.drop_last()));
    }
}

proof fn lemma_insert_diagnosis_by(x: TaskDiagnosisView, s: Seq<TaskDiagnosisView>, order: Seq<Seq<char>>)
    ensures
        insert_diagnosis(x, s, order) == insert_by(x, s, diagnosis_order(order)),
    decreases s.len(),
{
    if s.len() > 0 && !diagnosis_before(x, s[0], order) {
        lemma_insert_diagnosis_by(x, s.drop_first(), order);
    }
}

proof fn lemma_sort_diagnoses_by(s: Seq<TaskDiagnosisView>, order: Seq<Seq<char>>)
    ensures
        sort_diagnoses(s, order) == sort_by(s, diagnosis_order(order)),
    decreases s.len(),
{
    if s.len() > 0 {
        lemma_sort_diagnoses_by(s.drop_last(), order);
        lemma_insert_diagnosis_by(s.last(), sort_diagnoses(s.drop_last(), order), order);
    }
}

proof fn lemma_cause_order_strict()
    ensures
        strict_order(cause_order()),
{
    let before = cause_order();
    assert forall|a: CauseView, b: CauseView, c: CauseView| #[trigger] before(a, b) && #[trigger] before(b, c) implies before(a, c) by {
        if a.confidence == b.confidence && b.confidence == c.confidence && kind_rank(a.kind) == kind_rank(b.kind)
            && kind_rank(b.kind) == kind_rank(c.kind) {
            crate::text::lemma_seq_lt_transitive(a.summary, b.summary, c.summary);
        }
    };
    assert forall|a: CauseView, b: CauseView| #[trigger] before(a, b) implies !before(b, a) by {
        if a.confidence == b.confidence && kind_rank(a.kind) == kind_rank(b.kind) {
            crate::text::lemma_seq_lt_asymmetric(a.summary, b.summary);
        }
    };
}

proof fn lemma_diagnosis_order_strict(order: Seq<Seq<char>>)
    ensures
        strict_order(diagnosis_order(order)),
{
    let before = diagnosis_order(order);
    assert forall|a: TaskDiagnosisView, b: TaskDiagnosisView, c: TaskDiagnosisView|
        #[trigger] before(a, b) && #[trigger] before(b, c) implies before(a, c) by {
        if spec_classification_rank(a.classification) == spec_classification_rank(b.classification)
            && spec_classification_rank(b.classification) == spec_classification_rank(c.classification)
            && order.index_of(a.task_id) == order.index_of(b.task_id) && order.index_of(b.task_id) == order.index_of(c.task_id) {
            crate::text::lemma_seq_lt_transitive(a.task_id, b.task_id, c.task_id);
        }
    };
    assert forall|a: TaskDiagnosisView, b: TaskDiagnosisView| #[trigger] before(a, b) implies !before(b, a) by {
        if spec_classification_rank(a.classification) == spec_classification_rank(b.classification)
            && order.index_of(a.task_id) == order.index_of(b.task_id) {
            crate::text::lemma_seq_lt_asymmetric(a.task_id, b.task_id);
        }
    };
}

/// Ranking drops no cause, and lists no cause after one that it precedes:
/// more confident causes come first, then by kind, then by summary.
pub proof fn law_rank_causes(s: Seq<CauseView>)
    ensures
        sort_causes(s).to_multiset() == s.to_multiset(),
        forall|i: int, j: int| 0 <= i < j < sort_causes(s).len() ==> !cause_before(#[trigger] sort_causes(s)[j], #[trigger] sort_causes(s)[i]),
{
    lemma_sort_causes_by(s);
    lemma_cause_order_strict();
    lemma_sort_by(s, cause_order());
}

/// The report drops no diagnosed task, and lists no task after one that it
/// precedes: tasks with findings of their own first, then along the
/// dependency order `order`.
pub proof fn law_report_order(s: Seq<TaskDiagnosisView>, order: Seq<Seq<char>>)
    ensures
        sort_diagnoses(s, order).to_multiset() == s.to_multiset(),
        forall|i: int, j: int| 0 <= i < j < sort_diagnoses(s, order).len()
            ==> !diagnosis_before(#[trigger] sort_diagnoses(s, order)[j], #[trigger] sort_diagnoses(s, order)[i], order),
{
    lemma_sort_diagnoses_by(s, order);
    lemma_diagnosis_order_strict(order);
    lemma_sort_by(s, diagnosis_order(order));
}

} // verus!

verus! {

// ---------------------------------------------------------------------
// Laws of the classification
// ---------------------------------------------------------------------

proof fn lemma_same_members(a: Seq<CauseView>, b: Seq<CauseView>)
    requires
        a.to_multiset() == b.to_multiset(),
    ensures
        a.len() == b.len(),
        forall|y: CauseView| a.contains(y) <==> b.contains(y),
{
    a.to_multiset_ensures();
    b.to_multiset_ensures();
    assert forall|y: CauseView| a.contains(y) <==> b.contains(y) by {
        assert(a.contains(y) == (a.to_multiset().count(y) > 0));
        assert(b.contains(y) == (b.to_multiset().count(y) > 0));
    };
}

proof fn lemma_ranked_members(s: Seq<CauseView>)
    ensures
        sort_causes(s).len() == s.len(),
        has_direct(sort_causes(s)) == has_direct(s),
        forall|k: CauseKind| has_kind(sort_causes(s), k) == #[trigger] has_kind(s, k),
{
    law_rank_causes(s);
    let r = sort_causes(s);
    lemma_same_members(r, s);
    if has_direct(s) {
        let i = choose|i: int| 0 <= i < s.len() && #[trigger] s[i].kind != CauseKind::UpstreamTask
            && s[i].kind != CauseKind::CacheUnavailable;
        assert(s.contains(s[i]));
        let j = choose|j: int| 0 <= j < r.len() && r[j] == s[i];
        assert(r[j].kind != CauseKind::UpstreamTask);
    }
    if has_direct(r) {
        let i = choose|i: int| 0 <= i < r.len() && #[trigger] r[i].kind != CauseKind::UpstreamTask
            && r[i].kind != CauseKind::CacheUnavailable;
        assert(r.contains(r[i]));
        let j = choose|j: int| 0 <= j < s.len() && s[j] == r[i];
        assert(s[j].kind != CauseKind::UpstreamTask);
    }
    assert forall|k: CauseKind| has_kind(r, k) == #[trigger] has_kind(s, k) by {
        if has_kind(s, k) {
            let i = choose|i: int| 0 <= i < s.len() && #[trigger] s[i].kind == k;
            assert(s.contains(s[i]));
            let j = choose|j: int| 0 <= j < r.len() && r[j] == s[i];
            assert(r[j].kind == k);
        }
        if has_kind(r, k) {
            let i = choose|i: int| 0 <= i < r.len() && #[trigger] r[i].kind == k;
            assert(r.contains(r[i]));
            let j = choose|j: int| 0 <= j < s.len() && s[j] == r[i];
            assert(s[j].kind == k);
        }
    };
}

/// A task without a baseline counterpart is a new task.
pub proof fn law_new_task(c: &TaskSummary, b_run: &RunSummary, c_run: &RunSummary)
    ensures
        spec_diagnose_task(None, c, b_run, c_run).classification == Classification::NewTask,
        spec_diagnose_task(None, c, b_run, c_run).causes == seq![new_task_cause(c)],
{
}

/// An unchanged hash with a cache miss means the artifact was unavailable,
/// whatever else differs.
pub proof fn law_cache_unavailable(b: &TaskSummary, c: &TaskSummary, b_run: &RunSummary, c_run: &RunSummary)
    requires
        b.hash is Some,
        b.hash.deep_view() == c.hash.deep_view(),
        c.cache.spec_status() == CacheStatus::Miss,
    ensures
        spec_diagnose_task(Some(b), c, b_run, c_run).classification == Classification::CacheUnavailable,
        has_kind(spec_diagnose_task(Some(b), c, b_run, c_run).causes, CauseKind::CacheUnavailable),
{
    let found = found_causes(b, c, b_run, c_run);
    let all = seq![unavailable_cause(b, c)] + found;
    lemma_ranked_members(all);
    assert(all[0].kind == CauseKind::CacheUnavailable);
    assert(has_kind(all, CauseKind::CacheUnavailable));
}

/// Without an unavailable artifact, a change of the task's own inputs,
/// environment, configuration, dependency graph, global inputs or Turborepo
/// version makes it a root cause.
pub proof fn law_root_cause(b: &TaskSummary, c: &TaskSummary, b_run: &RunSummary, c_run: &RunSummary)
    requires
        !artifact_unavailable(b, c),
        has_direct(found_causes(b, c, b_run, c_run)),
    ensures
        spec_diagnose_task(Some(b), c, b_run, c_run).classification == Classification::RootCause,
{
    let found = found_causes(b, c, b_run, c_run);
    lemma_ranked_members(found);
    let i = choose|i: int| 0 <= i < found.len() && #[trigger] found[i].kind != CauseKind::UpstreamTask
        && found[i].kind != CauseKind::CacheUnavailable;
}

/// Without an unavailable artifact, a task whose only changes are upstream
/// task hashes is a cascade.
pub proof fn law_cascade(b: &TaskSummary, c: &TaskSummary, b_run: &RunSummary, c_run: &RunSummary)
    requires
        !artifact_unavailable(b, c),
        found_causes(b, c, b_run, c_run).len() > 0,
        forall|i: int| 0 <= i < found_causes(b, c, b_run, c_run).len()
            ==> (#[trigger] found_causes(b, c, b_run, c_run)[i]).kind == CauseKind::UpstreamTask,
    ensures
        spec_diagnose_task(Some(b), c, b_run, c_run).classification == Classification::Cascade,
{
    let found = found_causes(b, c, b_run, c_run);
    lemma_ranked_members(found);
    assert(found[0].kind == CauseKind::UpstreamTask);
    assert(has_kind(found, CauseKind::UpstreamTask));
}

/// Whether `name` is bound differently in `before` and `after`: to another
/// fingerprint, or on one side only.
pub open spec fn fingerprint_differs(
    before: Map<Seq<char>, Option<Seq<char>>>,
    after: Map<Seq<char>, Option<Seq<char>>>,
    name: Seq<char>,
) -> bool {
    crate::map::map_get(before, name) != crate::map::map_get(after, name)
}

/// `ranked_causes` lists each cause that was found.
proof fn lemma_ranked_contains(b: &TaskSummary, c: &TaskSummary, b_run: &RunSummary, c_run: &RunSummary, x: CauseView)
    requires
        found_causes(b, c, b_run, c_run).contains(x),
    ensures
        ranked_causes(b, c, b_run, c_run).contains(x),
{
    let found = found_causes(b, c, b_run, c_run);
    let all = if artifact_unavailable(b, c) { seq![unavailable_cause(b, c)] + found } else { found };
    let i = choose|i: int| 0 <= i < found.len() && found[i] == x;
    if artifact_unavailable(b, c) {
        assert(all[i + 1] == x);
    }
    assert(all.contains(x));
    law_rank_causes(all);
    lemma_same_members(sort_causes(all), all);
}

/// For a task in both runs, every variable whose fingerprint differs between
/// the runs, in the task's own environment or in the global one, is named in
/// the evidence of an environment cause of the task, at 98% confidence.
pub proof fn law_environment_evidence(b: &TaskSummary, c: &TaskSummary, b_run: &RunSummary, c_run: &RunSummary, name: Seq<char>)
    requires
        fingerprint_differs(b.environment_variables.spec_fingerprints(), c.environment_variables.spec_fingerprints(), name)
            || fingerprint_differs(
                b_run.global_cache_inputs.environment_variables.spec_fingerprints(),
                c_run.global_cache_inputs.environment_variables.spec_fingerprints(),
                name,
            ),
    ensures
        exists|i: int, j: int| 0 <= i < spec_diagnose_task(Some(b), c, b_run, c_run).causes.len()
            && spec_diagnose_task(Some(b), c, b_run, c_run).causes[i].kind == CauseKind::Environment
            && spec_diagnose_task(Some(b), c, b_run, c_run).causes[i].confidence == 98
            && 0 <= j < spec_diagnose_task(Some(b), c, b_run, c_run).causes[i].evidence.len()
            && (#[trigger] spec_diagnose_task(Some(b), c, b_run, c_run).causes[i].evidence[j]).source == name,
{
    let tb = b.environment_variables.spec_fingerprints();
    let ta = c.environment_variables.spec_fingerprints();
    let gb = b_run.global_cache_inputs.environment_variables.spec_fingerprints();
    let ga = c_run.global_cache_inputs.environment_variables.spec_fingerprints();
    crate::model::lemma_fingerprints_finite(b.environment_variables);
    crate::model::lemma_fingerprints_finite(c.environment_variables);
    crate::model::lemma_fingerprints_finite(b_run.global_cache_inputs.environment_variables);
    crate::model::lemma_fingerprints_finite(c_run.global_cache_inputs.environment_variables);
    crate::model::lemma_changed_set_finite(tb, ta);
    crate::model::lemma_changed_set_finite(gb, ga);
    let set = crate::model::changed_set(tb, ta).union(crate::model::changed_set(gb, ga));
    vstd::set::axiom_set_union_finite(crate::model::changed_set(tb, ta), crate::model::changed_set(gb, ga));
    assert(set.contains(name));
    crate::map::lemma_sorted_keys_exist(set);
    let names = crate::causes::changed_env_names(tb, ta, gb, ga);
    assert(names.contains(name));
    let j = choose|j: int| 0 <= j < names.len() && names[j] == name;
    let env = spec_environment_causes(tb, ta, gb, ga);
    let x = env[0];
    assert(x.kind == CauseKind::Environment && x.confidence == 98);
    assert(x.evidence[j].source == name);
    let found = found_causes(b, c, b_run, c_run);
    assert(found[0] == x);
    assert(found.contains(x));
    lemma_ranked_contains(b, c, b_run, c_run, x);
    let ranked = ranked_causes(b, c, b_run, c_run);
    let i = choose|i: int| 0 <= i < ranked.len() && ranked[i] == x;
    assert(spec_diagnose_task(Some(b), c, b_run, c_run).causes[i] == x);
}

/// Whether `name`'s fingerprint differs in the task's environment or in the
/// global one.
pub open spec fn env_differs(
    task_before: Map<Seq<char>, Option<Seq<char>>>,
    task_after: Map<Seq<char>, Option<Seq<char>>>,
    global_before: Map<Seq<char>, Option<Seq<char>>>,
    global_after: Map<Seq<char>, Option<Seq<char>>>,
    name: Seq<char>,
) -> bool {
    fingerprint_differs(task_before, task_after, name) || fingerprint_differs(global_before, global_after, name)
}

/// The environment causes of a task are one cause when some variable's
/// fingerprint differs, in the task's environment or the global one, and
/// none otherwise; every variable that the cause lists differs, and its
/// summary counts them.
pub proof fn law_environment_cause_names(
    task_before: Map<Seq<char>, Option<Seq<char>>>,
    task_after: Map<Seq<char>, Option<Seq<char>>>,
    global_before: Map<Seq<char>, Option<Seq<char>>>,
    global_after: Map<Seq<char>, Option<Seq<char>>>,
)
    requires
        task_before.dom().finite(),
        task_after.dom().finite(),
        global_before.dom().finite(),
        global_after.dom().finite(),
    ensures
        spec_environment_causes(task_before, task_after, global_before, global_after).len() == 1
            <==> exists|n: Seq<char>| #[trigger] env_differs(task_before, task_after, global_before, global_after, n),
        spec_environment_causes(task_before, task_after, global_before, global_after).len() <= 1,
        forall|j: int| spec_environment_causes(task_before, task_after, global_before, global_after).len() == 1
            && 0 <= j < spec_environment_causes(task_before, task_after, global_before, global_after)[0].evidence.len()
            ==> ({
                let n = (#[trigger] spec_environment_causes(task_before, task_after, global_before, global_after)[0].evidence[j]).source;
                env_differs(task_before, task_after, global_before, global_after, n)
            }),
        spec_environment_causes(task_before, task_after, global_before, global_after).len() == 1 ==> ({
            let cause = spec_environment_causes(task_before, task_after, global_before, global_after)[0];
            cause.kind == CauseKind::Environment && cause.confidence == 98
                && cause.summary == dec(cause.evidence.len()) + " environment fingerprint(s) changed"@
        }),
{
    crate::model::lemma_changed_set_finite(task_before, task_after);
    crate::model::lemma_changed_set_finite(global_before, global_after);
    let set = crate::model::changed_set(task_before, task_after).union(crate::model::changed_set(global_before, global_after));
    vstd::set::axiom_set_union_finite(
        crate::model::changed_set(task_before, task_after),
        crate::model::changed_set(global_before, global_after),
    );
    crate::map::lemma_sorted_keys_exist(set);
    let names = crate::causes::changed_env_names(task_before, task_after, global_before, global_after);
    if exists|n: Seq<char>| #[trigger] env_differs(task_before, task_after, global_before, global_after, n) {
        let n = choose|n: Seq<char>| #[trigger] env_differs(task_before, task_after, global_before, global_after, n);
        assert(set.contains(n));
        assert(names.contains(n));
    }
    if names.len() > 0 {
        assert(names.contains(names[0]));
        assert(set.contains(names[0]));
        assert(env_differs(task_before, task_after, global_before, global_after, names[0]));
    }
    assert forall|j: int| 0 <= j < names.len() implies set.contains(#[trigger] names[j]) by {
        assert(names.contains(names[j]));
    };
}

/// For a task in both runs: it is unchanged exactly when its hash is the
/// same and no cause was found; a changed hash with no cause found is
/// unexplained.
pub proof fn law_hash_change(b: &TaskSummary, c: &TaskSummary, b_run: &RunSummary, c_run: &RunSummary)
    ensures
        spec_diagnose_task(Some(b), c, b_run, c_run).classification == Classification::Unchanged
            <==> (b.hash.deep_view() == c.hash.deep_view() && spec_diagnose_task(Some(b), c, b_run, c_run).causes.len() == 0),
        b.hash.deep_view() != c.hash.deep_view() && spec_diagnose_task(Some(b), c, b_run, c_run).causes.len() == 0
            ==> spec_diagnose_task(Some(b), c, b_run, c_run).classification == Classification::Unexplained,
{
    let found = found_causes(b, c, b_run, c_run);
    let all = if artifact_unavailable(b, c) { seq![unavailable_cause(b, c)] + found } else { found };
    lemma_ranked_members(all);
    let causes = ranked_causes(b, c, b_run, c_run);
    if causes.len() == 0 {
        assert(!has_direct(causes));
        assert(!has_kind(causes, CauseKind::UpstreamTask));
    }
}

/// A task with the same hash and no difference at all is unchanged.
pub proof fn law_unchanged(b: &TaskSummary, c: &TaskSummary, b_run: &RunSummary, c_run: &RunSummary)
    requires
        !artifact_unavailable(b, c),
        b.hash.deep_view() == c.hash.deep_view(),
        found_causes(b, c, b_run, c_run).len() == 0,
    ensures
        spec_diagnose_task(Some(b), c, b_run, c_run).classification == Classification::Unchanged,
{
    lemma_ranked_members(found_causes(b, c, b_run, c_run));
}

} // verus!
