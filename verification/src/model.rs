//! The run-summary model that the diagnosis reads, and the report model that
//! it produces.
use vstd::prelude::*;
use crate::map::{DeepEq, SortedMap, lemma_sorted_keys, sorted_keys, strictly_sorted};
use crate::text::{ascii_upper, push_str, split_once, split_once_char, upper_eq, ends_with, owned, replace_char, replace_char_with};

verus! {

/// The fields of a Turborepo run summary that the diagnosis reads.
#[derive(Debug)]
pub struct RunSummary {
    pub id: Option<String>,
    pub version: Option<String>,
    pub turbo_version: Option<String>,
    pub global_cache_inputs: GlobalCacheInputs,
    pub execution: Option<Execution>,
    pub tasks: Vec<TaskSummary>,
    pub scm: Option<ScmInfo>,
}

/// The string-valued commit keys of a summary's `scm` object: each is
/// present when the key holds a JSON string.
#[derive(Debug)]
pub struct ScmInfo {
    pub sha: Option<String>,
    pub commit_sha: Option<String>,
    pub commit: Option<String>,
}

#[derive(Debug)]
pub struct GlobalCacheInputs {
    pub root_key: Option<String>,
    pub files: SortedMap<String>,
    pub hash_of_external_dependencies: Option<String>,
    pub hash_of_internal_dependencies: Option<String>,
    pub environment_variables: EnvironmentVariables,
    pub engines: SortedMap<String>,
    /// The repository-wide pipeline as canonical JSON text.
    pub root_pipeline: Option<String>,
}

#[derive(Debug)]
pub struct TaskSummary {
    pub task_id: String,
    pub task: String,
    pub package: String,
    pub hash: Option<String>,
    pub hash_reason: Option<String>,
    pub inputs: SortedMap<String>,
    pub hash_of_external_dependencies: Option<String>,
    pub cache: CacheSummary,
    pub command: Option<String>,
    pub outputs: Vec<String>,
    pub excluded_outputs: Vec<String>,
    pub log_file: Option<String>,
    pub directory: Option<String>,
    pub dependencies: Vec<String>,
    pub dependents: Vec<String>,
    /// The resolved task definition as canonical JSON text.
    pub resolved_task_definition: Option<String>,
    pub environment_variables: EnvironmentVariables,
    pub execution: Option<Execution>,
}

#[derive(Debug)]
pub struct CacheSummary {
    pub local: bool,
    pub remote: bool,
    pub status: Option<String>,
    pub source: Option<String>,
    pub time_saved: Option<u64>,
    pub sha: Option<String>,
    pub dirty_hash: Option<String>,
}

#[derive(Debug, Clone, Copy)]
pub struct Execution {
    pub exit_code: Option<i32>,
}

#[derive(Debug)]
pub struct EnvironmentVariables {
    pub specified: SpecifiedEnvironmentVariables,
    pub configured: Vec<String>,
    pub inferred: Vec<String>,
    pub passthrough: Option<Vec<String>>,
}

#[derive(Debug)]
pub struct SpecifiedEnvironmentVariables {
    pub env: Vec<String>,
    pub pass_through_env: Option<Vec<String>>,
}

#[derive(Clone, Copy, Debug, PartialEq, Eq, Structural)]
pub enum CacheStatus {
    Hit,
    Miss,
    Skipped,
    Unknown,
}

/// A run summary and where it came from.
#[derive(Debug)]
pub struct SummarySource {
    pub path: String,
    pub summary: RunSummary,
}

/// The two summaries to compare.
#[derive(Debug)]
pub struct SummaryPair {
    pub baseline: SummarySource,
    pub current: SummarySource,
    pub warnings: Vec<String>,
}

#[derive(Debug)]
pub struct Report {
    pub schema_version: &'static str,
    pub baseline: SummaryMetadata,
    pub current: SummaryMetadata,
    pub tasks: Vec<TaskDiagnosis>,
    pub warnings: Vec<String>,
}

#[derive(Debug)]
pub struct SummaryMetadata {
    pub path: String,
    pub id: Option<String>,
    pub schema_version: Option<String>,
    pub turbo_version: Option<String>,
    pub commit_sha: Option<String>,
}

#[derive(Debug)]
pub struct TaskDiagnosis {
    pub task_id: String,
    pub package: String,
    pub task: String,
    pub cache_status: CacheStatus,
    pub baseline_hash: Option<String>,
    pub current_hash: Option<String>,
    pub classification: Classification,
    pub causes: Vec<Cause>,
    pub unchanged: UnchangedSummary,
    pub hints: Vec<String>,
    pub git_stats: SortedMap<GitStat>,
}

/// Evidence that stayed the same between the two runs.
#[derive(Clone, Copy, Debug, PartialEq, Eq, Structural)]
pub struct UnchangedSummary {
    pub files: usize,
    pub environment_variables: usize,
    pub lockfile: Option<bool>,
    pub turbo_json: Option<bool>,
    pub task_configuration: bool,
}

#[derive(Clone, Copy, Debug, PartialEq, Eq, Structural)]
pub enum Classification {
    RootCause,
    Cascade,
    CacheUnavailable,
    Unchanged,
    NewTask,
    Unexplained,
}

#[derive(Debug)]
pub struct Cause {
    pub kind: CauseKind,
    pub summary: String,
    pub confidence: u8,
    pub evidence: Vec<Evidence>,
}

/// Kinds of cause, in the order in which equally confident causes are listed.
#[derive(Clone, Copy, Debug, PartialEq, Eq, Structural, PartialOrd, Ord)]
pub enum CauseKind {
    Environment,
    InputFile,
    DependencyGraph,
    GlobalInput,
    TaskConfiguration,
    UpstreamTask,
    TurboVersion,
    CacheUnavailable,
    NewTask,
}

#[derive(Debug)]
pub struct Evidence {
    pub source: String,
    pub before: Option<String>,
    pub after: Option<String>,
    pub detail: Option<String>,
}

#[derive(Clone, Copy, Debug, PartialEq, Eq, Structural)]
pub struct GitStat {
    pub added_lines: u64,
    pub removed_lines: u64,
}

impl DeepView for GitStat {
    type V = GitStat;

    open spec fn deep_view(&self) -> GitStat {
        *self
    }
}

/// The outcome of a first run that only recorded a baseline.
#[derive(Debug)]
pub struct BaselineCaptured {
    pub schema_version: &'static str,
    pub status: &'static str,
    pub path: String,
    pub task_count: usize,
    pub message: String,
    pub next_command: String,
}

// ---------------------------------------------------------------------
// Views of the report model
// ---------------------------------------------------------------------

pub struct EvidenceView {
    pub source: Seq<char>,
    pub before: Option<Seq<char>>,
    pub after: Option<Seq<char>>,
    pub detail: Option<Seq<char>>,
}

impl View for Evidence {
    type V = EvidenceView;

    open spec fn view(&self) -> EvidenceView {
        EvidenceView {
            source: self.source@,
            before: self.before.deep_view(),
            after: self.after.deep_view(),
            detail: self.detail.deep_view(),
        }
    }
}

pub open spec fn evidence_views(s: Seq<Evidence>) -> Seq<EvidenceView> {
    s.map_values(|e: Evidence| e@)
}

pub struct CauseView {
    pub kind: CauseKind,
    pub summary: Seq<char>,
    pub confidence: u8,
    pub evidence: Seq<EvidenceView>,
}

impl View for Cause {
    type V = CauseView;

    open spec fn view(&self) -> CauseView {
        CauseView {
            kind: self.kind,
            summary: self.summary@,
            confidence: self.confidence,
            evidence: evidence_views(self.evidence@),
        }
    }
}

pub open spec fn cause_views(s: Seq<Cause>) -> Seq<CauseView> {
    s.map_values(|c: Cause| c@)
}

pub struct TaskDiagnosisView {
    pub task_id: Seq<char>,
    pub package: Seq<char>,
    pub task: Seq<char>,
    pub cache_status: CacheStatus,
    pub baseline_hash: Option<Seq<char>>,
    pub current_hash: Option<Seq<char>>,
    pub classification: Classification,
    pub causes: Seq<CauseView>,
    pub unchanged: UnchangedSummary,
    pub hints: Seq<Seq<char>>,
    pub git_stats: Map<Seq<char>, GitStat>,
}

impl View for TaskDiagnosis {
    type V = TaskDiagnosisView;

    open spec fn view(&self) -> TaskDiagnosisView {
        TaskDiagnosisView {
            task_id: self.task_id@,
            package: self.package@,
            task: self.task@,
            cache_status: self.cache_status,
            baseline_hash: self.baseline_hash.deep_view(),
            current_hash: self.current_hash.deep_view(),
            classification: self.classification,
            causes: cause_views(self.causes@),
            unchanged: self.unchanged,
            hints: self.hints.deep_view(),
            git_stats: self.git_stats@,
        }
    }
}

pub open spec fn diagnosis_views(s: Seq<TaskDiagnosis>) -> Seq<TaskDiagnosisView> {
    s.map_values(|d: TaskDiagnosis| d@)
}

pub struct SummaryMetadataView {
    pub path: Seq<char>,
    pub id: Option<Seq<char>>,
    pub schema_version: Option<Seq<char>>,
    pub turbo_version: Option<Seq<char>>,
    pub commit_sha: Option<Seq<char>>,
}

impl View for SummaryMetadata {
    type V = SummaryMetadataView;

    open spec fn view(&self) -> SummaryMetadataView {
        SummaryMetadataView {
            path: self.path@,
            id: self.id.deep_view(),
            schema_version: self.schema_version.deep_view(),
            turbo_version: self.turbo_version.deep_view(),
            commit_sha: self.commit_sha.deep_view(),
        }
    }
}

pub struct ReportView {
    pub schema_version: Seq<char>,
    pub baseline: SummaryMetadataView,
    pub current: SummaryMetadataView,
    pub tasks: Seq<TaskDiagnosisView>,
    pub warnings: Seq<Seq<char>>,
}

impl View for Report {
    type V = ReportView;

    open spec fn view(&self) -> ReportView {
        ReportView {
            schema_version: self.schema_version@,
            baseline: self.baseline@,
            current: self.current@,
            tasks: diagnosis_views(self.tasks@),
            warnings: self.warnings.deep_view(),
        }
    }
}

// ---------------------------------------------------------------------
// Run summaries
// ---------------------------------------------------------------------

pub open spec fn exit_code_of(e: Option<Execution>) -> Option<i32> {
    match e {
        Some(x) => x.exit_code,
        None => None,
    }
}

/// No exit code, or exit code 0.
pub open spec fn exit_ok(e: Option<Execution>) -> bool {
    match exit_code_of(e) {
        Some(c) => c == 0,
        None => true,
    }
}

impl RunSummary {
    /// Whether the run succeeded: its own exit code is 0, or, when it records
    /// none, no task recorded a non-zero exit code.
    pub open spec fn spec_successful(&self) -> bool {
        match exit_code_of(self.execution) {
            Some(code) => code == 0,
            None => forall|i: int| 0 <= i < self.tasks@.len() ==> #[trigger] exit_ok(self.tasks@[i].execution),
        }
    }

    pub fn successful(&self) -> (r: bool)
        ensures
            r == self.spec_successful(),
    {
        match self.execution {
            Some(Execution { exit_code: Some(code) }) => code == 0,
            _ => {
                let mut i: usize = 0;
                while i < self.tasks.len()
                    invariant
                        i <= self.tasks.len(),
                        exit_code_of(self.execution) is None,
                        forall|k: int| 0 <= k < i ==> #[trigger] exit_ok(self.tasks@[k].execution),
                    decreases self.tasks.len() - i,
                {
                    match self.tasks[i].execution {
                        Some(Execution { exit_code: Some(code) }) => {
                            if code != 0 {
                                assert(!exit_ok(self.tasks@[i as int].execution));
                                return false;
                            }
                        },
                        _ => {},
                    }
                    i = i + 1;
                }
                true
            },
        }
    }

    /// The commit of the run: the first string among the `scm` keys `sha`,
    /// `commitSha` and `commit`.
    pub open spec fn spec_commit_sha(&self) -> Option<Seq<char>> {
        match self.scm {
            Some(scm) => if scm.sha is Some {
                scm.sha.deep_view()
            } else if scm.commit_sha is Some {
                scm.commit_sha.deep_view()
            } else {
                scm.commit.deep_view()
            },
            None => None,
        }
    }

    pub fn commit_sha(&self) -> (r: Option<&String>)
        ensures
            self.spec_commit_sha() == (match r { Some(s) => Some(s@), None => None }),
    {
        match &self.scm {
            Some(scm) => match &scm.sha {
                Some(s) => Some(s),
                None => match &scm.commit_sha {
                    Some(s) => Some(s),
                    None => match &scm.commit {
                        Some(s) => Some(s),
                        None => None,
                    },
                },
            },
            None => None,
        }
    }
}

// ---------------------------------------------------------------------
// Tasks
// ---------------------------------------------------------------------

impl TaskSummary {
    /// The task's id: `taskId`, else `package#task`, else `task`.
    pub open spec fn spec_identity(&self) -> Seq<char> {
        if self.task_id@.len() > 0 {
            self.task_id@
        } else if self.package@.len() > 0 && self.task@.len() > 0 {
            self.package@ + "#"@ + self.task@
        } else {
            self.task@
        }
    }

    pub fn identity(&self) -> (r: String)
        ensures
            r@ == self.spec_identity(),
    {
        if self.task_id.as_str().is_empty() == false {
            self.task_id.clone()
        } else if !self.package.as_str().is_empty() && !self.task.as_str().is_empty() {
            let mut r = self.package.clone();
            push_str(&mut r, "#");
            push_str(&mut r, self.task.as_str());
            r
        } else {
            self.task.clone()
        }
    }

    /// The task is `filter` by id or by name, or its id ends in `#filter`.
    pub open spec fn spec_matches(&self, filter: Seq<char>) -> bool {
        ||| self.spec_identity() == filter
        ||| self.task@ == filter
        ||| ("#"@ + filter).is_suffix_of(self.spec_identity())
    }

    pub fn matches(&self, filter: &str) -> (r: bool)
        ensures
            r == self.spec_matches(filter@),
    {
        let id = self.identity();
        let mut suffix = owned("#");
        push_str(&mut suffix, filter);
        crate::text::str_eq(id.as_str(), filter) || crate::text::str_eq(self.task.as_str(), filter)
            || ends_with(id.as_str(), suffix.as_str())
    }
}

impl CacheSummary {
    /// The cache status: the reported status read case-insensitively, else a
    /// hit when the artifact was found locally or remotely.
    pub open spec fn spec_status(&self) -> CacheStatus {
        let upper = match self.status {
            Some(s) => Some(ascii_upper(s@)),
            None => None,
        };
        if upper == Some("HIT"@) {
            CacheStatus::Hit
        } else if upper == Some("MISS"@) {
            CacheStatus::Miss
        } else if upper == Some("SKIP"@) || upper == Some("SKIPPED"@) || upper == Some("DISABLED"@) {
            CacheStatus::Skipped
        } else if self.local || self.remote {
            CacheStatus::Hit
        } else {
            CacheStatus::Unknown
        }
    }

    pub fn status(&self) -> (r: CacheStatus)
        ensures
            r == self.spec_status(),
    {
        let reported = match &self.status {
            Some(s) => {
                if upper_eq(s.as_str(), "HIT") {
                    Some(CacheStatus::Hit)
                } else if upper_eq(s.as_str(), "MISS") {
                    Some(CacheStatus::Miss)
                } else if upper_eq(s.as_str(), "SKIP") || upper_eq(s.as_str(), "SKIPPED")
                    || upper_eq(s.as_str(), "DISABLED") {
                    Some(CacheStatus::Skipped)
                } else {
                    None
                }
            },
            None => None,
        };
        match reported {
            Some(status) => status,
            None => if self.local || self.remote {
                CacheStatus::Hit
            } else {
                CacheStatus::Unknown
            },
        }
    }
}

// ---------------------------------------------------------------------
// Environment fingerprints
// ---------------------------------------------------------------------

/// `NAME=hash` split into the name and the fingerprint; an entry without `=`
/// is a name with no fingerprint.
pub open spec fn spec_split_env_fingerprint(entry: Seq<char>) -> (Seq<char>, Option<Seq<char>>) {
    match split_once(entry, '=') {
        Some((name, hash)) => (name, Some(hash)),
        None => (entry, None),
    }
}

pub fn split_env_fingerprint(entry: &str) -> (r: (String, Option<String>))
    ensures
        (r.0@, r.1.deep_view()) == spec_split_env_fingerprint(entry@),
{
    match split_once_char(entry, '=') {
        Some((name, hash)) => (name, Some(hash)),
        None => (owned(entry), None),
    }
}

/// `m` with each entry's name bound to its fingerprint, later entries winning.
pub open spec fn insert_fingerprints(m: Map<Seq<char>, Option<Seq<char>>>, entries: Seq<Seq<char>>) -> Map<Seq<char>, Option<Seq<char>>>
    decreases entries.len(),
{
    if entries.len() == 0 {
        m
    } else {
        let (name, hash) = spec_split_env_fingerprint(entries.last());
        insert_fingerprints(m, entries.drop_last()).insert(name, hash)
    }
}

/// `m` with each name bound to no fingerprint unless already bound.
pub open spec fn insert_names(m: Map<Seq<char>, Option<Seq<char>>>, names: Seq<Seq<char>>) -> Map<Seq<char>, Option<Seq<char>>>
    decreases names.len(),
{
    if names.len() == 0 {
        m
    } else {
        let prev = insert_names(m, names.drop_last());
        if prev.dom().contains(names.last()) {
            prev
        } else {
            prev.insert(names.last(), None)
        }
    }
}

pub open spec fn optional_names(v: Option<Vec<String>>) -> Seq<Seq<char>> {
    match v {
        Some(v) => v.deep_view(),
        None => Seq::empty(),
    }
}

impl EnvironmentVariables {
    /// Variable name to fingerprint: the `configured` then `inferred` entries,
    /// then the names of `specified.env`, `specified.passThroughEnv` and
    /// `passthrough` with no fingerprint where not already present.
    pub open spec fn spec_fingerprints(&self) -> Map<Seq<char>, Option<Seq<char>>> {
        insert_names(
            insert_fingerprints(Map::empty(), self.configured.deep_view() + self.inferred.deep_view()),
            self.specified.env.deep_view() + optional_names(self.specified.pass_through_env)
                + optional_names(self.passthrough),
        )
    }

    pub fn fingerprints(&self) -> (r: SortedMap<Option<String>>)
        ensures
            r@ == self.spec_fingerprints(),
    {
        let mut result: SortedMap<Option<String>> = SortedMap::new();
        let ghost entries = self.configured.deep_view() + self.inferred.deep_view();
        assert(result@ =~= Map::<Seq<char>, Option<Seq<char>>>::empty());
        let mut i: usize = 0;
        while i < self.configured.len()
            invariant
                i <= self.configured.len(),
                result@ == insert_fingerprints(Map::empty(), self.configured.deep_view().take(i as int)),
            decreases self.configured.len() - i,
        {
            let (name, hash) = split_env_fingerprint(self.configured[i].as_str());
            assert(self.configured.deep_view().take(i + 1).drop_last() =~= self.configured.deep_view().take(i as int));
            result.insert(name, hash);
            i = i + 1;
        }
        assert(self.configured.deep_view().take(i as int) =~= self.configured.deep_view());
        assert(entries.take(self.configured.len() as int) =~= self.configured.deep_view());
        let mut j: usize = 0;
        while j < self.inferred.len()
            invariant
                j <= self.inferred.len(),
                entries == self.configured.deep_view() + self.inferred.deep_view(),
                result@ == insert_fingerprints(Map::empty(), entries.take(self.configured.len() + j)),
            decreases self.inferred.len() - j,
        {
            let (name, hash) = split_env_fingerprint(self.inferred[j].as_str());
            assert(entries.take(self.configured.len() + j + 1).drop_last() =~= entries.take(self.configured.len() + j));
            result.insert(name, hash);
            j = j + 1;
        }
        assert(entries.take(self.configured.len() + j) =~= entries);
        let ghost base = result@;
        let ghost names = self.specified.env.deep_view() + optional_names(self.specified.pass_through_env)
            + optional_names(self.passthrough);
        let mut k: usize = 0;
        let ghost mut done: int = 0;
        assert(names.take(0) =~= Seq::<Seq<char>>::empty());
        while k < self.specified.env.len()
            invariant
                k <= self.specified.env.len(),
                names == self.specified.env.deep_view() + optional_names(self.specified.pass_through_env)
                    + optional_names(self.passthrough),
                result@ == insert_names(base, names.take(k as int)),
            decreases self.specified.env.len() - k,
        {
            assert(names.take(k + 1).drop_last() =~= names.take(k as int));
            result.insert_if_absent(self.specified.env[k].clone(), None);
            k = k + 1;
        }
        proof { done = k as int; }
        match &self.specified.pass_through_env {
            Some(list) => {
                let mut m: usize = 0;
                while m < list.len()
                    invariant
                        m <= list.len(),
                        done == self.specified.env.len(),
                        self.specified.pass_through_env == Some(*list),
                        names == self.specified.env.deep_view() + list.deep_view() + optional_names(self.passthrough),
                        result@ == insert_names(base, names.take(done + m)),
                    decreases list.len() - m,
                {
                    assert(names.take(done + m + 1).drop_last() =~= names.take(done + m));
                    result.insert_if_absent(list[m].clone(), None);
                    m = m + 1;
                }
                proof { done = done + list.len(); }
            },
            None => {},
        }
        assert(done == self.specified.env.deep_view().len() + optional_names(self.specified.pass_through_env).len());
        match &self.passthrough {
            Some(list) => {
                let mut m: usize = 0;
                while m < list.len()
                    invariant
                        m <= list.len(),
                        done == self.specified.env.deep_view().len() + optional_names(self.specified.pass_through_env).len(),
                        self.passthrough == Some(*list),
                        names == self.specified.env.deep_view() + optional_names(self.specified.pass_through_env) + list.deep_view(),
                        result@ == insert_names(base, names.take(done + m)),
                    decreases list.len() - m,
                {
                    assert(names.take(done + m + 1).drop_last() =~= names.take(done + m));
                    result.insert_if_absent(list[m].clone(), None);
                    m = m + 1;
                }
                proof { done = done + list.len(); }
            },
            None => {},
        }
        assert(names.take(done) =~= names);
        result
    }
}

/// The keys bound differently in `before` and `after`, bound in only one of
/// them included.
pub open spec fn spec_changed_keys<V>(before: Map<Seq<char>, V>, after: Map<Seq<char>, V>, k: Seq<char>) -> bool {
    if before.dom().contains(k) {
        !after.dom().contains(k) || before[k] != after[k]
    } else {
        after.dom().contains(k)
    }
}

/// The keys whose binding differs between `before` and `after`.
pub open spec fn changed_set<V>(before: Map<Seq<char>, V>, after: Map<Seq<char>, V>) -> Set<Seq<char>> {
    Set::new(|k: Seq<char>| spec_changed_keys(before, after, k))
}

proof fn lemma_insert_fingerprints_finite(m: Map<Seq<char>, Option<Seq<char>>>, entries: Seq<Seq<char>>)
    requires
        m.dom().finite(),
    ensures
        insert_fingerprints(m, entries).dom().finite(),
    decreases entries.len(),
{
    if entries.len() > 0 {
        lemma_insert_fingerprints_finite(m, entries.drop_last());
        let prev = insert_fingerprints(m, entries.drop_last());
        let (name, hash) = spec_split_env_fingerprint(entries.last());
        assert(prev.insert(name, hash).dom() =~= prev.dom().insert(name));
        vstd::set::axiom_set_insert_finite(prev.dom(), name);
    }
}

proof fn lemma_insert_names_finite(m: Map<Seq<char>, Option<Seq<char>>>, names: Seq<Seq<char>>)
    requires
        m.dom().finite(),
    ensures
        insert_names(m, names).dom().finite(),
    decreases names.len(),
{
    if names.len() > 0 {
        lemma_insert_names_finite(m, names.drop_last());
        let prev = insert_names(m, names.drop_last());
        assert(prev.insert(names.last(), None).dom() =~= prev.dom().insert(names.last()));
        vstd::set::axiom_set_insert_finite(prev.dom(), names.last());
    }
}

/// A summary names finitely many variables.
pub proof fn lemma_fingerprints_finite(e: EnvironmentVariables)
    ensures
        e.spec_fingerprints().dom().finite(),
{
    let empty = Map::<Seq<char>, Option<Seq<char>>>::empty();
    assert(empty.dom() =~= Set::<Seq<char>>::empty());
    lemma_insert_fingerprints_finite(empty, e.configured.deep_view() + e.inferred.deep_view());
    lemma_insert_names_finite(
        insert_fingerprints(empty, e.configured.deep_view() + e.inferred.deep_view()),
        e.specified.env.deep_view() + optional_names(e.specified.pass_through_env) + optional_names(e.passthrough),
    );
}

/// Between two finite maps only finitely many keys change.
pub proof fn lemma_changed_set_finite<V>(before: Map<Seq<char>, V>, after: Map<Seq<char>, V>)
    requires
        before.dom().finite(),
        after.dom().finite(),
    ensures
        changed_set(before, after).finite(),
{
    vstd::set::axiom_set_union_finite(before.dom(), after.dom());
    assert(changed_set(before, after).subset_of(before.dom().union(after.dom())));
    vstd::set_lib::lemma_set_subset_finite(before.dom().union(after.dom()), changed_set(before, after));
}

/// A key changed from `before` to `after` exactly when it changed from
/// `after` to `before`.
pub proof fn law_changed_symmetric<V>(before: Map<Seq<char>, V>, after: Map<Seq<char>, V>)
    ensures
        changed_set(before, after) == changed_set(after, before),
{
    assert(changed_set(before, after) =~= changed_set(after, before));
}

/// Nothing changed exactly when the two maps are equal.
pub proof fn law_changed_empty<V>(before: Map<Seq<char>, V>, after: Map<Seq<char>, V>)
    ensures
        changed_set(before, after).is_empty() <==> before == after,
{
    if changed_set(before, after).is_empty() {
        assert forall|k: Seq<char>| before.dom().contains(k) <==> after.dom().contains(k) by {
            assert(!changed_set(before, after).contains(k));
        };
        assert forall|k: Seq<char>| #[trigger] before.dom().contains(k) implies before[k] == after[k] by {
            assert(!changed_set(before, after).contains(k));
        };
        assert(before =~= after);
    }
    if before == after {
        assert(changed_set(before, after) =~= Set::<Seq<char>>::empty());
    }
}

/// The keys whose binding differs between `before` and `after`, in ascending
/// order.
pub fn changed_keys<V: DeepEq>(before: &SortedMap<V>, after: &SortedMap<V>) -> (r: Vec<String>)
    ensures
        strictly_sorted(r.deep_view()),
        forall|k: Seq<char>| r.deep_view().contains(k) <==> spec_changed_keys(before@, after@, k),
        r.deep_view() == sorted_keys(changed_set(before@, after@)),
{
    let mut set: SortedMap<bool> = SortedMap::new();
    let mut i: usize = 0;
    proof {
        use_type_invariant(before);
        use_type_invariant(after);
    }
    while i < before.len()
        invariant
            i <= before.key_seq().len(),
            before.wf(),
            after.wf(),
            forall|k: Seq<char>| set@.dom().contains(k) <==> (exists|x: int| 0 <= x < i && before.key_seq()[x] == k && spec_changed_keys(before@, after@, k)),
        decreases before.key_seq().len() - i,
    {
        let k = before.key_at(i);
        let v = before.value_at(i);
        proof { before.lemma_index(i as int); }
        let differs = match after.get(k.as_str()) {
            Some(w) => !v.deep_eq(w),
            None => true,
        };
        if differs {
            set.insert(k.clone(), true);
        }
        i = i + 1;
    }
    let mut j: usize = 0;
    while j < after.len()
        invariant
            j <= after.key_seq().len(),
            before.wf(),
            after.wf(),
            forall|k: Seq<char>| set@.dom().contains(k) <==> (
                (before@.dom().contains(k) && spec_changed_keys(before@, after@, k))
                || (exists|x: int| 0 <= x < j && after.key_seq()[x] == k && spec_changed_keys(before@, after@, k))),
        decreases after.key_seq().len() - j,
    {
        let k = after.key_at(j);
        proof { after.lemma_index(j as int); }
        if !before.contains_key(k.as_str()) {
            set.insert(k.clone(), true);
        }
        j = j + 1;
    }
    let r = set.keys();
    proof {
        assert forall|k: Seq<char>| r.deep_view().contains(k) <==> spec_changed_keys(before@, after@, k) by {
            assert(set@.dom().contains(k) == set.key_seq().contains(k));
            if spec_changed_keys(before@, after@, k) && !before@.dom().contains(k) {
                assert(after.key_seq().contains(k));
                let x = choose|x: int| 0 <= x < after.key_seq().len() && after.key_seq()[x] == k;
                assert(after.key_seq()[x] == k);
            }
        };
        lemma_sorted_keys(r.deep_view(), changed_set(before@, after@));
    }
    r
}

/// `path` with `\` separators written as `/`.
pub open spec fn spec_portable_path(path: Seq<char>) -> Seq<char> {
    replace_char(path, '\\', "/"@)
}

pub fn portable_path(path: &str) -> (r: String)
    ensures
        r@ == spec_portable_path(path@),
{
    replace_char_with(path, '\\', "/")
}

} // verus!
