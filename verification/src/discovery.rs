//! Finding the repository and the summaries to compare.
//!
//! Paths are strings written as the platform's `PathStyle` writes them. The
//! caller looks at the file system and runs programs; this module decides
//! what to look at and what follows.
use vstd::prelude::*;
use crate::error::Error;
use crate::map::DeepEq;
use crate::model::{BaselineCaptured, SummaryPair, SummarySource, spec_portable_path, portable_path};
use crate::text::{
    contains_seq, contains_str, dec, decimal, ends_with, owned, push_str, seq_lt, starts_with,
    str_lt, substring, trim_whitespace, trim_ws,
};

verus! {

/// Where the tool saves the snapshot it compares with next time, relative to
/// the repository root.
pub open spec fn own_baseline() -> Seq<char> {
    ".whycache/last-summary.json"@
}

/// The repository the tool works in.
#[derive(Debug)]
pub struct Discovery {
    pub root: String,
}

/// What the file system shows of one directory that may be the repository
/// root.
#[derive(Debug)]
pub struct RootProbe {
    pub path: String,
    /// `turbo.json` is a file there.
    pub turbo_json: bool,
    /// `.turbo/runs` is a directory there.
    pub runs_dir: bool,
    /// The text of `package.json` there, when it could be read.
    pub package_json: Option<String>,
}

/// A `package.json` that mentions Turborepo.
pub open spec fn spec_package_mentions_turbo(contents: Option<Seq<char>>) -> bool {
    match contents {
        Some(c) => contains_seq(c, "turbo"@),
        None => false,
    }
}

pub fn package_mentions_turbo(contents: &Option<String>) -> (r: bool)
    ensures
        r == spec_package_mentions_turbo(contents.deep_view()),
{
    match contents {
        Some(c) => contains_str(c.as_str(), "turbo"),
        None => false,
    }
}

/// A directory with a Turborepo marker.
pub open spec fn marks_root(p: RootProbe) -> bool {
    p.turbo_json || p.runs_dir || spec_package_mentions_turbo(p.package_json.deep_view())
}

impl Discovery {
    /// The repository around `start`: the first of `probes`, the directories
    /// from `start` upwards, that has a Turborepo marker.
    pub fn new(start: &str, probes: &Vec<RootProbe>) -> (r: Result<Discovery, Error>)
        ensures
            (exists|i: int| 0 <= i < probes.len() && marks_root(#[trigger] probes@[i])) <==> r is Ok,
            r matches Ok(d) ==> exists|i: int| 0 <= i < probes.len() && marks_root(#[trigger] probes@[i])
                && d.root@ == probes@[i].path@ && forall|k: int| 0 <= k < i ==> !marks_root(#[trigger] probes@[k]),
            r matches Err(e) ==> e matches Error::RepoNotFound(p) && p@ == start@,
    {
        let mut i: usize = 0;
        while i < probes.len()
            invariant
                i <= probes.len(),
                forall|k: int| 0 <= k < i ==> !marks_root(#[trigger] probes@[k]),
            decreases probes.len() - i,
        {
            let p = &probes[i];
            if p.turbo_json || p.runs_dir || package_mentions_turbo(&p.package_json) {
                assert(marks_root(probes@[i as int]));
                return Ok(Discovery { root: p.path.clone() });
            }
            i = i + 1;
        }
        Err(Error::RepoNotFound(owned(start)))
    }
}

// ---------------------------------------------------------------------
// Paths
// ---------------------------------------------------------------------

/// How the platform writes paths, as `std::path` does on it.
#[derive(Clone, Copy, Debug, PartialEq, Eq, Structural)]
pub enum PathStyle {
    /// `/` alone separates components.
    Unix,
    /// `/` and `\` separate components, `\` is written between two of them,
    /// and a bare drive such as `C:` takes what follows without one.
    Windows,
}

/// Whether `c` separates path components in `style`.
pub open spec fn is_separator(c: char, style: PathStyle) -> bool {
    c == '/' || (style == PathStyle::Windows && c == '\\')
}

/// The separator that `style` writes between components.
pub open spec fn separator(style: PathStyle) -> char {
    if style == PathStyle::Windows { '\\' } else { '/' }
}

/// A drive with nothing after it, such as `C:`.
pub open spec fn is_bare_drive(base: Seq<char>) -> bool {
    base.len() == 2 && base[1] == ':' && (('a' <= base[0] && base[0] <= 'z') || ('A' <= base[0] && base[0] <= 'Z'))
}

/// Whether a relative path is appended to `base` with no separator between:
/// `base` is empty, ends in a separator, or is a bare drive on Windows.
pub open spec fn joins_directly(base: Seq<char>, style: PathStyle) -> bool {
    ||| base.len() == 0
    ||| is_separator(base.last(), style)
    ||| style == PathStyle::Windows && is_bare_drive(base)
}

/// The relative path `path` appended to `base`, with the separator of `style`
/// between them where one is needed.
pub open spec fn spec_join(base: Seq<char>, path: Seq<char>, style: PathStyle) -> Seq<char> {
    if joins_directly(base, style) {
        base + path
    } else {
        base.push(separator(style)) + path
    }
}

fn separates(c: char, style: PathStyle) -> (r: bool)
    ensures
        r == is_separator(c, style),
{
    c == '/' || (style == PathStyle::Windows && c == '\\')
}

fn last_char(s: &str) -> (r: Option<char>)
    ensures
        r == (if s@.len() == 0 { None } else { Some(s@.last()) }),
{
    let n = s.unicode_len();
    if n == 0 { None } else { Some(s.get_char(n - 1)) }
}

fn bare_drive(base: &str) -> (r: bool)
    ensures
        r == is_bare_drive(base@),
{
    if base.unicode_len() != 2 {
        return false;
    }
    let d = base.get_char(0);
    base.get_char(1) == ':' && (('a' <= d && d <= 'z') || ('A' <= d && d <= 'Z'))
}

fn direct(base: &str, style: PathStyle) -> (r: bool)
    ensures
        r == joins_directly(base@, style),
{
    match last_char(base) {
        None => true,
        Some(c) => separates(c, style) || (style == PathStyle::Windows && bare_drive(base)),
    }
}

pub fn join(base: &str, path: &str, style: PathStyle) -> (r: String)
    ensures
        r@ == spec_join(base@, path@, style),
{
    let mut r = owned(base);
    if !direct(base, style) {
        let sep = if style == PathStyle::Windows { "\\" } else { "/" };
        proof {
            reveal_strlit("\\");
            reveal_strlit("/");
        }
        push_str(&mut r, sep);
        assert(r@ =~= base@.push(separator(style)));
    }
    push_str(&mut r, path);
    r
}

/// `value` as a path: itself when it is absolute, else taken from `root`.
pub open spec fn spec_resolve(root: Seq<char>, value: Seq<char>, absolute: bool, style: PathStyle) -> Seq<char> {
    if absolute {
        value
    } else {
        spec_join(root, value, style)
    }
}

/// `value` as a path; `absolute` tells whether the platform takes it as an
/// absolute path.
pub fn resolve(root: &str, value: &str, absolute: bool, style: PathStyle) -> (r: String)
    ensures
        r@ == spec_resolve(root@, value@, absolute, style),
{
    if absolute {
        owned(value)
    } else {
        join(root, value, style)
    }
}

/// What is left of `path` after the leading `root` and the separator after
/// it, or `path` itself when it does not start with `root`.
pub open spec fn strip_root(root: Seq<char>, path: Seq<char>, style: PathStyle) -> Seq<char> {
    if path == root {
        Seq::empty()
    } else if root.len() == 0 || !root.is_prefix_of(path) {
        path
    } else if joins_directly(root, style) {
        path.skip(root.len() as int)
    } else if is_separator(path[root.len() as int], style) {
        path.skip((root.len() + 1) as int)
    } else {
        path
    }
}

/// `path` relative to `root`, written with `/`.
pub open spec fn spec_relative_display(root: Seq<char>, path: Seq<char>, style: PathStyle) -> Seq<char> {
    spec_portable_path(strip_root(root, path, style))
}

#[verifier::spinoff_prover]
pub fn relative_display(root: &str, path: &str, style: PathStyle) -> (r: String)
    ensures
        r@ == spec_relative_display(root@, path@, style),
{
    let n = root.unicode_len();
    let plen = path.unicode_len();
    let rest = if crate::text::str_eq(path, root) {
        String::new()
    } else if n == 0 || !starts_with(path, root) {
        owned(path)
    } else if direct(root, style) {
        assert(path@.subrange(n as int, plen as int) =~= path@.skip(n as int));
        substring(path, n, plen)
    } else if n < plen && separates(path.get_char(n), style) {
        assert(path@.subrange(n + 1, plen as int) =~= path@.skip(n + 1));
        substring(path, n + 1, plen)
    } else {
        proof {
            if n >= plen {
                assert(path@.subrange(0, n as int) =~= path@);
            }
        }
        owned(path)
    };
    assert(rest@ == strip_root(root@, path@, style));
    portable_path(rest.as_str())
}

/// `root` followed by `dir`, `package`, `bin` and `executable`, each joined
/// as a component of its own.
pub open spec fn binary_path(root: Seq<char>, dir: Seq<char>, package: Seq<char>, executable: Seq<char>, style: PathStyle) -> Seq<char> {
    spec_join(spec_join(spec_join(spec_join(root, dir, style), package, style), "bin"@, style), executable, style)
}

/// Where a platform's own Turborepo binary may be installed under `root`.
pub open spec fn spec_local_turbo_candidates(root: Seq<char>, os: Seq<char>, arch: Seq<char>, style: PathStyle) -> Seq<Seq<char>> {
    let platform = if os == "macos"@ { "darwin"@ } else { os };
    let architecture = if arch == "x86_64"@ { "64"@ } else { arch };
    let executable = if os == "windows"@ { "turbo.exe"@ } else { "turbo"@ };
    let scoped = platform + "-"@ + architecture;
    let legacy = "turbo-"@ + platform + "-"@ + architecture;
    seq![
        binary_path(root, "node_modules/@turbo"@, scoped, executable, style),
        binary_path(root, "node_modules/turbo/node_modules/@turbo"@, scoped, executable, style),
        binary_path(root, "node_modules"@, legacy, executable, style),
        binary_path(root, "node_modules/turbo/node_modules"@, legacy, executable, style),
    ]
}

fn candidate(root: &str, dir: &str, package: &str, executable: &str, style: PathStyle) -> (r: String)
    ensures
        r@ == binary_path(root@, dir@, package@, executable@, style),
{
    let a = join(root, dir, style);
    let b = join(a.as_str(), package, style);
    let c = join(b.as_str(), "bin", style);
    join(c.as_str(), executable, style)
}

pub fn local_turbo_candidates(root: &str, os: &str, arch: &str, style: PathStyle) -> (r: Vec<String>)
    ensures
        r.deep_view() == spec_local_turbo_candidates(root@, os@, arch@, style),
{
    let platform = if crate::text::str_eq(os, "macos") { "darwin" } else { os };
    let architecture = if crate::text::str_eq(arch, "x86_64") { "64" } else { arch };
    let executable = if crate::text::str_eq(os, "windows") { "turbo.exe" } else { "turbo" };
    let mut scoped = owned(platform);
    push_str(&mut scoped, "-");
    push_str(&mut scoped, architecture);
    let mut legacy = owned("turbo-");
    push_str(&mut legacy, scoped.as_str());
    let mut r: Vec<String> = Vec::new();
    r.push(candidate(root, "node_modules/@turbo", scoped.as_str(), executable, style));
    r.push(candidate(root, "node_modules/turbo/node_modules/@turbo", scoped.as_str(), executable, style));
    r.push(candidate(root, "node_modules", legacy.as_str(), executable, style));
    r.push(candidate(root, "node_modules/turbo/node_modules", legacy.as_str(), executable, style));
    proof {
        let platform_v = if os@ == "macos"@ { "darwin"@ } else { os@ };
        let arch_v = if arch@ == "x86_64"@ { "64"@ } else { arch@ };
        assert(scoped@ == platform_v + "-"@ + arch_v);
        assert(legacy@ =~= "turbo-"@ + platform_v + "-"@ + arch_v);
        assert(r.deep_view() =~= spec_local_turbo_candidates(root@, os@, arch@, style));
    }
    r
}

/// Where the snapshot for the next comparison is saved.
pub fn own_baseline_path(root: &str, style: PathStyle) -> (r: String)
    ensures
        r@ == spec_join(root@, own_baseline(), style),
{
    join(root, ".whycache/last-summary.json", style)
}

/// The launcher script that starts Turborepo through Node.
pub open spec fn spec_launcher(root: Seq<char>, style: PathStyle) -> Seq<char> {
    spec_join(root, "node_modules/turbo/bin/turbo"@, style)
}

pub fn launcher(root: &str, style: PathStyle) -> (r: String)
    ensures
        r@ == spec_launcher(root@, style),
{
    join(root, "node_modules/turbo/bin/turbo", style)
}

/// The first local binary that is a file, else the Node launcher when it is
/// a file, else `turbo` from the search path; `found[i]` tells whether
/// `candidates[i]` is a file.
pub open spec fn program_search(
    candidates: Seq<Seq<char>>,
    found: Seq<bool>,
    launcher: Seq<char>,
    launcher_found: bool,
) -> (Seq<char>, Seq<Seq<char>>) {
    if exists|i: int| 0 <= i < candidates.len() && #[trigger] found[i] {
        let i = choose|i: int| 0 <= i < candidates.len() && #[trigger] found[i] && forall|k: int| 0 <= k < i ==> !found[k];
        (candidates[i], Seq::empty())
    } else if launcher_found {
        ("node"@, seq![launcher])
    } else {
        ("turbo"@, Seq::empty())
    }
}

/// The program that runs Turborepo and the arguments before its own: the
/// configured binary when it is a file, else what `program_search` finds.
pub open spec fn spec_turbo_program(
    configured: Option<(Seq<char>, bool)>,
    candidates: Seq<Seq<char>>,
    found: Seq<bool>,
    launcher: Seq<char>,
    launcher_found: bool,
) -> (Seq<char>, Seq<Seq<char>>) {
    match configured {
        Some((p, f)) => if f {
            (p, Seq::empty())
        } else {
            program_search(candidates, found, launcher, launcher_found)
        },
        None => program_search(candidates, found, launcher, launcher_found),
    }
}

/// The configured binary and whether it is a file, as plain values.
pub open spec fn config_view(c: &Option<(String, bool)>) -> Option<(Seq<char>, bool)> {
    match c {
        Some((p, f)) => Some((p@, *f)),
        None => None,
    }
}

#[verifier::spinoff_prover]
pub fn turbo_program(
    configured: Option<(String, bool)>,
    candidates: &Vec<String>,
    found: &Vec<bool>,
    launcher: String,
    launcher_found: bool,
) -> (r: (String, Vec<String>))
    requires
        found.len() == candidates.len(),
    ensures
        (r.0@, r.1.deep_view()) == spec_turbo_program(
            config_view(&configured),
            candidates.deep_view(),
            found@,
            launcher@,
            launcher_found,
        ),
{
    let ghost cv = config_view(&configured);
    let ghost search = program_search(candidates.deep_view(), found@, launcher@, launcher_found);
    match &configured {
        Some((path, is_file)) => {
            if *is_file {
                let none: Vec<String> = Vec::new();
                assert(none.deep_view() =~= Seq::<Seq<char>>::empty());
                return (path.clone(), none);
            }
        },
        None => {},
    }
    assert(spec_turbo_program(cv, candidates.deep_view(), found@, launcher@, launcher_found) == search);
    let mut i: usize = 0;
    while i < candidates.len()
        invariant
            i <= candidates.len(),
            spec_turbo_program(cv, candidates.deep_view(), found@, launcher@, launcher_found) == search,
            cv == config_view(&configured),
            search == program_search(candidates.deep_view(), found@, launcher@, launcher_found),
            found.len() == candidates.len(),
            forall|k: int| 0 <= k < i ==> !found@[k],
        decreases candidates.len() - i,
    {
        if found[i] {
            let none: Vec<String> = Vec::new();
            let chosen = candidates[i].clone();
            assert(chosen@ == candidates@[i as int]@);
            proof {
                let j = choose|j: int| 0 <= j < candidates.len() && #[trigger] found@[j] && forall|k: int| 0 <= k < j ==> !found@[k];
                assert(found@[i as int]);
                if j < i {
                    assert(!found@[j]);
                } else if j > i {
                    assert(!found@[i as int]);
                }
                assert(j == i);
                assert(none.deep_view() =~= Seq::<Seq<char>>::empty());
                assert(candidates.deep_view()[i as int] == candidates@[i as int]@);
                assert(search == (candidates.deep_view()[i as int], Seq::<Seq<char>>::empty()));
            }
            return (chosen, none);
        }
        i = i + 1;
    }
    assert(!(exists|k: int| 0 <= k < candidates.deep_view().len() && #[trigger] found@[k]));
    if launcher_found {
        let ghost lv = launcher@;
        let mut args: Vec<String> = Vec::new();
        args.push(launcher);
        assert(args.deep_view() =~= seq![lv]);
        return (owned("node"), args);
    }
    let none: Vec<String> = Vec::new();
    assert(none.deep_view() =~= Seq::<Seq<char>>::empty());
    (owned("turbo"), none)
}

// ---------------------------------------------------------------------
// Run summaries on disk
// ---------------------------------------------------------------------

/// A file in `.turbo/runs`: its path, its file name, and when it was last
/// modified, as whole seconds from the epoch (negative before it) and the
/// nanoseconds after them.
#[derive(Debug)]
pub struct SummaryFile {
    pub path: String,
    pub name: String,
    pub modified_secs: i64,
    pub modified_nanos: u32,
}

/// A summary file as the contracts see it: path, name, seconds, nanoseconds.
pub type FileView = (Seq<char>, Seq<char>, i64, u32);

impl View for SummaryFile {
    type V = FileView;

    open spec fn view(&self) -> FileView {
        (self.path@, self.name@, self.modified_secs, self.modified_nanos)
    }
}

/// A file name with the extension `json`: it ends in `.json` and has
/// something before the dot.
pub open spec fn spec_is_json_file(name: Seq<char>) -> bool {
    ".json"@.is_suffix_of(name) && name.len() > 5
}

pub fn is_json_file(name: &str) -> (r: bool)
    ensures
        r == spec_is_json_file(name@),
{
    proof { reveal_strlit(".json"); }
    ends_with(name, ".json") && name.unicode_len() > 5
}

/// Older files first; equally old ones by path.
pub open spec fn file_before(a: FileView, b: FileView) -> bool {
    ||| a.2 < b.2
    ||| a.2 == b.2 && a.3 < b.3
    ||| a.2 == b.2 && a.3 == b.3 && seq_lt(a.0, b.0)
}

pub open spec fn file_order() -> spec_fn(FileView, FileView) -> bool {
    |a: FileView, b: FileView| file_before(a, b)
}

/// The JSON files among `files`, in their order.
pub open spec fn json_files(files: Seq<FileView>) -> Seq<FileView>
    decreases files.len(),
{
    if files.len() == 0 {
        Seq::empty()
    } else {
        let rest = json_files(files.drop_last());
        if spec_is_json_file(files.last().1) { rest.push(files.last()) } else { rest }
    }
}

/// The paths of the run summaries, oldest first.
pub open spec fn spec_order_summaries(files: Seq<FileView>) -> Seq<Seq<char>> {
    crate::order::sort_by(json_files(files), file_order()).map_values(|f: FileView| f.0)
}

fn file_precedes(a: &SummaryFile, b: &SummaryFile) -> (r: bool)
    ensures
        r == file_before(a@, b@),
{
    if a.modified_secs != b.modified_secs {
        return a.modified_secs < b.modified_secs;
    }
    if a.modified_nanos != b.modified_nanos {
        return a.modified_nanos < b.modified_nanos;
    }
    str_lt(a.path.as_str(), b.path.as_str())
}

pub open spec fn file_views(files: Seq<SummaryFile>) -> Seq<FileView> {
    files.map_values(|f: SummaryFile| f@)
}

/// The paths of the JSON files among `files`, oldest first and equally old
/// ones by path.
#[verifier::spinoff_prover]
pub fn order_summaries(files: Vec<SummaryFile>) -> (r: Vec<String>)
    ensures
        r.deep_view() == spec_order_summaries(file_views(files@)),
{
    let ghost input = file_views(files@);
    let mut sorted: Vec<SummaryFile> = Vec::new();
    let mut rest = files;
    let mut taken: usize = 0;
    let ghost n = input.len();
    assert(input.take(0) =~= Seq::<FileView>::empty());
    assert(input.skip(0) =~= input);
    assert(n == rest.len());
    while rest.len() > 0
        invariant
            taken + rest.len() == n,
            n == input.len(),
            n <= usize::MAX,
            file_views(rest@) == input.skip(taken as int),
            file_views(sorted@) == crate::order::sort_by(json_files(input.take(taken as int)), file_order()),
        decreases rest.len(),
    {
        let ghost rv = file_views(rest@);
        let ghost raw = rest@;
        let f = rest.remove(0);
        assert(f == raw[0]);
        assert(file_views(rest@) =~= rv.drop_first());
        assert(rv[0] == f@);
        assert(f@ == input[taken as int]) by {
            assert(input.skip(taken as int)[0] == input[taken as int]);
        };
        let ghost prefix = input.take(taken + 1);
        assert(prefix.drop_last() =~= input.take(taken as int));
        assert(prefix.last() == f@);
        if is_json_file(f.name.as_str()) {
            let ghost before_sort = file_views(sorted@);
            let mut p: usize = 0;
            while p < sorted.len() && !file_precedes(&f, &sorted[p])
                invariant
                    p <= sorted.len(),
                    before_sort == file_views(sorted@),
                    forall|k: int| 0 <= k < p ==> !file_before(f@, #[trigger] before_sort[k]),
                decreases sorted.len() - p,
            {
                p = p + 1;
            }
            proof {
                crate::order::lemma_insert_by_at(f@, before_sort, file_order(), p as int);
            }
            let ghost fv = f@;
            sorted.insert(p, f);
            assert(file_views(sorted@) =~= before_sort.take(p as int).push(fv) + before_sort.skip(p as int));
            let ghost jf = json_files(input.take(taken as int));
            assert(json_files(prefix) =~= jf.push(fv));
            assert(jf.push(fv).drop_last() =~= jf);
            assert(jf.push(fv).last() == fv);
        } else {
            assert(json_files(prefix) == json_files(input.take(taken as int)));
        }
        assert(input.skip(taken as int).drop_first() =~= input.skip(taken + 1));
        taken = taken + 1;
    }
    assert(input.take(taken as int) =~= input);
    let ghost ordered = file_views(sorted@);
    assert(ordered.len() == sorted.len());
    let mut paths: Vec<String> = Vec::new();
    let mut i: usize = 0;
    while i < sorted.len()
        invariant
            i <= sorted.len(),
            ordered == file_views(sorted@),
            paths.deep_view() =~= ordered.take(i as int).map_values(|f: FileView| f.0),
        decreases sorted.len() - i,
    {
        let ghost prev = paths.deep_view();
        let path = sorted[i].path.clone();
        let ghost pv = path@;
        paths.push(path);
        proof {
            assert(paths.deep_view() =~= prev.push(pv));
            assert(ordered[i as int] == sorted@[i as int]@);
            assert(paths.deep_view() =~= ordered.take(i + 1).map_values(|f: FileView| f.0));
        }
        i = i + 1;
    }
    assert(ordered.take(i as int) =~= ordered);
    paths
}

// ---------------------------------------------------------------------
// Running Turborepo
// ---------------------------------------------------------------------

/// How the dry run is named in messages.
pub open spec fn spec_dry_run_command(program: Seq<char>) -> Seq<char> {
    program + " run <tasks> --dry=json"@
}

pub fn dry_run_command(program: &str) -> (r: String)
    ensures
        r@ == spec_dry_run_command(program@),
{
    let mut r = owned(program);
    push_str(&mut r, " run <tasks> --dry=json");
    r
}

/// An exit status as text: the code in decimal, or the note that a signal
/// ended the program.
pub open spec fn spec_status_text(code: Option<i32>) -> Seq<char> {
    match code {
        Some(c) => if c < 0 { "-"@ + dec((-c) as nat) } else { dec(c as nat) },
        None => "terminated by signal"@,
    }
}

fn status_text(code: Option<i32>) -> (r: String)
    ensures
        r@ == spec_status_text(code),
{
    match code {
        Some(c) => {
            if c < 0 {
                let magnitude: u64 = if c == i32::MIN { 2147483648u64 } else { (-c) as u64 };
                let mut s = owned("-");
                let d = decimal(magnitude);
                push_str(&mut s, d.as_str());
                s
            } else {
                decimal(c as u64)
            }
        },
        None => owned("terminated by signal"),
    }
}

/// The error of a dry run that exited unsuccessfully.
pub fn dry_run_failure(command: &str, code: Option<i32>, stderr: &str) -> (e: Error)
    ensures
        e matches Error::Command { command: c, status, stderr: s } && c@ == command@ && status@ == spec_status_text(code)
            && s@ == trim_ws(stderr@),
{
    Error::Command { command: owned(command), status: status_text(code), stderr: trim_whitespace(stderr) }
}

// ---------------------------------------------------------------------
// Task configuration
// ---------------------------------------------------------------------

/// What `turbo.json` says of its tasks: for each of the keys `tasks` and
/// `pipeline`, whether it is present and, when its value is an object, the
/// object's keys in order.
#[derive(Debug)]
pub struct TurboConfig {
    pub tasks: Option<Option<Vec<String>>>,
    pub pipeline: Option<Option<Vec<String>>>,
}

/// The task names of `turbo.json`: the keys of `tasks`, or of `pipeline`
/// when there is no `tasks`.
pub open spec fn spec_configured_names(config: &TurboConfig) -> Seq<Seq<char>> {
    let entry = if config.tasks is Some { config.tasks } else { config.pipeline };
    match entry {
        Some(Some(keys)) => keys.deep_view(),
        _ => Seq::empty(),
    }
}

/// The tasks that `turbo.json` at `path` declares; an error when there are
/// none.
pub fn configured_tasks(path: &str, config: &TurboConfig) -> (r: Result<Vec<String>, Error>)
    ensures
        spec_configured_names(config).len() > 0 <==> r is Ok,
        r matches Ok(names) ==> names.deep_view() == spec_configured_names(config),
        r matches Err(e) ==> e matches Error::NoConfiguredTasks(p) && p@ == path@,
{
    let entry = if config.tasks.is_some() { &config.tasks } else { &config.pipeline };
    let names: Vec<String> = match entry {
        Some(Some(keys)) => keys.clone(),
        _ => Vec::new(),
    };
    proof {
        match entry {
            Some(Some(keys)) => {
                assert(names.deep_view() =~= keys.deep_view());
            },
            _ => {
                assert(names.deep_view() =~= Seq::<Seq<char>>::empty());
            },
        }
    }
    if names.len() == 0 {
        return Err(Error::NoConfiguredTasks(owned(path)));
    }
    Ok(names)
}

// ---------------------------------------------------------------------
// Warnings and notices
// ---------------------------------------------------------------------

/// The warning for a summary whose schema is neither 0 nor 1.
pub open spec fn schema_warning(source: &SummarySource) -> Option<Seq<char>> {
    match source.summary.version {
        Some(v) => if v@ != "0"@ && v@ != "1"@ {
            Some(source.path@ + " uses run-summary schema "@ + v@ + "; parsed in compatibility mode."@)
        } else {
            None
        },
        None => None,
    }
}

pub fn collect_schema_warning(source: &SummarySource, warnings: &mut Vec<String>)
    ensures
        final(warnings).deep_view() == match schema_warning(source) {
            Some(w) => old(warnings).deep_view().push(w),
            None => old(warnings).deep_view(),
        },
{
    let ghost before = warnings.deep_view();
    match &source.summary.version {
        Some(v) => {
            if !crate::text::str_eq(v.as_str(), "0") && !crate::text::str_eq(v.as_str(), "1") {
                let mut w = source.path.clone();
                push_str(&mut w, " uses run-summary schema ");
                push_str(&mut w, v.as_str());
                push_str(&mut w, "; parsed in compatibility mode.");
                let ghost wv = w@;
                warnings.push(w);
                assert(warnings.deep_view() =~= before.push(wv));
            }
        },
        None => {},
    }
}

/// The command to run after a baseline was captured.
pub open spec fn spec_next_command(task: Option<Seq<char>>) -> Seq<char> {
    match task {
        Some(t) => "whycache "@ + t,
        None => "whycache"@,
    }
}

pub fn next_command(task: &Option<String>) -> (r: String)
    ensures
        r@ == spec_next_command(task.deep_view()),
{
    match task {
        Some(t) => {
            let mut s = owned("whycache ");
            push_str(&mut s, t.as_str());
            s
        },
        None => owned("whycache"),
    }
}

pub open spec fn captured_message() -> Seq<char> {
    "No historical summary existed, so WhyCache captured the current inputs. A past cache miss cannot be reconstructed without a baseline."@
}

/// The outcome of a first run that could only record a baseline.
pub fn captured(root: &str, style: PathStyle, task: &Option<String>, task_count: usize) -> (r: BaselineCaptured)
    ensures
        r.schema_version@ == "1"@,
        r.status@ == "baseline_captured"@,
        r.path@ == spec_relative_display(root@, spec_join(root@, own_baseline(), style), style),
        r.task_count == task_count,
        r.message@ == captured_message(),
        r.next_command@ == spec_next_command(task.deep_view()),
{
    let own = own_baseline_path(root, style);
    BaselineCaptured {
        schema_version: "1",
        status: "baseline_captured",
        path: relative_display(root, own.as_str(), style),
        task_count,
        message: owned("No historical summary existed, so WhyCache captured the current inputs. A past cache miss cannot be reconstructed without a baseline."),
        next_command: next_command(task),
    }
}

} // verus!

verus! {

// ---------------------------------------------------------------------
// Choosing the two summaries
// ---------------------------------------------------------------------

/// A comparison ready to diagnose, or the notice that only a baseline could
/// be recorded.
#[derive(Debug)]
pub enum LoadResult {
    Ready(Box<SummaryPair>),
    BaselineCaptured(BaselineCaptured),
}

/// What the caller does next while the summaries are chosen, and the event
/// it answers with.
#[derive(Debug)]
pub enum LoadAction {
    /// Read and decode the summary file at this path; answer `Summary`.
    ReadSummary(String),
    /// Read and decode a summary from standard input; answer `Summary`.
    ReadStdin,
    /// Tell whether the two paths name one file; answer `SameFile`.
    CompareFiles(String, String),
    /// Read and decode the summary at this path if possible; answer `Probed`.
    ProbeSummary(String),
    /// Read the tasks that `turbo.json` declares; answer `Tasks`.
    ReadConfiguredTasks,
    /// Run Turborepo's dry run for these tasks, keep its output and decode
    /// it; answer `Dry`.
    RunDry(Vec<String>),
    /// Tell whether the saved baseline is a file; answer `Exists`.
    CheckSavedBaseline,
    /// Save the dry run's output as the baseline; answer `Saved`.
    SaveBaseline,
    /// Loading is over.
    Finish(Result<LoadResult, Error>),
}

/// What the caller learned.
#[derive(Debug)]
pub enum LoadEvent {
    Started,
    Summary(Result<crate::model::RunSummary, Error>),
    SameFile(bool),
    Probed(Option<crate::model::RunSummary>),
    Tasks(Result<Vec<String>, Error>),
    Dry(Result<crate::model::RunSummary, Error>),
    Exists(bool),
    Saved(Result<(), Error>),
}

/// Where the choice stands.
#[derive(Debug)]
pub enum LoadStage {
    Start,
    /// Reading the summary given with `--against`, from this path.
    AgainstBaseline(String),
    /// Reading the newest summary, from this path.
    AgainstCurrent(SummarySource, String),
    /// Asking whether the two summaries are one file.
    AgainstCompare(SummarySource, SummarySource),
    /// Reading the newest summary, from this path.
    HistoryCurrent(String),
    /// Looking at the earlier summary at this index for a successful run.
    HistorySearch(SummarySource, usize),
    /// Reading the chosen baseline, from this path.
    HistoryBaseline(SummarySource, String),
    /// Reading the configured tasks.
    SnapshotTasks,
    /// Running the dry run.
    SnapshotDry,
    /// Reading the baseline for the dry run, from this path.
    SnapshotBaseline(SummarySource, String),
    /// Asking whether a saved baseline exists.
    SnapshotExists(SummarySource),
    /// Saving the first baseline of a run with this many tasks.
    Capture(usize),
    /// Saving the new baseline after comparing with the old one.
    Refresh(SummarySource, SummarySource),
    Done,
}

/// The choice of the summaries to compare, one event at a time.
pub struct Loader {
    root: String,
    against: Option<String>,
    against_absolute: bool,
    style: PathStyle,
    task: Option<String>,
    summaries: Vec<String>,
    stage: LoadStage,
}

/// The warning that a fresh dry run was compared with a saved baseline.
pub open spec fn snapshot_warning() -> Seq<char> {
    "Compared a fresh `turbo --dry=json` snapshot with the latest saved baseline."@
}

/// The schema warnings of a baseline and a current summary, in this order.
pub open spec fn schema_warnings(baseline: &SummarySource, current: &SummarySource) -> Seq<Seq<char>> {
    (match schema_warning(baseline) { Some(w) => seq![w], None => Seq::empty() })
        + (match schema_warning(current) { Some(w) => seq![w], None => Seq::empty() })
}

/// The pair of `baseline` and `current` with the warnings `extra` and then
/// their schema warnings.
pub open spec fn ready_with(r: Result<LoadResult, Error>, baseline: SummarySource, current: SummarySource, extra: Seq<Seq<char>>) -> bool {
    r matches Ok(LoadResult::Ready(pair)) && pair.baseline == baseline && pair.current == current
        && pair.warnings.deep_view() == extra + schema_warnings(&baseline, &current)
}

impl Loader {
    #[verifier::type_invariant]
    pub closed spec fn consistent(&self) -> bool {
        match self.stage {
            LoadStage::HistoryCurrent(_) => self.summaries.len() >= 2,
            LoadStage::HistorySearch(_, k) => k + 1 < self.summaries.len(),
            _ => true,
        }
    }

    pub closed spec fn spec_stage(&self) -> &LoadStage {
        &self.stage
    }

    pub closed spec fn spec_root(&self) -> Seq<char> {
        self.root@
    }

    pub closed spec fn spec_against(&self) -> Option<Seq<char>> {
        self.against.deep_view()
    }

    /// Whether the platform takes the `--against` path as absolute.
    pub closed spec fn spec_against_absolute(&self) -> bool {
        self.against_absolute
    }

    /// How the platform writes paths.
    pub closed spec fn spec_style(&self) -> PathStyle {
        self.style
    }

    pub closed spec fn spec_task(&self) -> Option<Seq<char>> {
        self.task.deep_view()
    }

    pub closed spec fn spec_summaries(&self) -> Seq<Seq<char>> {
        self.summaries.deep_view()
    }

    /// A loader for the repository at `root`, whose run summaries, oldest
    /// first, are `summaries`; paths are written as `style` writes them.
    pub fn new(
        root: String,
        against: Option<String>,
        against_absolute: bool,
        style: PathStyle,
        task: Option<String>,
        summaries: Vec<String>,
    ) -> (r: Loader)
        ensures
            r.spec_stage() is Start,
            r.spec_root() == root@,
            r.spec_against() == against.deep_view(),
            r.spec_against_absolute() == against_absolute,
            r.spec_style() == style,
            r.spec_task() == task.deep_view(),
            r.spec_summaries() == summaries.deep_view(),
    {
        Loader { root, against, against_absolute, style, task, summaries, stage: LoadStage::Start }
    }

    /// Whether `event` answers what this loader asked for last.
    pub open spec fn spec_accepts(&self, event: &LoadEvent) -> bool {
        match (self.spec_stage(), event) {
            (LoadStage::Start, LoadEvent::Started) => true,
            (LoadStage::AgainstBaseline(_), LoadEvent::Summary(_)) => true,
            (LoadStage::AgainstCurrent(_, _), LoadEvent::Summary(_)) => true,
            (LoadStage::AgainstCompare(_, _), LoadEvent::SameFile(_)) => true,
            (LoadStage::HistoryCurrent(_), LoadEvent::Summary(_)) => true,
            (LoadStage::HistorySearch(_, _), LoadEvent::Probed(_)) => true,
            (LoadStage::HistoryBaseline(_, _), LoadEvent::Summary(_)) => true,
            (LoadStage::SnapshotTasks, LoadEvent::Tasks(_)) => true,
            (LoadStage::SnapshotDry, LoadEvent::Dry(_)) => true,
            (LoadStage::SnapshotBaseline(_, _), LoadEvent::Summary(_)) => true,
            (LoadStage::SnapshotExists(_), LoadEvent::Exists(_)) => true,
            (LoadStage::Capture(_), LoadEvent::Saved(_)) => true,
            (LoadStage::Refresh(_, _), LoadEvent::Saved(_)) => true,
            _ => false,
        }
    }

    pub fn accepts(&self, event: &LoadEvent) -> (r: bool)
        ensures
            r == self.spec_accepts(event),
    {
        match (&self.stage, event) {
            (LoadStage::Start, LoadEvent::Started) => true,
            (LoadStage::AgainstBaseline(_), LoadEvent::Summary(_)) => true,
            (LoadStage::AgainstCurrent(_, _), LoadEvent::Summary(_)) => true,
            (LoadStage::AgainstCompare(_, _), LoadEvent::SameFile(_)) => true,
            (LoadStage::HistoryCurrent(_), LoadEvent::Summary(_)) => true,
            (LoadStage::HistorySearch(_, _), LoadEvent::Probed(_)) => true,
            (LoadStage::HistoryBaseline(_, _), LoadEvent::Summary(_)) => true,
            (LoadStage::SnapshotTasks, LoadEvent::Tasks(_)) => true,
            (LoadStage::SnapshotDry, LoadEvent::Dry(_)) => true,
            (LoadStage::SnapshotBaseline(_, _), LoadEvent::Summary(_)) => true,
            (LoadStage::SnapshotExists(_), LoadEvent::Exists(_)) => true,
            (LoadStage::Capture(_), LoadEvent::Saved(_)) => true,
            (LoadStage::Refresh(_, _), LoadEvent::Saved(_)) => true,
            _ => false,
        }
    }
}

/// The loader after `event`, and the action it asks for.
pub open spec fn spec_transition(old: &Loader, event: LoadEvent, new: &Loader, action: &LoadAction) -> bool {
    let root = old.spec_root();
    let style = old.spec_style();
    let sums = old.spec_summaries();
    let n = sums.len();
    &&& new.spec_root() == root
    &&& new.spec_against() == old.spec_against()
    &&& new.spec_against_absolute() == old.spec_against_absolute()
    &&& new.spec_style() == style
    &&& new.spec_task() == old.spec_task()
    &&& new.spec_summaries() == sums
    &&& match (*old.spec_stage(), event) {
        (LoadStage::Start, LoadEvent::Started) => match old.spec_against() {
            Some(a) => if a == "-"@ {
                &&& *action is ReadStdin
                &&& new.spec_stage() matches LoadStage::AgainstBaseline(p) && p@ == "<stdin>"@
            } else {
                &&& *action matches LoadAction::ReadSummary(q) && q@ == spec_resolve(root, a, old.spec_against_absolute(), style)
                &&& new.spec_stage() matches LoadStage::AgainstBaseline(p) && p@ == spec_resolve(root, a, old.spec_against_absolute(), style)
            },
            None => if n >= 2 {
                &&& *action matches LoadAction::ReadSummary(q) && q@ == sums.last()
                &&& new.spec_stage() matches LoadStage::HistoryCurrent(p) && p@ == sums.last()
            } else {
                match old.spec_task() {
                    Some(t) => {
                        &&& new.spec_stage() is SnapshotDry
                        &&& *action matches LoadAction::RunDry(ts) && ts.deep_view() == seq![t]
                    },
                    None => new.spec_stage() is SnapshotTasks && *action is ReadConfiguredTasks,
                }
            },
        },
        (LoadStage::AgainstBaseline(p), LoadEvent::Summary(Ok(s))) => if n == 0 {
            &&& new.spec_stage() is Done
            &&& *action matches LoadAction::Finish(Err(Error::NoSummaries(x))) && x@ == ".turbo/runs"@
        } else {
            &&& *action matches LoadAction::ReadSummary(q) && q@ == sums.last()
            &&& new.spec_stage() matches LoadStage::AgainstCurrent(b, q) && b == (SummarySource { path: p, summary: s })
                && q@ == sums.last()
        },
        (LoadStage::AgainstCurrent(b, p), LoadEvent::Summary(Ok(s))) => {
            &&& *new.spec_stage() == LoadStage::AgainstCompare(b, SummarySource { path: p, summary: s })
            &&& *action matches LoadAction::CompareFiles(x, y) && x == b.path && y == p
        },
        (LoadStage::AgainstCompare(b, c), LoadEvent::SameFile(same)) => {
            &&& new.spec_stage() is Done
            &&& if same {
                *action matches LoadAction::Finish(Err(Error::SameSummary(x))) && x == c.path
            } else {
                *action matches LoadAction::Finish(r) && ready_with(r, b, c, Seq::empty())
            }
        },
        (LoadStage::HistoryCurrent(p), LoadEvent::Summary(Ok(s))) => {
            &&& new.spec_stage() matches LoadStage::HistorySearch(c, k) && c == (SummarySource { path: p, summary: s })
                && k == n - 2
            &&& *action matches LoadAction::ProbeSummary(x) && x@ == sums[n - 2]
        },
        (LoadStage::HistorySearch(c, k), LoadEvent::Probed(probe)) => if probe is Some && probe->0.spec_successful() {
            &&& new.spec_stage() matches LoadStage::HistoryBaseline(c2, p) && c2 == c && p@ == sums[k as int]
            &&& *action matches LoadAction::ReadSummary(q) && q@ == sums[k as int]
        } else if k == 0 {
            &&& new.spec_stage() matches LoadStage::HistoryBaseline(c2, p) && c2 == c && p@ == sums[n - 2]
            &&& *action matches LoadAction::ReadSummary(q) && q@ == sums[n - 2]
        } else {
            &&& new.spec_stage() matches LoadStage::HistorySearch(c2, k2) && c2 == c && k2 == k - 1
            &&& *action matches LoadAction::ProbeSummary(x) && x@ == sums[k - 1]
        },
        (LoadStage::HistoryBaseline(c, p), LoadEvent::Summary(Ok(s))) => {
            &&& new.spec_stage() is Done
            &&& *action matches LoadAction::Finish(r) && ready_with(r, SummarySource { path: p, summary: s }, c, Seq::empty())
        },
        (LoadStage::SnapshotTasks, LoadEvent::Tasks(Ok(ts))) => if ts.len() == 0 {
            &&& new.spec_stage() is Done
            &&& *action matches LoadAction::Finish(Err(Error::NoSummaries(x))) && x@ == spec_join(root, ".turbo/runs"@, style)
        } else {
            &&& new.spec_stage() is SnapshotDry
            &&& *action matches LoadAction::RunDry(ts2) && ts2.deep_view() == ts.deep_view()
        },
        (LoadStage::SnapshotDry, LoadEvent::Dry(Ok(s))) => if n > 0 {
            &&& new.spec_stage() matches LoadStage::SnapshotBaseline(c, p) && c.path@ == "<turbo --dry=json>"@
                && c.summary == s && p@ == sums.last()
            &&& *action matches LoadAction::ReadSummary(q) && q@ == sums.last()
        } else {
            &&& new.spec_stage() matches LoadStage::SnapshotExists(c) && c.path@ == "<turbo --dry=json>"@ && c.summary == s
            &&& *action is CheckSavedBaseline
        },
        (LoadStage::SnapshotBaseline(c, p), LoadEvent::Summary(Ok(s))) => {
            &&& *new.spec_stage() == LoadStage::Refresh(SummarySource { path: p, summary: s }, c)
            &&& *action is SaveBaseline
        },
        (LoadStage::SnapshotExists(c), LoadEvent::Exists(exists)) => if exists {
            &&& new.spec_stage() matches LoadStage::SnapshotBaseline(c2, p) && c2 == c
                && p@ == spec_join(root, own_baseline(), style)
            &&& *action matches LoadAction::ReadSummary(q) && q@ == spec_join(root, own_baseline(), style)
        } else {
            &&& *new.spec_stage() == LoadStage::Capture(c.summary.tasks.len())
            &&& *action is SaveBaseline
        },
        (LoadStage::Capture(count), LoadEvent::Saved(Ok(()))) => {
            &&& new.spec_stage() is Done
            &&& *action matches LoadAction::Finish(Ok(LoadResult::BaselineCaptured(cap)))
                && cap.schema_version@ == "1"@ && cap.status@ == "baseline_captured"@
                && cap.path@ == spec_relative_display(root, spec_join(root, own_baseline(), style), style)
                && cap.task_count == count && cap.message@ == captured_message()
                && cap.next_command@ == spec_next_command(old.spec_task())
        },
        (LoadStage::Refresh(b, c), LoadEvent::Saved(Ok(()))) => {
            &&& new.spec_stage() is Done
            &&& *action matches LoadAction::Finish(r) && ready_with(r, b, c, seq![snapshot_warning()])
        },
        (_, LoadEvent::Summary(Err(e))) => new.spec_stage() is Done && *action == LoadAction::Finish(Err(e)),
        (_, LoadEvent::Tasks(Err(e))) => new.spec_stage() is Done && *action == LoadAction::Finish(Err(e)),
        (_, LoadEvent::Dry(Err(e))) => new.spec_stage() is Done && *action == LoadAction::Finish(Err(e)),
        (_, LoadEvent::Saved(Err(e))) => new.spec_stage() is Done && *action == LoadAction::Finish(Err(e)),
        _ => false,
    }
}

impl Discovery {
    /// The choice of the summaries to compare for `cli` in this repository,
    /// whose run summaries, oldest first, are `summaries`; `against_absolute`
    /// tells whether the platform takes the `--against` path as absolute, and
    /// `style` how it writes paths.
    /// `Loader::step` runs it.
    pub fn load(&self, cli: &crate::cli::Cli, against_absolute: bool, style: PathStyle, summaries: Vec<String>) -> (r: Loader)
        ensures
            r.spec_stage() is Start,
            r.spec_root() == self.root@,
            r.spec_against() == cli.against.deep_view(),
            r.spec_against_absolute() == against_absolute,
            r.spec_style() == style,
            r.spec_task() == cli.task.deep_view(),
            r.spec_summaries() == summaries.deep_view(),
    {
        Loader::new(self.root.clone(), cli.against.deep_clone(), against_absolute, style, cli.task.deep_clone(), summaries)
    }
}

fn ready(baseline: SummarySource, current: SummarySource, extra: Vec<String>) -> (r: Result<LoadResult, Error>)
    ensures
        ready_with(r, baseline, current, extra.deep_view()),
{
    let ghost start = extra.deep_view();
    let mut warnings = extra;
    collect_schema_warning(&baseline, &mut warnings);
    collect_schema_warning(&current, &mut warnings);
    assert(warnings.deep_view() =~= start + schema_warnings(&baseline, &current));
    Ok(LoadResult::Ready(Box::new(SummaryPair { baseline, current, warnings })))
}

impl Loader {
    /// Takes in what the caller learned and tells it what to do next.
    #[verifier::spinoff_prover]
    pub fn step(self, event: LoadEvent) -> (r: (Loader, LoadAction))
        requires
            self.spec_accepts(&event),
        ensures
            spec_transition(&self, event, &r.0, &r.1),
    {
        proof { use_type_invariant(&self); }
        let Loader { root, against, against_absolute, style, task, summaries, stage } = self;
        let n = summaries.len();
        let (stage, action) = match (stage, event) {
            (LoadStage::Start, LoadEvent::Started) => match &against {
                Some(a) => {
                    if crate::text::str_eq(a.as_str(), "-") {
                        (LoadStage::AgainstBaseline(owned("<stdin>")), LoadAction::ReadStdin)
                    } else {
                        let p = resolve(root.as_str(), a.as_str(), against_absolute, style);
                        (LoadStage::AgainstBaseline(p.clone()), LoadAction::ReadSummary(p))
                    }
                },
                None => {
                    if n >= 2 {
                        let p = summaries[n - 1].clone();
                        assert(summaries.deep_view().last() == summaries@[n - 1]@);
                        (LoadStage::HistoryCurrent(p.clone()), LoadAction::ReadSummary(p))
                    } else {
                        match &task {
                            Some(t) => {
                                let mut ts: Vec<String> = Vec::new();
                                ts.push(t.clone());
                                assert(ts.deep_view() =~= seq![t@]);
                                (LoadStage::SnapshotDry, LoadAction::RunDry(ts))
                            },
                            None => (LoadStage::SnapshotTasks, LoadAction::ReadConfiguredTasks),
                        }
                    }
                },
            },
            (LoadStage::AgainstBaseline(p), LoadEvent::Summary(Ok(s))) => {
                if n == 0 {
                    (LoadStage::Done, LoadAction::Finish(Err(Error::NoSummaries(owned(".turbo/runs")))))
                } else {
                    let q = summaries[n - 1].clone();
                    assert(summaries.deep_view().last() == summaries@[n - 1]@);
                    (LoadStage::AgainstCurrent(SummarySource { path: p, summary: s }, q.clone()), LoadAction::ReadSummary(q))
                }
            },
            (LoadStage::AgainstCurrent(b, p), LoadEvent::Summary(Ok(s))) => {
                let x = b.path.clone();
                let y = p.clone();
                (LoadStage::AgainstCompare(b, SummarySource { path: p, summary: s }), LoadAction::CompareFiles(x, y))
            },
            (LoadStage::AgainstCompare(b, c), LoadEvent::SameFile(same)) => {
                if same {
                    (LoadStage::Done, LoadAction::Finish(Err(Error::SameSummary(c.path))))
                } else {
                    let none: Vec<String> = Vec::new();
                    assert(none.deep_view() =~= Seq::<Seq<char>>::empty());
                    (LoadStage::Done, LoadAction::Finish(ready(b, c, none)))
                }
            },
            (LoadStage::HistoryCurrent(p), LoadEvent::Summary(Ok(s))) => {
                let k = n - 2;
                let x = summaries[k].clone();
                assert(summaries.deep_view()[k as int] == summaries@[k as int]@);
                (LoadStage::HistorySearch(SummarySource { path: p, summary: s }, k), LoadAction::ProbeSummary(x))
            },
            (LoadStage::HistorySearch(c, k), LoadEvent::Probed(probe)) => {
                let succeeded = match &probe {
                    Some(s) => s.successful(),
                    None => false,
                };
                if succeeded {
                    let p = summaries[k].clone();
                    assert(summaries.deep_view()[k as int] == summaries@[k as int]@);
                    (LoadStage::HistoryBaseline(c, p.clone()), LoadAction::ReadSummary(p))
                } else if k == 0 {
                    let p = summaries[n - 2].clone();
                    assert(summaries.deep_view()[n - 2] == summaries@[n - 2]@);
                    (LoadStage::HistoryBaseline(c, p.clone()), LoadAction::ReadSummary(p))
                } else {
                    let x = summaries[k - 1].clone();
                    assert(summaries.deep_view()[k - 1] == summaries@[k - 1]@);
                    (LoadStage::HistorySearch(c, k - 1), LoadAction::ProbeSummary(x))
                }
            },
            (LoadStage::HistoryBaseline(c, p), LoadEvent::Summary(Ok(s))) => {
                let none: Vec<String> = Vec::new();
                assert(none.deep_view() =~= Seq::<Seq<char>>::empty());
                (LoadStage::Done, LoadAction::Finish(ready(SummarySource { path: p, summary: s }, c, none)))
            },
            (LoadStage::SnapshotTasks, LoadEvent::Tasks(Ok(ts))) => {
                if ts.len() == 0 {
                    (LoadStage::Done, LoadAction::Finish(Err(Error::NoSummaries(join(root.as_str(), ".turbo/runs", style)))))
                } else {
                    (LoadStage::SnapshotDry, LoadAction::RunDry(ts))
                }
            },
            (LoadStage::SnapshotDry, LoadEvent::Dry(Ok(s))) => {
                let c = SummarySource { path: owned("<turbo --dry=json>"), summary: s };
                if n > 0 {
                    let p = summaries[n - 1].clone();
                    assert(summaries.deep_view().last() == summaries@[n - 1]@);
                    (LoadStage::SnapshotBaseline(c, p.clone()), LoadAction::ReadSummary(p))
                } else {
                    (LoadStage::SnapshotExists(c), LoadAction::CheckSavedBaseline)
                }
            },
            (LoadStage::SnapshotBaseline(c, p), LoadEvent::Summary(Ok(s))) => {
                (LoadStage::Refresh(SummarySource { path: p, summary: s }, c), LoadAction::SaveBaseline)
            },
            (LoadStage::SnapshotExists(c), LoadEvent::Exists(exists)) => {
                if exists {
                    let p = own_baseline_path(root.as_str(), style);
                    (LoadStage::SnapshotBaseline(c, p.clone()), LoadAction::ReadSummary(p))
                } else {
                    let count = c.summary.tasks.len();
                    (LoadStage::Capture(count), LoadAction::SaveBaseline)
                }
            },
            (LoadStage::Capture(count), LoadEvent::Saved(Ok(()))) => {
                let cap = captured(root.as_str(), style, &task, count);
                (LoadStage::Done, LoadAction::Finish(Ok(LoadResult::BaselineCaptured(cap))))
            },
            (LoadStage::Refresh(b, c), LoadEvent::Saved(Ok(()))) => {
                let mut extra: Vec<String> = Vec::new();
                extra.push(owned("Compared a fresh `turbo --dry=json` snapshot with the latest saved baseline."));
                assert(extra.deep_view() =~= seq![snapshot_warning()]);
                (LoadStage::Done, LoadAction::Finish(ready(b, c, extra)))
            },
            (_, LoadEvent::Summary(Err(e))) => (LoadStage::Done, LoadAction::Finish(Err(e))),
            (_, LoadEvent::Tasks(Err(e))) => (LoadStage::Done, LoadAction::Finish(Err(e))),
            (_, LoadEvent::Dry(Err(e))) => (LoadStage::Done, LoadAction::Finish(Err(e))),
            (_, LoadEvent::Saved(Err(e))) => (LoadStage::Done, LoadAction::Finish(Err(e))),
            (stage, _) => (stage, LoadAction::ReadStdin),
        };
        (Loader { root, against, against_absolute, style, task, summaries, stage }, action)
    }
}

} // verus!

verus! {

/// Whether the probe that `event` answers found a successful run.
pub open spec fn probe_succeeded(event: LoadEvent) -> bool {
    match event {
        LoadEvent::Probed(Some(s)) => s.spec_successful(),
        _ => false,
    }
}

/// `loaders`, `events` and `actions` are a run of the loader: each loader
/// took the event at its index and became the next loader, asking for the
/// action at that index.
pub open spec fn loader_run(loaders: Seq<Loader>, events: Seq<LoadEvent>, actions: Seq<LoadAction>) -> bool {
    &&& loaders.len() == events.len() + 1
    &&& actions.len() == events.len()
    &&& forall|i: int| 0 <= i < events.len() ==> spec_transition(&loaders[i], events[i], &loaders[i + 1], &#[trigger] actions[i])
}

proof fn lemma_history_search(loaders: Seq<Loader>, events: Seq<LoadEvent>, actions: Seq<LoadAction>, i: int)
    requires
        loader_run(loaders, events, actions),
        *loaders[0].spec_stage() is Start,
        loaders[0].spec_against() is None,
        loaders[0].spec_summaries().len() >= 2,
        events[0] is Started,
        events[1] matches LoadEvent::Summary(Ok(_)),
        forall|j: int| 2 <= j < events.len() ==> #[trigger] events[j] is Probed,
        2 <= i < events.len(),
    ensures
        ({
            let sums = loaders[0].spec_summaries();
            let n = sums.len() as int;
            &&& loaders[i].spec_summaries() == sums
            &&& loaders[i].spec_stage() matches LoadStage::HistorySearch(_, k) && k == n - i
            &&& actions[i - 1] matches LoadAction::ProbeSummary(x) && x@ == sums[n - i]
            &&& forall|j: int| 2 <= j < i ==> !probe_succeeded(#[trigger] events[j])
        }),
    decreases i,
{
    let sums = loaders[0].spec_summaries();
    let n = sums.len() as int;
    assert(spec_transition(&loaders[0], events[0], &loaders[1], &actions[0]));
    assert(spec_transition(&loaders[1], events[1], &loaders[2], &actions[1]));
    if i > 2 {
        lemma_history_search(loaders, events, actions, i - 1);
        let prev = i - 1;
        assert(spec_transition(&loaders[prev], events[prev], &loaders[i], &actions[prev]));
        assert(events[i] is Probed);
        assert(events[prev] is Probed);
        if probe_succeeded(events[prev]) || n - prev == 0 {
            assert(loaders[i].spec_stage() is HistoryBaseline);
            assert(spec_transition(&loaders[i], events[i], &loaders[i + 1], &actions[i]));
            assert(false);
        }
    }
}

/// By default the newest summary is the current run, and the baseline is
/// the nearest earlier summary whose run succeeded: the earlier summaries
/// are looked at from the newest down, and the first one that succeeded is
/// read; when none did, the one just before the newest is.
pub proof fn law_history_baseline(loaders: Seq<Loader>, events: Seq<LoadEvent>, actions: Seq<LoadAction>)
    requires
        loader_run(loaders, events, actions),
        *loaders[0].spec_stage() is Start,
        loaders[0].spec_against() is None,
        loaders[0].spec_summaries().len() >= 2,
        events.len() >= 3,
        events[0] is Started,
        events[1] matches LoadEvent::Summary(Ok(_)),
        forall|j: int| 2 <= j < events.len() ==> #[trigger] events[j] is Probed,
        actions.last() is ReadSummary,
    ensures
        ({
            let sums = loaders[0].spec_summaries();
            let n = sums.len() as int;
            let m = events.len() as int;
            &&& actions[0] matches LoadAction::ReadSummary(q) && q@ == sums[n - 1]
            &&& forall|j: int| 2 <= j < m ==> ((#[trigger] actions[j - 1]) matches LoadAction::ProbeSummary(x) && x@ == sums[n - j])
            &&& forall|j: int| 2 <= j < m - 1 ==> !probe_succeeded(#[trigger] events[j])
            &&& actions[m - 1] matches LoadAction::ReadSummary(p) && if probe_succeeded(events[m - 1]) {
                p@ == sums[n - m + 1]
            } else {
                m == n + 1 && p@ == sums[n - 2]
            }
        }),
{
    let sums = loaders[0].spec_summaries();
    let n = sums.len() as int;
    let m = events.len() as int;
    assert(spec_transition(&loaders[0], events[0], &loaders[1], &actions[0]));
    lemma_history_search(loaders, events, actions, m - 1);
    assert forall|j: int| 2 <= j < m implies ((#[trigger] actions[j - 1]) matches LoadAction::ProbeSummary(x) && x@ == sums[n - j]) by {
        lemma_history_search(loaders, events, actions, j);
    };
    assert(spec_transition(&loaders[m - 1], events[m - 1], &loaders[m], &actions[m - 1]));
}


/// When the summary of a dry run comes in, the newest run summary, if there
/// is one, is read next to be compared with it; only when there is none is
/// the saved baseline looked for.
pub proof fn law_snapshot_baseline(old: &Loader, s: crate::model::RunSummary, new: &Loader, action: &LoadAction)
    requires
        spec_transition(old, LoadEvent::Dry(Ok(s)), new, action),
    ensures
        old.spec_summaries().len() > 0
            ==> (action matches LoadAction::ReadSummary(p) && p@ == old.spec_summaries().last()),
        old.spec_summaries().len() == 0 ==> action is CheckSavedBaseline,
        new.spec_summaries() == old.spec_summaries(),
{
}

} // verus!
