//! Reading project listings and files from the read-only Nextcloud data
//! volume mount.
//!
//! The directory reads themselves are done by the caller: each listing
//! function takes a directory reader `list_dir(path)` that returns the
//! entries of the directory at `path`, or `None` when `path` is not a
//! directory or cannot be read. The functions here decide which directory is
//! read and what is made of its entries.

use vstd::prelude::*;

use crate::container::{DEFAULT_MANIFEST_FILENAME, DIR_MODELS, LEGACY_SUBDIR, MANIFEST_EXTENSION};
use crate::paths::{answered, join_path, path_join, resolved};
use crate::sorting::{Named, sort_by_name, sorted_by_name};
use crate::text::{has_suffix, lowercase, str_ends_with, str_starts_with_char, to_lowercase};
use crate::timestamp::{format_timestamp, iso8601_text};
use crate::ManifestInfo;

verus! {

/// Size and modification time of a directory entry.
pub struct FileMeta {
    pub size: u64,
    /// Modification time in seconds since the Unix epoch (0 when unknown or earlier).
    pub modified_secs: u64,
}

/// One entry of a directory listing, as the directory reader reports it.
pub struct DirEntryInfo {
    /// The entry's file name; `None` when it is not valid UTF-8.
    pub name: Option<String>,
    /// The entry's full path.
    pub path: String,
    /// The entry is (or links to) a regular file.
    pub is_file: bool,
    /// The entry is (or links to) a directory.
    pub is_dir: bool,
    /// The entry's metadata; `None` when it could not be read.
    pub meta: Option<FileMeta>,
}

/// Metadata for a file on the volume mount.
pub struct VolumeFileInfo {
    pub name: String,
    pub path: String,
    pub size: u64,
    /// ISO 8601 timestamp.
    pub last_modified: String,
}

/// A project directory on the volume mount.
pub struct VolumeProject {
    pub name: String,
    pub path: String,
}

impl Named for DirEntryInfo {
    open spec fn key(&self) -> Seq<char> {
        match self.name {
            Some(n) => n@,
            None => Seq::empty(),
        }
    }

    fn sort_key(&self) -> (r: &str) {
        match &self.name {
            Some(n) => n.as_str(),
            None => {
                proof {
                    reveal_strlit("");
                }
                ""
            },
        }
    }
}

// ── Model ───────────────────────────────────────────────────

/// `list_dir` returned `out` when asked for the directory `dir`.
pub open spec fn listed<F: Fn(&str) -> Option<Vec<DirEntryInfo>>>(
    list_dir: F,
    dir: Seq<char>,
    out: Option<Vec<DirEntryInfo>>,
) -> bool {
    exists|d: &str| d@ == dir && call_ensures(list_dir, (d,), out)
}

/// `r` is what the file listing of directory `dir` gives: the directory is
/// read with `list_dir`, and `r` describes the selected files of what came
/// back (none when it could not be listed), sorted by name.
pub open spec fn lists_files<F: Fn(&str) -> Option<Vec<DirEntryInfo>>>(
    list_dir: F,
    dir: Seq<char>,
    exts: Option<Seq<Seq<char>>>,
    r: Seq<VolumeFileInfo>,
) -> bool {
    exists|out: Option<Vec<DirEntryInfo>>|
        listed(list_dir, dir, out) && files_describe(r, selected_files(entries_of(out), exts))
}

/// `r` is what the project listing of directory `dir` gives.
pub open spec fn lists_projects<F: Fn(&str) -> Option<Vec<DirEntryInfo>>>(
    list_dir: F,
    dir: Seq<char>,
    r: Seq<VolumeProject>,
) -> bool {
    exists|out: Option<Vec<DirEntryInfo>>|
        listed(list_dir, dir, out) && projects_describe(r, selected_projects(entries_of(out)))
}

/// `r` is what the manifest listing of directory `dir` gives.
pub open spec fn lists_manifests<F: Fn(&str) -> Option<Vec<DirEntryInfo>>>(
    list_dir: F,
    dir: Seq<char>,
    r: Seq<ManifestInfo>,
) -> bool {
    exists|out: Option<Vec<DirEntryInfo>>|
        listed(list_dir, dir, out) && manifests_describe(r, selected_manifests(entries_of(out)))
}

/// The entries of a listing, none when the directory could not be listed.
pub open spec fn entries_of(out: Option<Vec<DirEntryInfo>>) -> Seq<DirEntryInfo> {
    match out {
        Some(v) => v@,
        None => Seq::empty(),
    }
}

/// A dot file (hidden on Unix).
pub open spec fn is_hidden(name: Seq<char>) -> bool {
    name.len() > 0 && name[0] == '.'
}

/// `name` ends with one of `exts`, compared in lower case.
pub open spec fn has_any_extension(name: Seq<char>, exts: Seq<Seq<char>>) -> bool {
    exists|k: int| 0 <= k < exts.len() && has_suffix(lowercase(name), lowercase(#[trigger] exts[k]))
}

/// The characters of each extension.
pub open spec fn ext_views(exts: Option<&[&str]>) -> Option<Seq<Seq<char>>> {
    match exts {
        Some(xs) => Some(xs@.map_values(|x: &str| x@)),
        None => None,
    }
}

/// A listed file: a regular, non-hidden file with a UTF-8 name that has one
/// of the extensions (when extensions are given).
pub open spec fn file_selected(e: DirEntryInfo, exts: Option<Seq<Seq<char>>>) -> bool {
    &&& e.is_file
    &&& e.name is Some
    &&& !is_hidden(e.name->0@)
    &&& match exts {
        Some(xs) => has_any_extension(e.name->0@, xs),
        None => true,
    }
}

/// The size and timestamp text of an entry: `(0, "")` without metadata.
pub open spec fn meta_matches(size: u64, last_modified: Seq<char>, meta: Option<FileMeta>) -> bool {
    match meta {
        Some(m) => size == m.size && last_modified == iso8601_text(m.modified_secs as nat),
        None => size == 0 && last_modified == Seq::<char>::empty(),
    }
}

/// `info` describes the directory entry `e`.
pub open spec fn file_info_of(info: VolumeFileInfo, e: DirEntryInfo) -> bool {
    &&& info.name@ == e.name->0@
    &&& info.path@ == e.path@
    &&& meta_matches(info.size, info.last_modified@, e.meta)
}

/// `r` describes, one to one, the entries `sel`.
pub open spec fn files_describe(r: Seq<VolumeFileInfo>, sel: Seq<DirEntryInfo>) -> bool {
    r.len() == sel.len() && forall|i: int| 0 <= i < r.len() ==> file_info_of(#[trigger] r[i], sel[i])
}

/// The selected files of a listing, sorted by name.
pub open spec fn selected_files(es: Seq<DirEntryInfo>, exts: Option<Seq<Seq<char>>>) -> Seq<DirEntryInfo> {
    sorted_by_name(es.filter(|e: DirEntryInfo| file_selected(e, exts)))
}

/// A listed project: a non-hidden directory with a UTF-8 name.
pub open spec fn project_selected(e: DirEntryInfo) -> bool {
    e.is_dir && e.name is Some && !is_hidden(e.name->0@)
}

/// The project directories of a listing, sorted by name.
pub open spec fn selected_projects(es: Seq<DirEntryInfo>) -> Seq<DirEntryInfo> {
    sorted_by_name(es.filter(|e: DirEntryInfo| project_selected(e)))
}

/// `r` describes, one to one, the project directories `sel`.
pub open spec fn projects_describe(r: Seq<VolumeProject>, sel: Seq<DirEntryInfo>) -> bool {
    r.len() == sel.len() && forall|i: int|
        0 <= i < r.len() ==> (#[trigger] r[i]).name@ == sel[i].name->0@ && r[i].path@ == sel[i].path@
}

/// A listed manifest: a regular file with a UTF-8 name ending in `.wefc`.
pub open spec fn manifest_selected(e: DirEntryInfo) -> bool {
    e.is_file && e.name is Some && has_suffix(e.name->0@, MANIFEST_EXTENSION@)
}

/// The manifest files of a listing, sorted by name.
pub open spec fn selected_manifests(es: Seq<DirEntryInfo>) -> Seq<DirEntryInfo> {
    sorted_by_name(es.filter(|e: DirEntryInfo| manifest_selected(e)))
}

/// `r` describes, one to one, the manifest files `sel`.
pub open spec fn manifests_describe(r: Seq<ManifestInfo>, sel: Seq<DirEntryInfo>) -> bool {
    r.len() == sel.len() && forall|i: int|
        0 <= i < r.len() ==> (#[trigger] r[i]).name@ == sel[i].name->0@ && meta_matches(
            r[i].size,
            r[i].last_modified@,
            sel[i].meta,
        )
}

} // verus!

verus! {

/// Whether `name` ends with one of `exts`, compared in lower case.
fn has_extension(name: &str, exts: &[&str]) -> (r: bool)
    ensures
        r == has_any_extension(name@, exts@.map_values(|x: &str| x@)),
{
    let ghost xs = exts@.map_values(|x: &str| x@);
    let lower = to_lowercase(name);
    let mut k: usize = 0;
    while k < exts.len()
        invariant
            k <= exts@.len(),
            xs == exts@.map_values(|x: &str| x@),
            lower@ == lowercase(name@),
            forall|j: int| 0 <= j < k ==> !has_suffix(lowercase(name@), lowercase(#[trigger] xs[j])),
        decreases exts@.len() - k,
    {
        let ext = to_lowercase(exts[k]);
        if str_ends_with(lower.as_str(), ext.as_str()) {
            assert(xs[k as int] == exts@[k as int]@);
            return true;
        }
        assert(xs[k as int] == exts@[k as int]@);
        k = k + 1;
    }
    false
}

fn is_file_selected(e: &DirEntryInfo, exts: Option<&[&str]>) -> (r: bool)
    ensures
        r == file_selected(*e, ext_views(exts)),
{
    if !e.is_file {
        return false;
    }
    match &e.name {
        None => false,
        Some(n) => {
            if str_starts_with_char(n.as_str(), '.') {
                return false;
            }
            match exts {
                None => true,
                Some(xs) => has_extension(n.as_str(), xs),
            }
        },
    }
}

fn timestamp_of(meta: &Option<FileMeta>) -> (r: (u64, String))
    ensures
        meta_matches(r.0, r.1@, *meta),
{
    match meta {
        Some(m) => (m.size, format_timestamp(m.modified_secs)),
        None => (0, String::new()),
    }
}

/// The regular, non-hidden files of a listing that have one of `exts` (any
/// file when `exts` is `None`), sorted by name.
pub fn select_files(entries: Vec<DirEntryInfo>, exts: Option<&[&str]>) -> (r: Vec<VolumeFileInfo>)
    ensures
        files_describe(r@, selected_files(entries@, ext_views(exts))),
{
    let ghost es = entries@;
    let ghost pred = |e: DirEntryInfo| file_selected(e, ext_views(exts));
    let n = entries.len();
    let mut rest = entries;
    let mut kept: Vec<DirEntryInfo> = Vec::new();
    let mut k: usize = 0;
    assert(es.skip(0) =~= es);
    assert(es.take(0) =~= Seq::<DirEntryInfo>::empty());
    while k < n
        invariant
            n == es.len(),
            k <= n,
            rest@ == es.skip(k as int),
            kept@ == es.take(k as int).filter(pred),
            pred == (|e: DirEntryInfo| file_selected(e, ext_views(exts))),
        decreases n - k,
    {
        let ghost before = rest@;
        let e = rest.remove(0);
        assert(before.drop_first() =~= rest@);
        assert(rest@ =~= es.skip(k + 1));
        assert(e == es[k as int]);
        assert(es.take(k + 1) =~= es.take(k as int).push(e));
        proof {
            es.take(k as int).lemma_filter_push(e, pred);
        }
        if is_file_selected(&e, exts) {
            kept.push(e);
        }
        k = k + 1;
    }
    assert(es.take(n as int) =~= es);
    let ghost filtered = kept@;
    let sorted = sort_by_name(kept);
    let ghost sel = sorted@;
    let m = sorted.len();
    assert forall|i: int| 0 <= i < m implies #[trigger] sel[i].name is Some by {
        crate::sorting::lemma_sorted_filter_satisfies(es, pred, i);
    }
    let mut rest2 = sorted;
    let mut out: Vec<VolumeFileInfo> = Vec::new();
    let mut j: usize = 0;
    assert(sel.skip(0) =~= sel);
    while j < m
        invariant
            m == sel.len(),
            j <= m,
            rest2@ == sel.skip(j as int),
            out@.len() == j,
            forall|i: int| 0 <= i < j ==> file_info_of(#[trigger] out@[i], sel[i]),
            forall|i: int| 0 <= i < m ==> #[trigger] sel[i].name is Some,
        decreases m - j,
    {
        let ghost before = rest2@;
        let e = rest2.remove(0);
        assert(before.drop_first() =~= rest2@);
        assert(rest2@ =~= sel.skip(j + 1));
        assert(e == sel[j as int]);
        let (size, last_modified) = timestamp_of(&e.meta);
        let name = match e.name {
            Some(s) => s,
            None => String::new(),
        };
        out.push(VolumeFileInfo { name, path: e.path, size, last_modified });
        j = j + 1;
    }
    out
}

} // verus!

verus! {

fn is_project_selected(e: &DirEntryInfo) -> (r: bool)
    ensures
        r == project_selected(*e),
{
    match &e.name {
        Some(n) => e.is_dir && !str_starts_with_char(n.as_str(), '.'),
        None => false,
    }
}

fn is_manifest_selected(e: &DirEntryInfo) -> (r: bool)
    ensures
        r == manifest_selected(*e),
{
    match &e.name {
        Some(n) => e.is_file && str_ends_with(n.as_str(), MANIFEST_EXTENSION),
        None => false,
    }
}

/// The non-hidden directories of a listing that have a UTF-8 name, sorted by name.
pub fn select_projects(entries: Vec<DirEntryInfo>) -> (r: Vec<VolumeProject>)
    ensures
        projects_describe(r@, selected_projects(entries@)),
{
    let ghost es = entries@;
    let ghost pred = |e: DirEntryInfo| project_selected(e);
    let n = entries.len();
    let mut rest = entries;
    let mut kept: Vec<DirEntryInfo> = Vec::new();
    let mut k: usize = 0;
    assert(es.skip(0) =~= es);
    assert(es.take(0) =~= Seq::<DirEntryInfo>::empty());
    while k < n
        invariant
            n == es.len(),
            k <= n,
            rest@ == es.skip(k as int),
            kept@ == es.take(k as int).filter(pred),
            pred == (|e: DirEntryInfo| project_selected(e)),
        decreases n - k,
    {
        let ghost before = rest@;
        let e = rest.remove(0);
        assert(before.drop_first() =~= rest@);
        assert(rest@ =~= es.skip(k + 1));
        assert(e == es[k as int]);
        assert(es.take(k + 1) =~= es.take(k as int).push(e));
        proof {
            es.take(k as int).lemma_filter_push(e, pred);
        }
        if is_project_selected(&e) {
            kept.push(e);
        }
        k = k + 1;
    }
    assert(es.take(n as int) =~= es);
    let sorted = sort_by_name(kept);
    let ghost sel = sorted@;
    let m = sorted.len();
    assert forall|i: int| 0 <= i < m implies #[trigger] sel[i].name is Some by {
        crate::sorting::lemma_sorted_filter_satisfies(es, pred, i);
    }
    let mut rest2 = sorted;
    let mut out: Vec<VolumeProject> = Vec::new();
    let mut j: usize = 0;
    assert(sel.skip(0) =~= sel);
    while j < m
        invariant
            m == sel.len(),
            j <= m,
            rest2@ == sel.skip(j as int),
            out@.len() == j,
            forall|i: int|
                0 <= i < j ==> (#[trigger] out@[i]).name@ == sel[i].name->0@ && out@[i].path@
                    == sel[i].path@,
            forall|i: int| 0 <= i < m ==> #[trigger] sel[i].name is Some,
        decreases m - j,
    {
        let ghost before = rest2@;
        let e = rest2.remove(0);
        assert(before.drop_first() =~= rest2@);
        assert(rest2@ =~= sel.skip(j + 1));
        assert(e == sel[j as int]);
        let name = match e.name {
            Some(s) => s,
            None => String::new(),
        };
        out.push(VolumeProject { name, path: e.path });
        j = j + 1;
    }
    out
}

/// The regular files of a listing with a UTF-8 name ending in `.wefc`,
/// sorted by name.
pub fn select_manifests(entries: Vec<DirEntryInfo>) -> (r: Vec<ManifestInfo>)
    ensures
        manifests_describe(r@, selected_manifests(entries@)),
{
    let ghost es = entries@;
    let ghost pred = |e: DirEntryInfo| manifest_selected(e);
    let n = entries.len();
    let mut rest = entries;
    let mut kept: Vec<DirEntryInfo> = Vec::new();
    let mut k: usize = 0;
    assert(es.skip(0) =~= es);
    assert(es.take(0) =~= Seq::<DirEntryInfo>::empty());
    while k < n
        invariant
            n == es.len(),
            k <= n,
            rest@ == es.skip(k as int),
            kept@ == es.take(k as int).filter(pred),
            pred == (|e: DirEntryInfo| manifest_selected(e)),
        decreases n - k,
    {
        let ghost before = rest@;
        let e = rest.remove(0);
        assert(before.drop_first() =~= rest@);
        assert(rest@ =~= es.skip(k + 1));
        assert(e == es[k as int]);
        assert(es.take(k + 1) =~= es.take(k as int).push(e));
        proof {
            es.take(k as int).lemma_filter_push(e, pred);
        }
        if is_manifest_selected(&e) {
            kept.push(e);
        }
        k = k + 1;
    }
    assert(es.take(n as int) =~= es);
    let sorted = sort_by_name(kept);
    let ghost sel = sorted@;
    let m = sorted.len();
    assert forall|i: int| 0 <= i < m implies #[trigger] sel[i].name is Some by {
        crate::sorting::lemma_sorted_filter_satisfies(es, pred, i);
    }
    let mut rest2 = sorted;
    let mut out: Vec<ManifestInfo> = Vec::new();
    let mut j: usize = 0;
    assert(sel.skip(0) =~= sel);
    while j < m
        invariant
            m == sel.len(),
            j <= m,
            rest2@ == sel.skip(j as int),
            out@.len() == j,
            forall|i: int|
                0 <= i < j ==> (#[trigger] out@[i]).name@ == sel[i].name->0@ && meta_matches(
                    out@[i].size,
                    out@[i].last_modified@,
                    sel[i].meta,
                ),
            forall|i: int| 0 <= i < m ==> #[trigger] sel[i].name is Some,
        decreases m - j,
    {
        let ghost before = rest2@;
        let e = rest2.remove(0);
        assert(before.drop_first() =~= rest2@);
        assert(rest2@ =~= sel.skip(j + 1));
        assert(e == sel[j as int]);
        let (size, last_modified) = timestamp_of(&e.meta);
        let name = match e.name {
            Some(s) => s,
            None => String::new(),
        };
        out.push(ManifestInfo { name, size, last_modified });
        j = j + 1;
    }
    out
}

} // verus!

verus! {

/// Reads projects and files from a Nextcloud volume mount.
pub struct VolumeReader {
    projects_root: String,
    is_available: bool,
}

/// `{root}/{project}/{sub}`.
pub open spec fn project_dir(root: Seq<char>, project: Seq<char>, sub: Seq<char>) -> Seq<char> {
    path_join(path_join(root, project), sub)
}

/// The file extensions of IFC/BIM models.
pub open spec fn model_extensions() -> Seq<Seq<char>> {
    seq![".ifc"@, ".ifczip"@, ".ifcxml"@]
}

/// The canonical form `c` lies under the canonical root `rc` by whole
/// components (anything does when the root did not resolve).
pub open spec fn confined(c: Seq<char>, rc: Option<String>) -> bool {
    match rc {
        Some(x) => crate::paths::path_has_prefix(c, x@),
        None => true,
    }
}

/// `r` is what resolving the file `path` under the projects root `root`
/// gives: `path` is canonicalized; when it resolves, the root is
/// canonicalized too; a canonical path that escapes the canonical root gives
/// `None`; otherwise it is the result when `is_file` finds it a regular file.
pub open spec fn resolved_file<C: Fn(&str) -> Option<String>, I: Fn(&str) -> bool>(
    canonicalize: C,
    is_file: I,
    path: Seq<char>,
    root: Seq<char>,
    r: Option<String>,
) -> bool {
    exists|cp: Option<String>|
        #[trigger] resolved(canonicalize, path, cp) && match cp {
            None => r is None,
            Some(c) => exists|rc: Option<String>|
                #[trigger] resolved(canonicalize, root, rc) && if confined(c@, rc) {
                    exists|f: bool| #[trigger] answered(is_file, c@, f) && r == (if f { Some(c) } else { None::<String> })
                } else {
                    r is None
                },
        }
}

/// `read_file` returned `out` when asked for the file `path`.
pub open spec fn read_from<G: Fn(&str) -> Option<Vec<u8>>>(
    read_file: G,
    path: Seq<char>,
    out: Option<Vec<u8>>,
) -> bool {
    exists|d: &str| d@ == path && call_ensures(read_file, (d,), out)
}

/// The canonical file path, unless the canonical root is known and the path
/// does not lie under it (by whole components).
pub fn confine_to_root(canonical: Option<String>, root_canonical: Option<String>) -> (r: Option<String>)
    ensures
        r == match canonical {
            None => None,
            Some(c) => match root_canonical {
                Some(rc) => if crate::paths::path_has_prefix(c@, rc@) { Some(c) } else { None },
                None => Some(c),
            },
        },
{
    match canonical {
        None => None,
        Some(c) => match root_canonical {
            Some(rc) => {
                if crate::paths::path_starts_with(c.as_str(), rc.as_str()) {
                    Some(c)
                } else {
                    None
                }
            },
            None => Some(c),
        },
    }
}

impl VolumeReader {

    /// The root directory that holds the project directories.
    pub closed spec fn root(&self) -> Seq<char> {
        self.projects_root@
    }

    /// Whether the mount was found accessible when the reader was made.
    pub closed spec fn is_up(&self) -> bool {
        self.is_available
    }

    /// Create a reader for a tenant's volume mount; it is available when the
    /// mount is configured and `is_dir` finds its projects root to be a
    /// directory (see [`crate::tenant::TenantConfig::has_volume_mount`]).
    pub fn new<D: Fn(&str) -> bool>(tenant: &crate::tenant::TenantConfig, is_dir: &D) -> (r: VolumeReader)
        requires
            forall|d: &str| is_dir.requires((d,)),
        ensures
            r.root() == crate::tenant::projects_root_of(tenant.volume_mount@, tenant.group_folder_id),
            tenant.volume_mount@.len() == 0 ==> !r.is_up(),
            tenant.volume_mount@.len() > 0 ==> answered(
                *is_dir,
                crate::tenant::projects_root_of(tenant.volume_mount@, tenant.group_folder_id),
                r.is_up(),
            ),
    {
        let projects_root = tenant.projects_root();
        let is_available = tenant.has_volume_mount(is_dir);
        VolumeReader { projects_root, is_available }
    }

    /// Create a reader for an explicit projects root; it is available when
    /// `is_dir` finds the root to be a directory.
    pub fn from_path<D: Fn(&str) -> bool>(projects_root: String, is_dir: &D) -> (r: VolumeReader)
        requires
            forall|d: &str| is_dir.requires((d,)),
        ensures
            r.root() == projects_root@,
            answered(*is_dir, projects_root@, r.is_up()),
    {
        let is_available = is_dir(projects_root.as_str());
        assert(answered(*is_dir, projects_root@, is_available));
        VolumeReader { projects_root, is_available }
    }

    /// Whether the volume mount is accessible.
    pub fn available(&self) -> (r: bool)
        ensures
            r == self.is_up(),
    {
        self.is_available
    }

    /// List all project directories: the non-hidden sub-directories of the
    /// root, sorted by name. Empty when the mount is unavailable or the root
    /// cannot be listed.
    pub fn list_projects<F: Fn(&str) -> Option<Vec<DirEntryInfo>>>(&self, list_dir: &F) -> (r: Vec<VolumeProject>)
        requires
            forall|d: &str| list_dir.requires((d,)),
        ensures
            !self.is_up() ==> r@.len() == 0,
            self.is_up() ==> lists_projects(*list_dir, self.root(), r@),
    {
        if !self.is_available {
            return Vec::new();
        }
        let out = list_dir(self.projects_root.as_str());
        let ghost g = out;
        assert(listed(*list_dir, self.root(), g));
        match out {
            Some(entries) => select_projects(entries),
            None => {
                let r = select_projects(Vec::new());
                r
            },
        }
    }

    /// List the files of a directory, optionally only those with one of `exts`.
    fn list_files_in<F: Fn(&str) -> Option<Vec<DirEntryInfo>>>(
        dir: &str,
        exts: Option<&[&str]>,
        list_dir: &F,
    ) -> (r: Vec<VolumeFileInfo>)
        requires
            forall|d: &str| list_dir.requires((d,)),
        ensures
            lists_files(*list_dir, dir@, ext_views(exts), r@),
    {
        let out = list_dir(dir);
        let ghost g = out;
        assert(listed(*list_dir, dir@, g));
        match out {
            Some(entries) => select_files(entries, exts),
            None => select_files(Vec::new(), exts),
        }
    }

    /// List files in a project's tool-specific legacy directory
    /// `{project}/99_overige_documenten/{tool_slug}/`.
    pub fn list_tool_files<F: Fn(&str) -> Option<Vec<DirEntryInfo>>>(
        &self,
        project: &str,
        tool_slug: &str,
        list_dir: &F,
    ) -> (r: Vec<VolumeFileInfo>)
        requires
            forall|d: &str| list_dir.requires((d,)),
        ensures
            lists_files(*list_dir, path_join(project_dir(self.root(), project@, LEGACY_SUBDIR@), tool_slug@), None, r@),
    {
        let a = join_path(self.projects_root.as_str(), project);
        let b = join_path(a.as_str(), LEGACY_SUBDIR);
        let dir = join_path(b.as_str(), tool_slug);
        Self::list_files_in(dir.as_str(), None, list_dir)
    }

    /// List files at an arbitrary subpath within a project.
    pub fn list_files_at<F: Fn(&str) -> Option<Vec<DirEntryInfo>>>(
        &self,
        project: &str,
        subdir: &str,
        list_dir: &F,
    ) -> (r: Vec<VolumeFileInfo>)
        requires
            forall|d: &str| list_dir.requires((d,)),
        ensures
            lists_files(*list_dir, project_dir(self.root(), project@, subdir@), None, r@),
    {
        let a = join_path(self.projects_root.as_str(), project);
        let dir = join_path(a.as_str(), subdir);
        Self::list_files_in(dir.as_str(), None, list_dir)
    }

    /// List IFC/BIM model files (`.ifc`, `.ifczip`, `.ifcxml`, any case) in
    /// `{project}/models/`.
    pub fn list_models<F: Fn(&str) -> Option<Vec<DirEntryInfo>>>(&self, project: &str, list_dir: &F) -> (r: Vec<VolumeFileInfo>)
        requires
            forall|d: &str| list_dir.requires((d,)),
        ensures
            lists_files(*list_dir, project_dir(self.root(), project@, DIR_MODELS@), Some(model_extensions()), r@),
    {
        let a = join_path(self.projects_root.as_str(), project);
        let dir = join_path(a.as_str(), DIR_MODELS);
        let exts: [&str; 3] = [".ifc", ".ifczip", ".ifcxml"];
        let r = Self::list_files_in(dir.as_str(), Some(exts.as_slice()), list_dir);
        assert(exts@.map_values(|x: &str| x@) =~= model_extensions());
        r
    }

    /// List files in `{project}/{subdir}/` that have one of `extensions`
    /// (compared in lower case, e.g. `[".ifc", ".ids"]`).
    pub fn list_files_filtered<F: Fn(&str) -> Option<Vec<DirEntryInfo>>>(
        &self,
        project: &str,
        subdir: &str,
        extensions: &[&str],
        list_dir: &F,
    ) -> (r: Vec<VolumeFileInfo>)
        requires
            forall|d: &str| list_dir.requires((d,)),
        ensures
            lists_files(*list_dir, project_dir(self.root(), project@, subdir@), ext_views(Some(extensions)), r@),
    {
        let a = join_path(self.projects_root.as_str(), project);
        let dir = join_path(a.as_str(), subdir);
        Self::list_files_in(dir.as_str(), Some(extensions), list_dir)
    }

    /// Read a `.wefc` manifest `{project}/{name}`; `None` when the mount is
    /// unavailable or the file cannot be read.
    pub fn read_manifest<G: Fn(&str) -> Option<Vec<u8>>>(&self, project: &str, name: &str, read_file: &G) -> (r: Option<Vec<u8>>)
        requires
            forall|d: &str| read_file.requires((d,)),
        ensures
            !self.is_up() ==> r is None,
            self.is_up() ==> read_from(*read_file, project_dir(self.root(), project@, name@), r),
    {
        if !self.is_available {
            return None;
        }
        let a = join_path(self.projects_root.as_str(), project);
        let path = join_path(a.as_str(), name);
        let r = read_file(path.as_str());
        assert(read_from(*read_file, path@, r));
        r
    }

    /// Read the default manifest (`project.wefc`) as raw bytes.
    pub fn read_default_manifest<G: Fn(&str) -> Option<Vec<u8>>>(&self, project: &str, read_file: &G) -> (r: Option<Vec<u8>>)
        requires
            forall|d: &str| read_file.requires((d,)),
        ensures
            !self.is_up() ==> r is None,
            self.is_up() ==> read_from(*read_file, project_dir(self.root(), project@, DEFAULT_MANIFEST_FILENAME@), r),
    {
        self.read_manifest(project, DEFAULT_MANIFEST_FILENAME, read_file)
    }

    /// List all `.wefc` manifest files in a project's root directory, sorted by name.
    pub fn list_manifests<F: Fn(&str) -> Option<Vec<DirEntryInfo>>>(&self, project: &str, list_dir: &F) -> (r: Vec<ManifestInfo>)
        requires
            forall|d: &str| list_dir.requires((d,)),
        ensures
            !self.is_up() ==> r@.len() == 0,
            self.is_up() ==> lists_manifests(*list_dir, path_join(self.root(), project@), r@),
    {
        if !self.is_available {
            return Vec::new();
        }
        let dir = join_path(self.projects_root.as_str(), project);
        let out = list_dir(dir.as_str());
        let ghost g = out;
        assert(listed(*list_dir, dir@, g));
        match out {
            Some(entries) => select_manifests(entries),
            None => select_manifests(Vec::new()),
        }
    }

    /// The absolute path of `{project}/{subdir}/{filename}`, with path
    /// traversal protection.
    ///
    /// The path is resolved with `canonicalize`; the result is `None` when
    /// the mount is unavailable, the path does not resolve, its canonical
    /// form escapes the canonical projects root, or `is_file` does not find
    /// it a regular file (see [`resolved_file`]).
    pub fn file_path<C: Fn(&str) -> Option<String>, I: Fn(&str) -> bool>(
        &self,
        project: &str,
        subdir: &str,
        filename: &str,
        canonicalize: &C,
        is_file: &I,
    ) -> (r: Option<String>)
        requires
            forall|d: &str| canonicalize.requires((d,)),
            forall|d: &str| is_file.requires((d,)),
        ensures
            !self.is_up() ==> r is None,
            self.is_up() ==> resolved_file(
                *canonicalize,
                *is_file,
                path_join(project_dir(self.root(), project@, subdir@), filename@),
                self.root(),
                r,
            ),
    {
        if !self.is_available {
            return None;
        }
        let a = join_path(self.projects_root.as_str(), project);
        let b = join_path(a.as_str(), subdir);
        let path = join_path(b.as_str(), filename);
        let canonical = canonicalize(path.as_str());
        let ghost cp = canonical;
        assert(resolved(*canonicalize, path@, cp));
        match canonical {
            None => None,
            Some(c) => {
                let root_canonical = canonicalize(self.projects_root.as_str());
                let ghost rc = root_canonical;
                assert(resolved(*canonicalize, self.root(), rc));
                match confine_to_root(Some(c), root_canonical) {
                    Some(c) => {
                        let f = is_file(c.as_str());
                        assert(answered(*is_file, c@, f));
                        if f {
                            Some(c)
                        } else {
                            None
                        }
                    },
                    None => None,
                }
            },
        }
    }

    /// Read `{project}/{subdir}/{filename}` with `read_file`, at the path
    /// that [`VolumeReader::file_path`] resolves; `None` when there is no such
    /// file or it cannot be read.
    pub fn read_file<G: Fn(&str) -> Option<Vec<u8>>, C: Fn(&str) -> Option<String>, I: Fn(&str) -> bool>(
        &self,
        project: &str,
        subdir: &str,
        filename: &str,
        read_file: &G,
        canonicalize: &C,
        is_file: &I,
    ) -> (r: Option<Vec<u8>>)
        requires
            forall|d: &str| read_file.requires((d,)),
            forall|d: &str| canonicalize.requires((d,)),
            forall|d: &str| is_file.requires((d,)),
        ensures
            !self.is_up() ==> r is None,
            self.is_up() ==> exists|p: Option<String>|
                #[trigger] resolved_file(
                    *canonicalize,
                    *is_file,
                    path_join(project_dir(self.root(), project@, subdir@), filename@),
                    self.root(),
                    p,
                ) && match p {
                    None => r is None,
                    Some(c) => read_from(*read_file, c@, r),
                },
    {
        let found = self.file_path(project, subdir, filename, canonicalize, is_file);
        let ghost p = found;
        match found {
            Some(path) => {
                let r = read_file(path.as_str());
                assert(read_from(*read_file, path@, r));
                r
            },
            None => None,
        }
    }

    /// Whether `is_dir` finds the project directory to be a directory (false
    /// when the mount is unavailable).
    pub fn project_exists<D: Fn(&str) -> bool>(&self, project: &str, is_dir: &D) -> (r: bool)
        requires
            forall|d: &str| is_dir.requires((d,)),
        ensures
            !self.is_up() ==> !r,
            self.is_up() ==> answered(*is_dir, path_join(self.root(), project@), r),
    {
        if !self.is_available {
            return false;
        }
        let dir = join_path(self.projects_root.as_str(), project);
        let r = is_dir(dir.as_str());
        assert(answered(*is_dir, dir@, r));
        r
    }
}

} // verus!

verus! {

/// Whether a selected file has one of the extensions `xs`.
pub open spec fn extension_pred(xs: Seq<Seq<char>>) -> spec_fn(DirEntryInfo) -> bool {
    |e: DirEntryInfo| has_any_extension(e.name->0@, xs)
}

/// Listing with extensions is the listing without them, filtered by
/// extension, in the same order.
pub proof fn law_extension_filter(es: Seq<DirEntryInfo>, xs: Seq<Seq<char>>)
    ensures
        selected_files(es, Some(xs)) == selected_files(es, None).filter(extension_pred(xs)),
{
    let a = |e: DirEntryInfo| file_selected(e, None);
    let c = |e: DirEntryInfo| file_selected(e, Some(xs));
    crate::seqs::lemma_filter_filter(es, a, extension_pred(xs), c);
    crate::sorting::law_sort_filter(es.filter(a), extension_pred(xs));
}

/// What a directory listing with extensions gives is what the same listing
/// without them gives, filtered by extension (so the model listing is the
/// `models/` listing filtered by the model extensions).
pub proof fn law_filtered_listing<F: Fn(&str) -> Option<Vec<DirEntryInfo>>>(
    list_dir: F,
    dir: Seq<char>,
    xs: Seq<Seq<char>>,
    r: Seq<VolumeFileInfo>,
)
    requires
        lists_files(list_dir, dir, Some(xs), r),
    ensures
        exists|out: Option<Vec<DirEntryInfo>>|
            listed(list_dir, dir, out) && files_describe(
                r,
                selected_files(entries_of(out), None).filter(extension_pred(xs)),
            ),
{
    let out = choose|out: Option<Vec<DirEntryInfo>>|
        listed(list_dir, dir, out) && files_describe(r, selected_files(entries_of(out), Some(xs)));
    law_extension_filter(entries_of(out), xs);
}

/// The legacy tool directory `{project}/99_overige_documenten/{tool}` is
/// the project sub-path `99_overige_documenten/{tool}` (for a tool slug that
/// is not an absolute path).
pub proof fn law_legacy_dir_is_subpath(root: Seq<char>, project: Seq<char>, tool: Seq<char>)
    requires
        !(tool.len() > 0 && tool[0] == '/'),
    ensures
        path_join(project_dir(root, project, LEGACY_SUBDIR@), tool) == project_dir(
            root,
            project,
            LEGACY_SUBDIR@ + "/"@ + tool,
        ),
{
    reveal_strlit("99_overige_documenten");
    reveal_strlit("/");
    let base = path_join(root, project);
    let l = LEGACY_SUBDIR@;
    assert(l.len() > 0 && l[0] != '/' && l[l.len() - 1] != '/');
    let sub = l + "/"@ + tool;
    assert(sub[0] == l[0]);
    let lj = path_join(base, l);
    assert(lj.len() > 0 && lj[lj.len() - 1] != '/');
    assert(path_join(lj, tool) =~= path_join(base, sub));
}

} // verus!

verus! {

/// The selected entries of a listing are in order of their whole names: no
/// later name sorts before an earlier one.
proof fn lemma_selected_sorted(es: Seq<DirEntryInfo>, pred: spec_fn(DirEntryInfo) -> bool)
    requires
        forall|e: DirEntryInfo| #[trigger] pred(e) ==> e.name is Some,
    ensures
        forall|i: int, j: int|
            0 <= i < j < sorted_by_name(es.filter(pred)).len() ==> !crate::text::seq_lt(
                (#[trigger] sorted_by_name(es.filter(pred))[j]).name->0@,
                (#[trigger] sorted_by_name(es.filter(pred))[i]).name->0@,
            ),
{
    let sel = sorted_by_name(es.filter(pred));
    crate::sorting::law_sort_is_sorted(es.filter(pred));
    assert forall|i: int, j: int| 0 <= i < j < sel.len() implies !crate::text::seq_lt(
        (#[trigger] sel[j]).name->0@,
        (#[trigger] sel[i]).name->0@,
    ) by {
        crate::sorting::lemma_sorted_filter_satisfies(es, pred, i);
        crate::sorting::lemma_sorted_filter_satisfies(es, pred, j);
        assert(!crate::text::seq_lt(sel[j].key(), sel[i].key()));
    }
}

/// Every listing of the volume is sorted by the whole name: in a file,
/// project or manifest listing no later name sorts before an earlier one.
pub proof fn law_listings_sorted_by_name<F: Fn(&str) -> Option<Vec<DirEntryInfo>>>(
    list_dir: F,
    dir: Seq<char>,
    exts: Option<Seq<Seq<char>>>,
    files: Seq<VolumeFileInfo>,
    projects: Seq<VolumeProject>,
    manifests: Seq<ManifestInfo>,
)
    ensures
        lists_files(list_dir, dir, exts, files) ==> forall|i: int, j: int|
            0 <= i < j < files.len() ==> !crate::text::seq_lt((#[trigger] files[j]).name@, (#[trigger] files[i]).name@),
        lists_projects(list_dir, dir, projects) ==> forall|i: int, j: int|
            0 <= i < j < projects.len() ==> !crate::text::seq_lt(
                (#[trigger] projects[j]).name@,
                (#[trigger] projects[i]).name@,
            ),
        lists_manifests(list_dir, dir, manifests) ==> forall|i: int, j: int|
            0 <= i < j < manifests.len() ==> !crate::text::seq_lt(
                (#[trigger] manifests[j]).name@,
                (#[trigger] manifests[i]).name@,
            ),
{
    if lists_files(list_dir, dir, exts, files) {
        let out = choose|out: Option<Vec<DirEntryInfo>>|
            listed(list_dir, dir, out) && files_describe(files, selected_files(entries_of(out), exts));
        let pred = |e: DirEntryInfo| file_selected(e, exts);
        lemma_selected_sorted(entries_of(out), pred);
        let sel = selected_files(entries_of(out), exts);
        assert forall|i: int, j: int| 0 <= i < j < files.len() implies !crate::text::seq_lt(
            (#[trigger] files[j]).name@,
            (#[trigger] files[i]).name@,
        ) by {
            assert(file_info_of(files[i], sel[i]) && file_info_of(files[j], sel[j]));
        }
    }
    if lists_projects(list_dir, dir, projects) {
        let out = choose|out: Option<Vec<DirEntryInfo>>|
            listed(list_dir, dir, out) && projects_describe(projects, selected_projects(entries_of(out)));
        let pred = |e: DirEntryInfo| project_selected(e);
        lemma_selected_sorted(entries_of(out), pred);
        let sel = selected_projects(entries_of(out));
        assert forall|i: int, j: int| 0 <= i < j < projects.len() implies !crate::text::seq_lt(
            (#[trigger] projects[j]).name@,
            (#[trigger] projects[i]).name@,
        ) by {
            assert(projects[i].name@ == sel[i].name->0@ && projects[j].name@ == sel[j].name->0@);
        }
    }
    if lists_manifests(list_dir, dir, manifests) {
        let out = choose|out: Option<Vec<DirEntryInfo>>|
            listed(list_dir, dir, out) && manifests_describe(manifests, selected_manifests(entries_of(out)));
        let pred = |e: DirEntryInfo| manifest_selected(e);
        lemma_selected_sorted(entries_of(out), pred);
        let sel = selected_manifests(entries_of(out));
        assert forall|i: int, j: int| 0 <= i < j < manifests.len() implies !crate::text::seq_lt(
            (#[trigger] manifests[j]).name@,
            (#[trigger] manifests[i]).name@,
        ) by {
            assert(manifests[i].name@ == sel[i].name->0@ && manifests[j].name@ == sel[j].name->0@);
        }
    }
}

} // verus!
