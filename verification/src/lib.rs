//! Shared Nextcloud cloud-storage library for OpenAEC tools.
//!
//! - Reads come from a read-only mount of the Nextcloud data volume; the
//!   listing functions decide which directory is read and what is made of
//!   its entries.
//! - Writes go through the Nextcloud WebDAV API; [`webdav`] builds every
//!   request URL and interprets every response.
//! - Projects use a standard container layout with `.wefc` manifests that
//!   track tool outputs ([`manifest`]); projects in the older
//!   `99_overige_documenten/{tool_slug}/` layout are still read.
//! - Each tenant has its own Nextcloud instance ([`tenant`]).

pub mod container;
pub mod manifest;
pub mod paths;
pub mod propfind;
pub mod seqs;
pub mod sorting;
pub mod tenant;
pub mod text;
pub mod timestamp;
pub mod urls;
pub mod volume;
pub mod webdav;

pub use container::output_dir_for_tool;
pub use manifest::{ManifestHeader, ManifestObject, ProjectManifest};
pub use tenant::{RawTenant, TenantConfig, TenantEntry, TenantsRegistry};
pub use volume::{DirEntryInfo, FileMeta, VolumeFileInfo, VolumeProject, VolumeReader};
pub use webdav::{CloudFile, CloudProject, DavEntry, WebdavClient};

use vstd::prelude::*;

use crate::sorting::{sort_by_name, sorted_by_name, Named};

verus! {

#[verifier::external_type_specification]
#[verifier::external_body]
pub struct ExIoError(std::io::Error);

/// Summary info for a `.wefc` manifest file.
pub struct ManifestInfo {
    pub name: String,
    pub size: u64,
    pub last_modified: String,
}

/// Whether a project uses the new container structure or the legacy layout.
#[derive(Clone, Copy, Debug, PartialEq, Eq, Structural)]
pub enum ProjectStructure {
    /// A `.wefc` manifest is present: the container model.
    New,
    /// `99_overige_documenten/` layout.
    Legacy,
}

/// Errors from cloud operations.
pub enum CloudError {
    /// Resource not found (project or file).
    NotFound(String),
    /// Nextcloud returned an error or is unreachable.
    Nextcloud(String),
    /// I/O error reading from the volume mount.
    Io(std::io::Error),
}

/// The text of an I/O error, as its `Display` writes it.
///
/// Calls `<std::io::Error as Display>::fmt` through `format!`. What the text
/// holds depends on the operating system's error messages, so nothing is
/// stated of it.
#[verifier::external_body]
fn io_error_text(e: &std::io::Error) -> (r: String) {
    format!("{}", e)
}

impl CloudError {
    /// The error message: `not found: {msg}`, `nextcloud error: {msg}` or
    /// `io error: {error}`.
    pub fn message(&self) -> (r: String)
        ensures
            match self {
                CloudError::NotFound(m) => r@ == "not found: "@ + m@,
                CloudError::Nextcloud(m) => r@ == "nextcloud error: "@ + m@,
                CloudError::Io(_) => exists|t: Seq<char>| r@ == "io error: "@ + t,
            },
    {
        match self {
            CloudError::NotFound(m) => {
                let mut r = "not found: ".to_string();
                r.append(m.as_str());
                r
            },
            CloudError::Nextcloud(m) => {
                let mut r = "nextcloud error: ".to_string();
                r.append(m.as_str());
                r
            },
            CloudError::Io(e) => {
                let mut r = "io error: ".to_string();
                let t = io_error_text(e);
                r.append(t.as_str());
                r
            },
        }
    }
}

impl From<std::io::Error> for CloudError {
    fn from(err: std::io::Error) -> (r: CloudError) {
        CloudError::Io(err)
    }
}

impl vstd::std_specs::convert::FromSpecImpl<std::io::Error> for CloudError {
    open spec fn obeys_from_spec() -> bool {
        true
    }

    open spec fn from_spec(err: std::io::Error) -> CloudError {
        CloudError::Io(err)
    }
}

impl Named for ManifestInfo {
    open spec fn key(&self) -> Seq<char> {
        self.name@
    }

    fn sort_key(&self) -> (r: &str) {
        self.name.as_str()
    }
}

/// The summary of a manifest listed over WebDAV.
pub open spec fn manifest_info_of(f: CloudFile) -> ManifestInfo {
    ManifestInfo { name: f.name, size: f.size, last_modified: f.last_modified }
}

/// Some summary in `infos` is named `name`.
pub open spec fn has_name(infos: Seq<ManifestInfo>, name: Seq<char>) -> bool {
    exists|i: int| 0 <= i < infos.len() && (#[trigger] infos[i]).name@ == name
}

/// The WebDAV manifests that add a name, as summaries, in order: each one
/// whose name neither the volume nor an earlier WebDAV manifest has.
pub open spec fn webdav_extras(volume: Seq<ManifestInfo>, files: Seq<CloudFile>) -> Seq<ManifestInfo>
    decreases files.len(),
{
    if files.len() == 0 {
        Seq::empty()
    } else {
        let prev = webdav_extras(volume, files.drop_last());
        if has_name(volume + prev, files.last().name@) {
            prev
        } else {
            prev.push(manifest_info_of(files.last()))
        }
    }
}

/// No two summaries share a name.
pub open spec fn names_distinct(infos: Seq<ManifestInfo>) -> bool {
    forall|i: int, j: int|
        0 <= i < infos.len() && 0 <= j < infos.len() && i != j ==> (#[trigger] infos[i]).name@
            != (#[trigger] infos[j]).name@
}

/// Some WebDAV manifest is named `name`.
pub open spec fn file_named(files: Seq<CloudFile>, name: Seq<char>) -> bool {
    exists|i: int| 0 <= i < files.len() && (#[trigger] files[i]).name@ == name
}

/// What the WebDAV manifests add: each added summary comes from a WebDAV
/// manifest whose name the volume lacks; the names of volume and additions
/// are those of volume and WebDAV together; and no name is added twice.
proof fn lemma_extras(volume: Seq<ManifestInfo>, files: Seq<CloudFile>)
    ensures
        forall|j: int|
            0 <= j < webdav_extras(volume, files).len() ==> exists|i: int|
                0 <= i < files.len() && #[trigger] webdav_extras(volume, files)[j] == manifest_info_of(files[i])
                    && !has_name(volume, files[i].name@),
        forall|n: Seq<char>|
            has_name(volume + webdav_extras(volume, files), n) <==> (has_name(volume, n) || file_named(files, n)),
        names_distinct(volume) ==> names_distinct(volume + webdav_extras(volume, files)),
    decreases files.len(),
{
    if files.len() > 0 {
        let init = files.drop_last();
        let f = files.last();
        let prev = webdav_extras(volume, init);
        let ex = webdav_extras(volume, files);
        lemma_extras(volume, init);
        assert forall|n: Seq<char>| file_named(files, n) <==> (file_named(init, n) || f.name@ == n) by {
            if file_named(files, n) {
                let i = choose|i: int| 0 <= i < files.len() && (#[trigger] files[i]).name@ == n;
                if i < files.len() - 1 {
                    assert(init[i] == files[i]);
                }
            }
            if file_named(init, n) {
                let i = choose|i: int| 0 <= i < init.len() && (#[trigger] init[i]).name@ == n;
                assert(files[i] == init[i]);
            }
            if f.name@ == n {
                assert(files[files.len() - 1].name@ == n);
            }
        }
        assert forall|j: int| 0 <= j < prev.len() implies exists|i: int|
            0 <= i < files.len() && #[trigger] prev[j] == manifest_info_of(files[i]) && !has_name(volume, files[i].name@) by {
            let i = choose|i: int|
                0 <= i < init.len() && #[trigger] prev[j] == manifest_info_of(init[i]) && !has_name(volume, init[i].name@);
            assert(files[i] == init[i]);
        }
        if !has_name(volume + prev, f.name@) {
            let all = volume + prev;
            assert(volume + ex =~= all.push(manifest_info_of(f)));
            assert(!has_name(volume, f.name@)) by {
                if has_name(volume, f.name@) {
                    let i = choose|i: int| 0 <= i < volume.len() && (#[trigger] volume[i]).name@ == f.name@;
                    assert(all[i] == volume[i]);
                }
            }
            assert forall|j: int| 0 <= j < ex.len() implies exists|i: int|
                0 <= i < files.len() && #[trigger] ex[j] == manifest_info_of(files[i]) && !has_name(volume, files[i].name@) by {
                if j < prev.len() {
                    assert(ex[j] == prev[j]);
                } else {
                    assert(ex[j] == manifest_info_of(files[files.len() - 1]));
                }
            }
            assert forall|n: Seq<char>| has_name(volume + ex, n) <==> (has_name(all, n) || f.name@ == n) by {
                if has_name(volume + ex, n) {
                    let i = choose|i: int| 0 <= i < (volume + ex).len() && (#[trigger] (volume + ex)[i]).name@ == n;
                    if i < all.len() {
                        assert((volume + ex)[i] == all[i]);
                    }
                }
                if has_name(all, n) {
                    let i = choose|i: int| 0 <= i < all.len() && (#[trigger] all[i]).name@ == n;
                    assert((volume + ex)[i] == all[i]);
                }
                if f.name@ == n {
                    assert((volume + ex)[all.len() as int] == manifest_info_of(f));
                }
            }
            if names_distinct(volume) {
                assert forall|i: int, j: int|
                    0 <= i < (volume + ex).len() && 0 <= j < (volume + ex).len() && i != j implies (#[trigger] (volume
                        + ex)[i]).name@ != (#[trigger] (volume + ex)[j]).name@ by {
                    if i < all.len() && j < all.len() {
                        assert((volume + ex)[i] == all[i] && (volume + ex)[j] == all[j]);
                    } else if i < all.len() {
                        assert((volume + ex)[i] == all[i]);
                    } else {
                        assert((volume + ex)[j] == all[j]);
                    }
                }
            }
        } else {
            assert forall|n: Seq<char>| has_name(volume + ex, n) <==> (has_name(volume, n) || file_named(files, n)) by {
                if f.name@ == n {
                    assert(has_name(volume + prev, n));
                }
            }
        }
    }
}

/// Names are the sort keys of summaries.
proof fn lemma_names_are_keys(infos: Seq<ManifestInfo>)
    ensures
        forall|n: Seq<char>| has_name(infos, n) == crate::sorting::has_key(infos, n),
        names_distinct(infos) == crate::sorting::keys_distinct(infos),
{
    assert forall|n: Seq<char>| has_name(infos, n) == crate::sorting::has_key(infos, n) by {
        if has_name(infos, n) {
            let i = choose|i: int| 0 <= i < infos.len() && (#[trigger] infos[i]).name@ == n;
            assert(infos[i].key() == n);
        }
        if crate::sorting::has_key(infos, n) {
            let i = choose|i: int| 0 <= i < infos.len() && (#[trigger] infos[i]).key() == n;
            assert(infos[i].name@ == n);
        }
    }
    if names_distinct(infos) {
        assert forall|i: int, j: int| 0 <= i < infos.len() && 0 <= j < infos.len() && i != j implies (#[trigger] infos[i]).key()
            != (#[trigger] infos[j]).key() by {
            assert(infos[i].name@ != infos[j].name@);
        }
    }
    if crate::sorting::keys_distinct(infos) {
        assert forall|i: int, j: int| 0 <= i < infos.len() && 0 <= j < infos.len() && i != j implies (#[trigger] infos[i]).name@
            != (#[trigger] infos[j]).name@ by {
            assert(infos[i].key() != infos[j].key());
        }
    }
}

/// Whether some summary is named `name`.
fn contains_name(infos: &Vec<ManifestInfo>, name: &str) -> (r: bool)
    ensures
        r == has_name(infos@, name@),
{
    let mut i: usize = 0;
    while i < infos.len()
        invariant
            i <= infos@.len(),
            forall|j: int| 0 <= j < i ==> (#[trigger] infos@[j]).name@ != name@,
        decreases infos@.len() - i,
    {
        if crate::text::str_eq(infos[i].name.as_str(), name) {
            return true;
        }
        i = i + 1;
    }
    false
}

/// Combine the manifests listed from the volume mount with those listed over
/// WebDAV.
///
/// The volume's entries come first and win on name clashes; WebDAV adds the
/// manifests whose names the volume did not list. A `NotFound` from WebDAV
/// adds nothing; another WebDAV error is returned when the volume listed
/// nothing, and is otherwise passed over. The result is sorted by name.
pub fn merge_manifest_listings(volume: Vec<ManifestInfo>, webdav: Result<Vec<CloudFile>, CloudError>) -> (r: Result<
    Vec<ManifestInfo>,
    CloudError,
>)
    ensures
        match webdav {
            Ok(files) => {
                &&& r matches Ok(v)
                &&& v@ == sorted_by_name(volume@ + webdav_extras(volume@, files@))
                &&& names_distinct(volume@) ==> names_distinct(v@)
            },
            Err(e) => if !(e is NotFound) && volume@.len() == 0 {
                r == Err::<Vec<ManifestInfo>, CloudError>(e)
            } else {
                (r matches Ok(v) && v@ == sorted_by_name(volume@))
            },
        },
{
    let ghost vol = volume@;
    let mut all = volume;
    match webdav {
        Ok(files) => {
            let ghost fs = files@;
            let n = files.len();
            let mut rest = files;
            let mut k: usize = 0;
            assert(fs.skip(0) =~= fs);
            assert(fs.take(0) =~= Seq::<CloudFile>::empty());
            assert(vol + Seq::<ManifestInfo>::empty() =~= vol);
            while k < n
                invariant
                    n == fs.len(),
                    k <= n,
                    rest@ == fs.skip(k as int),
                    all@ == vol + webdav_extras(vol, fs.take(k as int)),
                decreases n - k,
            {
                let ghost before = rest@;
                let f = rest.remove(0);
                assert(before.drop_first() =~= rest@);
                assert(rest@ =~= fs.skip(k + 1));
                assert(f == fs[k as int]);
                let ghost t = fs.take(k + 1);
                assert(t.drop_last() =~= fs.take(k as int));
                assert(t.last() == f);
                let ghost prev = webdav_extras(vol, fs.take(k as int));
                if !contains_name(&all, f.name.as_str()) {
                    all.push(ManifestInfo { name: f.name, size: f.size, last_modified: f.last_modified });
                    assert(all@ =~= vol + prev.push(manifest_info_of(f)));
                }
                k = k + 1;
            }
            assert(fs.take(n as int) =~= fs);
            proof {
                lemma_extras(vol, fs);
                crate::sorting::law_sort_keeps_keys(all@);
                lemma_names_are_keys(all@);
                lemma_names_are_keys(sorted_by_name(all@));
            }
            Ok(sort_by_name(all))
        },
        Err(e) => {
            let not_found = match &e {
                CloudError::NotFound(_) => true,
                _ => false,
            };
            if !not_found && all.len() == 0 {
                Err(e)
            } else {
                Ok(sort_by_name(all))
            }
        },
    }
}

/// In a merged manifest listing the volume's entries win: every manifest
/// listed from the volume is in it, and every other entry is a WebDAV
/// manifest whose name the volume did not list.
pub proof fn law_merge_volume_wins(volume: Seq<ManifestInfo>, files: Seq<CloudFile>)
    ensures
        forall|i: int| 0 <= i < volume.len() ==> sorted_by_name(volume + webdav_extras(volume, files)).contains(#[trigger] volume[i]),
        forall|i: int|
            0 <= i < sorted_by_name(volume + webdav_extras(volume, files)).len() ==> {
                let m = #[trigger] sorted_by_name(volume + webdav_extras(volume, files))[i];
                volume.contains(m) || exists|f: CloudFile|
                    files.contains(f) && !has_name(volume, f.name@) && m == manifest_info_of(f)
            },
{
    broadcast use vstd::seq_lib::to_multiset_contains;

    let ex = webdav_extras(volume, files);
    let all = volume + ex;
    let merged = sorted_by_name(all);
    crate::sorting::law_sort_permutes(all);
    lemma_extras(volume, files);
    assert forall|i: int| 0 <= i < volume.len() implies merged.contains(#[trigger] volume[i]) by {
        assert(all[i] == volume[i]);
        assert(all.contains(volume[i]));
        assert(all.to_multiset().count(volume[i]) > 0);
    }
    assert forall|i: int| 0 <= i < merged.len() implies {
        let m = #[trigger] merged[i];
        volume.contains(m) || exists|f: CloudFile| files.contains(f) && !has_name(volume, f.name@) && m == manifest_info_of(f)
    } by {
        let m = merged[i];
        assert(merged.contains(m));
        assert(all.to_multiset().count(m) > 0);
        assert(all.contains(m));
        let k = choose|k: int| 0 <= k < all.len() && all[k] == m;
        if k >= volume.len() {
            let j = k - volume.len();
            assert(ex[j] == m);
            let t = choose|t: int|
                0 <= t < files.len() && #[trigger] ex[j] == manifest_info_of(files[t]) && !has_name(volume, files[t].name@);
            assert(files.contains(files[t]));
        } else {
            assert(volume[k] == m);
        }
    }
}

/// A merged manifest listing has exactly the names listed from the volume or
/// over WebDAV, and no name twice when the volume listed none twice.
pub proof fn law_merge_names(volume: Seq<ManifestInfo>, files: Seq<CloudFile>)
    ensures
        forall|n: Seq<char>|
            has_name(sorted_by_name(volume + webdav_extras(volume, files)), n) <==> (has_name(volume, n) || file_named(
                files,
                n,
            )),
        names_distinct(volume) ==> names_distinct(sorted_by_name(volume + webdav_extras(volume, files))),
{
    let all = volume + webdav_extras(volume, files);
    lemma_extras(volume, files);
    crate::sorting::law_sort_keeps_keys(all);
    lemma_names_are_keys(all);
    lemma_names_are_keys(sorted_by_name(all));
}

/// A merged manifest listing is in order of the whole names: no later name
/// sorts before an earlier one.
pub proof fn law_merge_sorted_by_name(volume: Seq<ManifestInfo>, files: Seq<CloudFile>)
    ensures
        forall|i: int, j: int|
            0 <= i < j < sorted_by_name(volume + webdav_extras(volume, files)).len() ==> !crate::text::seq_lt(
                (#[trigger] sorted_by_name(volume + webdav_extras(volume, files))[j]).name@,
                (#[trigger] sorted_by_name(volume + webdav_extras(volume, files))[i]).name@,
            ),
{
    let m = sorted_by_name(volume + webdav_extras(volume, files));
    crate::sorting::law_sort_is_sorted(volume + webdav_extras(volume, files));
    assert forall|i: int, j: int| 0 <= i < j < m.len() implies !crate::text::seq_lt(
        (#[trigger] m[j]).name@,
        (#[trigger] m[i]).name@,
    ) by {
        assert(!crate::text::seq_lt(m[j].key(), m[i].key()));
    }
}

/// `r` describes the WebDAV project folders `ps`: the same names in the same
/// order, each with its WebDAV path `Projects/{name}` (name URL-encoded).
pub open spec fn projects_from_webdav(r: Seq<VolumeProject>, ps: Seq<CloudProject>) -> bool {
    &&& r.len() == ps.len()
    &&& forall|i: int|
        0 <= i < r.len() ==> (#[trigger] r[i]).name@ == ps[i].name@ && r[i].path@ == crate::webdav::project_path(
            ps[i].name@,
        )
}

/// The projects of a WebDAV project listing, as project entries; none when
/// the listing failed.
pub fn webdav_projects(listing: Result<Vec<CloudProject>, CloudError>) -> (r: Vec<VolumeProject>)
    ensures
        match listing {
            Ok(ps) => projects_from_webdav(r@, ps@),
            Err(_) => r@.len() == 0,
        },
{
    match listing {
        Ok(ps) => {
            let mut r: Vec<VolumeProject> = Vec::new();
            let mut i: usize = 0;
            while i < ps.len()
                invariant
                    i <= ps@.len(),
                    r@.len() == i,
                    forall|j: int|
                        0 <= j < i ==> (#[trigger] r@[j]).name@ == ps@[j].name@ && r@[j].path@
                            == crate::webdav::project_path(ps@[j].name@),
                decreases ps@.len() - i,
            {
                let name = ps[i].name.clone();
                let mut path = crate::webdav::PROJECTS_ROOT.to_string();
                path.append("/");
                path.append(crate::urls::url_encode(name.as_str()).as_str());
                r.push(VolumeProject { name, path });
                i = i + 1;
            }
            r
        },
        Err(_) => Vec::new(),
    }
}

/// The structure of a project: `New` when the volume mount lists a `.wefc`
/// manifest; otherwise what the WebDAV manifest listing `webdav` that the
/// caller made for this shows (see [`structure_from_listing`]); `Legacy`
/// when no listing was made.
pub fn detected_structure(
    volume_has_manifests: bool,
    webdav: Option<&Result<Vec<CloudFile>, CloudError>>,
) -> (r: ProjectStructure)
    ensures
        r == (if volume_has_manifests {
            ProjectStructure::New
        } else {
            match webdav {
                Some(listing) => if listing matches Ok(v) && v@.len() > 0 {
                    ProjectStructure::New
                } else {
                    ProjectStructure::Legacy
                },
                None => ProjectStructure::Legacy,
            }
        }),
{
    if volume_has_manifests {
        return ProjectStructure::New;
    }
    match webdav {
        Some(listing) => structure_from_listing(listing),
        None => ProjectStructure::Legacy,
    }
}

/// The bytes of a manifest read: the volume's copy when the volume has one;
/// otherwise the WebDAV download `webdav` that the caller made for this (its
/// bytes, `None` when missing, or its error); `None` when no download was made.
pub fn manifest_bytes(
    volume: Option<Vec<u8>>,
    webdav: Option<Result<Option<Vec<u8>>, CloudError>>,
) -> (r: Result<Option<Vec<u8>>, CloudError>)
    ensures
        match volume {
            Some(b) => r == Ok::<Option<Vec<u8>>, CloudError>(Some(b)),
            None => match webdav {
                Some(w) => r == w,
                None => r == Ok::<Option<Vec<u8>>, CloudError>(None),
            },
        },
{
    match volume {
        Some(b) => Ok(Some(b)),
        None => match webdav {
            Some(w) => w,
            None => Ok(None),
        },
    }
}

/// The structure that a WebDAV manifest listing shows: `New` when it found a
/// `.wefc` file, `Legacy` when it found none or failed.
pub fn structure_from_listing(result: &Result<Vec<CloudFile>, CloudError>) -> (r: ProjectStructure)
    ensures
        r == (if result matches Ok(v) && v@.len() > 0 { ProjectStructure::New } else { ProjectStructure::Legacy }),
{
    match result {
        Ok(v) => {
            if v.len() > 0 {
                ProjectStructure::New
            } else {
                ProjectStructure::Legacy
            }
        },
        Err(_) => ProjectStructure::Legacy,
    }
}

} // verus!

verus! {

/// Combined cloud client: reads from the volume mount, writes via WebDAV.
pub struct CloudClient {
    pub volume: VolumeReader,
    pub webdav: WebdavClient,
    tool_slug: String,
}

impl CloudClient {
    /// The volume reader.
    pub closed spec fn vol(&self) -> VolumeReader {
        self.volume
    }

    /// The WebDAV client.
    pub closed spec fn dav(&self) -> WebdavClient {
        self.webdav
    }

    /// The tool slug the client writes for.
    pub closed spec fn tool(&self) -> Seq<char> {
        self.tool_slug@
    }

    /// The tool's output directory: the one that its slug maps to.
    pub open spec fn out_dir(&self) -> Seq<char> {
        crate::container::output_dir_spec(self.tool())
    }

    /// Create a cloud client for a tenant and a tool (e.g. `"bim-validator"`);
    /// the tool slug is mapped to its output directory, and the volume mount
    /// is available when `is_dir` finds its projects root (see
    /// [`VolumeReader::new`]).
    pub fn new<D: Fn(&str) -> bool>(tenant: &TenantConfig, tool_slug: &str, is_dir: &D) -> (r: CloudClient)
        requires
            forall|d: &str| is_dir.requires((d,)),
        ensures
            r.vol().root() == crate::tenant::projects_root_of(tenant.volume_mount@, tenant.group_folder_id),
            tenant.volume_mount@.len() == 0 ==> !r.vol().is_up(),
            tenant.volume_mount@.len() > 0 ==> crate::paths::answered(
                *is_dir,
                crate::tenant::projects_root_of(tenant.volume_mount@, tenant.group_folder_id),
                r.vol().is_up(),
            ),
            r.dav().root() == crate::webdav::webdav_root_of(tenant.nextcloud_url@, tenant.service_user@),
            r.dav().user() == tenant.service_user@,
            r.dav().pass() == tenant.service_pass@,
            r.dav().tool() == tool_slug@,
            r.dav().out_dir() == crate::container::output_dir_spec(tool_slug@),
            r.tool() == tool_slug@,
    {
        CloudClient {
            volume: VolumeReader::new(tenant, is_dir),
            webdav: WebdavClient::new(
                tenant.nextcloud_url.as_str(),
                tenant.service_user.as_str(),
                tenant.service_pass.as_str(),
                tool_slug,
            ),
            tool_slug: tool_slug.to_string(),
        }
    }

    /// The tool slug.
    pub fn tool_slug(&self) -> (r: &str)
        ensures
            r@ == self.tool(),
    {
        self.tool_slug.as_str()
    }

    /// List project folders: from the volume mount when it is available,
    /// otherwise the WebDAV listing `webdav` that the caller fetched for
    /// this (see [`webdav_projects`]); empty when there is none.
    pub fn list_projects<F: Fn(&str) -> Option<Vec<DirEntryInfo>>>(
        &self,
        list_dir: &F,
        webdav: Option<Result<Vec<CloudProject>, CloudError>>,
    ) -> (r: Vec<VolumeProject>)
        requires
            forall|d: &str| list_dir.requires((d,)),
        ensures
            self.vol().is_up() ==> crate::volume::lists_projects(*list_dir, self.vol().root(), r@),
            !self.vol().is_up() ==> match webdav {
                Some(Ok(ps)) => projects_from_webdav(r@, ps@),
                _ => r@.len() == 0,
            },
    {
        if self.volume.available() {
            return self.volume.list_projects(list_dir);
        }
        match webdav {
            Some(listing) => webdav_projects(listing),
            None => Vec::new(),
        }
    }

    /// List the files in the project's output directory on the volume mount,
    /// falling back to the legacy `99_overige_documenten/{tool_slug}/`
    /// directory when the output directory lists no files. Empty when the
    /// mount is unavailable.
    pub fn list_files<F: Fn(&str) -> Option<Vec<DirEntryInfo>>>(&self, project: &str, list_dir: &F) -> (r: Vec<VolumeFileInfo>)
        requires
            forall|d: &str| list_dir.requires((d,)),
        ensures
            !self.vol().is_up() ==> r@.len() == 0,
            self.vol().is_up() ==> {
                ||| (r@.len() > 0 && crate::volume::lists_files(
                    *list_dir,
                    crate::volume::project_dir(self.vol().root(), project@, self.out_dir()),
                    None,
                    r@,
                ))
                ||| (exists|first: Seq<VolumeFileInfo>|
                    first.len() == 0 && crate::volume::lists_files(
                        *list_dir,
                        crate::volume::project_dir(self.vol().root(), project@, self.out_dir()),
                        None,
                        first,
                    ) && crate::volume::lists_files(
                        *list_dir,
                        crate::paths::path_join(
                            crate::volume::project_dir(self.vol().root(), project@, crate::container::LEGACY_SUBDIR@),
                            self.tool(),
                        ),
                        None,
                        r@,
                    ))
            },
    {
        if !self.volume.available() {
            return Vec::new();
        }
        let files = self.volume.list_files_at(project, output_dir_for_tool(self.tool_slug.as_str()), list_dir);
        if files.len() > 0 {
            return files;
        }
        let ghost first = files@;
        let legacy = self.volume.list_tool_files(project, self.tool_slug.as_str(), list_dir);
        assert(first.len() == 0);
        legacy
    }

    /// List files at an arbitrary subpath within a project; empty when the
    /// mount is unavailable.
    pub fn list_files_at<F: Fn(&str) -> Option<Vec<DirEntryInfo>>>(&self, project: &str, subdir: &str, list_dir: &F) -> (r: Vec<VolumeFileInfo>)
        requires
            forall|d: &str| list_dir.requires((d,)),
        ensures
            !self.vol().is_up() ==> r@.len() == 0,
            self.vol().is_up() ==> crate::volume::lists_files(
                *list_dir,
                crate::volume::project_dir(self.vol().root(), project@, subdir@),
                None,
                r@,
            ),
    {
        if self.volume.available() {
            return self.volume.list_files_at(project, subdir, list_dir);
        }
        Vec::new()
    }

    /// List IFC/BIM model files in `models/`; empty when the mount is unavailable.
    pub fn list_models<F: Fn(&str) -> Option<Vec<DirEntryInfo>>>(&self, project: &str, list_dir: &F) -> (r: Vec<VolumeFileInfo>)
        requires
            forall|d: &str| list_dir.requires((d,)),
        ensures
            !self.vol().is_up() ==> r@.len() == 0,
            self.vol().is_up() ==> crate::volume::lists_files(
                *list_dir,
                crate::volume::project_dir(self.vol().root(), project@, crate::container::DIR_MODELS@),
                Some(crate::volume::model_extensions()),
                r@,
            ),
    {
        if self.volume.available() {
            return self.volume.list_models(project, list_dir);
        }
        Vec::new()
    }

    /// Read a file from the volume mount (see [`VolumeReader::read_file`]).
    pub fn read_file<G: Fn(&str) -> Option<Vec<u8>>, C: Fn(&str) -> Option<String>, I: Fn(&str) -> bool>(
        &self,
        project: &str,
        subdir: &str,
        filename: &str,
        read_file: &G,
        canonicalize: &C,
        is_file: &I,
    ) -> (r: Option<Vec<u8>>)
        requires
            forall|d: &str| read_file.requires((d,)),
            forall|d: &str| canonicalize.requires((d,)),
            forall|d: &str| is_file.requires((d,)),
        ensures
            !self.vol().is_up() ==> r is None,
            self.vol().is_up() ==> exists|p: Option<String>|
                #[trigger] crate::volume::resolved_file(
                    *canonicalize,
                    *is_file,
                    crate::paths::path_join(crate::volume::project_dir(self.vol().root(), project@, subdir@), filename@),
                    self.vol().root(),
                    p,
                ) && match p {
                    None => r is None,
                    Some(c) => crate::volume::read_from(*read_file, c@, r),
                },
    {
        self.volume.read_file(project, subdir, filename, read_file, canonicalize, is_file)
    }

    /// The filesystem path to a file (see [`VolumeReader::file_path`]).
    pub fn file_path<C: Fn(&str) -> Option<String>, I: Fn(&str) -> bool>(
        &self,
        project: &str,
        subdir: &str,
        filename: &str,
        canonicalize: &C,
        is_file: &I,
    ) -> (r: Option<String>)
        requires
            forall|d: &str| canonicalize.requires((d,)),
            forall|d: &str| is_file.requires((d,)),
        ensures
            !self.vol().is_up() ==> r is None,
            self.vol().is_up() ==> crate::volume::resolved_file(
                *canonicalize,
                *is_file,
                crate::paths::path_join(crate::volume::project_dir(self.vol().root(), project@, subdir@), filename@),
                self.vol().root(),
                r,
            ),
    {
        self.volume.file_path(project, subdir, filename, canonicalize, is_file)
    }

    /// Whether a project exists on the volume mount, as `is_dir` finds it.
    pub fn project_exists<D: Fn(&str) -> bool>(&self, project: &str, is_dir: &D) -> (r: bool)
        requires
            forall|d: &str| is_dir.requires((d,)),
        ensures
            !self.vol().is_up() ==> !r,
            self.vol().is_up() ==> crate::paths::answered(*is_dir, crate::paths::path_join(self.vol().root(), project@), r),
    {
        self.volume.project_exists(project, is_dir)
    }

    /// Whether the volume mount lists any `.wefc` manifest in the project
    /// (the first test of structure detection).
    pub fn volume_has_manifests<F: Fn(&str) -> Option<Vec<DirEntryInfo>>>(&self, project: &str, list_dir: &F) -> (r: bool)
        requires
            forall|d: &str| list_dir.requires((d,)),
        ensures
            !self.vol().is_up() ==> !r,
            self.vol().is_up() ==> exists|ms: Seq<ManifestInfo>|
                crate::volume::lists_manifests(*list_dir, crate::paths::path_join(self.vol().root(), project@), ms)
                    && r == (ms.len() > 0),
    {
        if !self.volume.available() {
            return false;
        }
        let ms = self.volume.list_manifests(project, list_dir);
        ms.len() > 0
    }

    /// The manifest to write back when adding `object`: the existing
    /// manifest (or a new one for this tool when there is none), with this
    /// tool as its application and `object` added or updated by guid.
    ///
    /// `None` only when a new manifest is needed and the operating system's
    /// random source fails (see [`ProjectManifest::new`]).
    pub fn upsert_into(&self, existing: Option<ProjectManifest>, object: ManifestObject) -> (r: Option<ProjectManifest>)
        ensures
            existing is Some ==> r is Some,
            r matches Some(r) ==> {
                &&& r.header.application@ == self.tool()
                &&& exists|secs: nat| r.header.timestamp@ == crate::timestamp::iso8601_text(secs)
                &&& match existing {
                    Some(m) => {
                        &&& r.data@ == crate::manifest::upsert_data(m.data@, object)
                        &&& r.header.schema == m.header.schema
                        &&& r.header.schema_version == m.header.schema_version
                        &&& r.header.file_id == m.header.file_id
                        &&& r.header.description == m.header.description
                        &&& r.header.application_version == m.header.application_version
                    },
                    None => {
                        &&& r.data@ == seq![object]
                        &&& r.header.schema@ == "WeFC"@
                        &&& r.header.schema_version@ == "1.0.0"@
                        &&& exists|random: Seq<u8>|
                            random.len() == 16 && r.header.file_id@ == crate::manifest::uuid_text(
                                crate::manifest::v4_bytes(random),
                            )
                        &&& crate::manifest::is_uuid_text(r.header.file_id@)
                        &&& r.header.description is None
                        &&& r.header.application_version is None
                    },
                }
            },
    {
        let mut manifest = match existing {
            Some(m) => m,
            None => match ProjectManifest::new(self.tool_slug.as_str()) {
                Some(m) => m,
                None => {
                    return None;
                },
            },
        };
        manifest.header.application = self.tool_slug.clone();
        manifest.add_or_update(object);
        Some(manifest)
    }
}

} // verus!
