//! Nextcloud WebDAV client: the URLs of every request and the handling of
//! every response.
//!
//! All write operations (PUT, DELETE, MKCOL) go through WebDAV so Nextcloud's
//! database, search index and versioning stay in sync. The requests
//! themselves are sent by the caller; this module says where they go and
//! what their answers mean.

use vstd::prelude::*;

use crate::container::{output_dir_for_tool, output_dir_spec, LEGACY_SUBDIR, MANIFEST_EXTENSION};
use crate::text::{has_suffix, str_ends_with};
use crate::timestamp::{decimal, format_padded, padded_decimal};
use crate::urls::{
    encode_segments, encoded_segments, trim_end_slash, trim_end_slashes, trim_slash, trim_slashes,
    url_encode, url_encoded,
};
use crate::CloudError;

verus! {

/// Root folder on Nextcloud where all projects live.
pub const PROJECTS_ROOT: &'static str = "Projects";

/// A file entry from a WebDAV directory listing.
pub struct CloudFile {
    pub name: String,
    pub size: u64,
    pub last_modified: String,
    pub content_type: String,
}

/// A project folder entry.
pub struct CloudProject {
    pub name: String,
}

/// One entry of a PROPFIND multistatus response.
pub struct DavEntry {
    pub name: String,
    pub is_collection: bool,
    pub size: u64,
    pub last_modified: String,
    pub content_type: String,
}

/// Nextcloud WebDAV client for a specific tool.
pub struct WebdavClient {
    webdav_root: String,
    username: String,
    password: String,
    /// Original tool identifier (e.g. `"bim-validator"`).
    tool_slug: String,
    /// Resolved output directory (e.g. `"validation"`).
    output_dir: String,
}

/// `{base without trailing /}/remote.php/dav/files/{username, URL-encoded}`.
pub open spec fn webdav_root_of(base_url: Seq<char>, username: Seq<char>) -> Seq<char> {
    trim_end_slashes(base_url) + "/remote.php/dav/files/"@ + url_encoded(username)
}

/// `Projects/{project}` with the project name URL-encoded.
pub open spec fn project_path(project: Seq<char>) -> Seq<char> {
    PROJECTS_ROOT@ + "/"@ + url_encoded(project)
}

/// `Projects/{project}/{output_dir}`: where a tool writes its outputs.
pub open spec fn output_path_of(project: Seq<char>, output_dir: Seq<char>) -> Seq<char> {
    project_path(project) + "/"@ + output_dir
}

/// `Projects/{project}/99_overige_documenten/{tool_slug}`: the legacy output directory.
pub open spec fn legacy_path_of(project: Seq<char>, tool_slug: Seq<char>) -> Seq<char> {
    project_path(project) + "/"@ + LEGACY_SUBDIR@ + "/"@ + tool_slug
}

/// Every path of a project lies under the project's WebDAV path
/// `Projects/{project}/` with the project name URL-encoded: the output
/// directory, the legacy tool directory, and every non-empty sub-path.
pub proof fn law_paths_lie_under_project(project: Seq<char>, output_dir: Seq<char>, tool_slug: Seq<char>, subpath: Seq<char>)
    ensures
        ({
            let k = (PROJECTS_ROOT@.len() + 1 + url_encoded(project).len() + 1) as int;
            &&& output_path_of(project, output_dir).take(k) == PROJECTS_ROOT@ + "/"@ + url_encoded(project) + "/"@
            &&& legacy_path_of(project, tool_slug).take(k) == PROJECTS_ROOT@ + "/"@ + url_encoded(project) + "/"@
            &&& trim_slashes(subpath).len() > 0 ==> project_subpath_of(project, subpath).take(k) == PROJECTS_ROOT@
                + "/"@ + url_encoded(project) + "/"@
        }),
{
    reveal_strlit("/");
    let pre = PROJECTS_ROOT@ + "/"@ + url_encoded(project) + "/"@;
    let k = (PROJECTS_ROOT@.len() + 1 + url_encoded(project).len() + 1) as int;
    assert(pre.len() == k);
    assert(output_path_of(project, output_dir) =~= pre + output_dir);
    assert((pre + output_dir).take(k) =~= pre);
    let l = pre + LEGACY_SUBDIR@ + "/"@ + tool_slug;
    assert(legacy_path_of(project, tool_slug) =~= l);
    assert(l.take(k) =~= pre);
    if trim_slashes(subpath).len() > 0 {
        let t = pre + encoded_segments(trim_slashes(subpath));
        assert(project_subpath_of(project, subpath) =~= t);
        assert(t.take(k) =~= pre);
    }
}

/// `Projects/{project}/{subpath}` with every segment URL-encoded and the
/// sub-path's outer `/` trimmed; just `Projects/{project}` for an empty sub-path.
pub open spec fn project_subpath_of(project: Seq<char>, subpath: Seq<char>) -> Seq<char> {
    let t = trim_slashes(subpath);
    if t.len() == 0 {
        project_path(project)
    } else {
        project_path(project) + "/"@ + encoded_segments(t)
    }
}

fn concat(a: &str, b: &str) -> (r: String)
    ensures
        r@ == a@ + b@,
{
    let mut r = a.to_string();
    r.append(b);
    r
}

impl WebdavClient {
    /// The WebDAV files root of the service user.
    pub closed spec fn root(&self) -> Seq<char> {
        self.webdav_root@
    }

    /// The service user.
    pub closed spec fn user(&self) -> Seq<char> {
        self.username@
    }

    /// The service user's password.
    pub closed spec fn pass(&self) -> Seq<char> {
        self.password@
    }

    /// The tool slug.
    pub closed spec fn tool(&self) -> Seq<char> {
        self.tool_slug@
    }

    /// The tool's output directory.
    pub closed spec fn out_dir(&self) -> Seq<char> {
        self.output_dir@
    }

    /// Create a client for the Nextcloud at `base_url`.
    ///
    /// The `tool_slug` is mapped to its output directory by
    /// [`output_dir_for_tool`].
    pub fn new(base_url: &str, username: &str, password: &str, tool_slug: &str) -> (r: WebdavClient)
        ensures
            r.root() == webdav_root_of(base_url@, username@),
            r.user() == username@,
            r.pass() == password@,
            r.tool() == tool_slug@,
            r.out_dir() == output_dir_spec(tool_slug@),
    {
        let base = trim_end_slash(base_url);
        let mut root = concat(base, "/remote.php/dav/files/");
        let user = url_encode(username);
        root.append(user.as_str());
        WebdavClient {
            webdav_root: root,
            username: username.to_string(),
            password: password.to_string(),
            output_dir: output_dir_for_tool(tool_slug).to_string(),
            tool_slug: tool_slug.to_string(),
        }
    }

    /// The WebDAV files root of the service user.
    pub fn webdav_root(&self) -> (r: &str)
        ensures
            r@ == self.root(),
    {
        self.webdav_root.as_str()
    }

    /// The service user (for basic authentication).
    pub fn username(&self) -> (r: &str)
        ensures
            r@ == self.user(),
    {
        self.username.as_str()
    }

    /// The service user's password (for basic authentication).
    pub fn password(&self) -> (r: &str)
        ensures
            r@ == self.pass(),
    {
        self.password.as_str()
    }

    /// `Projects/{project}/{output_dir}`.
    pub fn output_path(&self, project: &str) -> (r: String)
        ensures
            r@ == output_path_of(project@, self.out_dir()),
    {
        let mut r = concat(PROJECTS_ROOT, "/");
        r.append(url_encode(project).as_str());
        r.append("/");
        r.append(self.output_dir.as_str());
        r
    }

    /// `Projects/{project}/99_overige_documenten/{tool_slug}`.
    pub fn legacy_path(&self, project: &str) -> (r: String)
        ensures
            r@ == legacy_path_of(project@, self.tool()),
    {
        let mut r = concat(PROJECTS_ROOT, "/");
        r.append(url_encode(project).as_str());
        r.append("/");
        r.append(LEGACY_SUBDIR);
        r.append("/");
        r.append(self.tool_slug.as_str());
        r
    }

    /// `Projects/{project}/{subpath}`, every segment URL-encoded.
    pub fn project_subpath(&self, project: &str, subpath: &str) -> (r: String)
        ensures
            r@ == project_subpath_of(project@, subpath@),
    {
        let mut r = concat(PROJECTS_ROOT, "/");
        r.append(url_encode(project).as_str());
        let trimmed = trim_slash(subpath);
        if trimmed.unicode_len() == 0 {
            r
        } else {
            r.append("/");
            r.append(encode_segments(trimmed).as_str());
            r
        }
    }
}

} // verus!

verus! {

/// `/{segment}` for each of the first `m` pieces, URL-encoded and concatenated.
pub open spec fn encoded_prefix(parts: Seq<Seq<char>>, m: int) -> Seq<char>
    decreases m,
{
    if m <= 0 {
        Seq::empty()
    } else {
        encoded_prefix(parts, m - 1) + "/"@ + url_encoded(parts[m - 1])
    }
}

/// The directories that must exist before a file can be written at
/// `Projects/{project}/{file_path}`: one per segment of the trimmed path
/// except the last (the file name).
pub open spec fn parent_dirs_of(project: Seq<char>, file_path: Seq<char>) -> Seq<Seq<char>> {
    let parts = crate::urls::split_slash(trim_slashes(file_path));
    if parts.len() <= 1 {
        Seq::empty()
    } else {
        Seq::new((parts.len() - 1) as nat, |k: int| project_path(project) + encoded_prefix(parts, k + 1))
    }
}

impl WebdavClient {
    /// `{root}/{path}/`: the URL of a collection.
    pub fn collection_url(&self, path: &str) -> (r: String)
        ensures
            r@ == self.root() + "/"@ + path@ + "/"@,
    {
        let mut r = concat(self.webdav_root.as_str(), "/");
        r.append(path);
        r.append("/");
        r
    }

    /// `{root}/{path}`: the URL of a resource.
    pub fn resource_url(&self, path: &str) -> (r: String)
        ensures
            r@ == self.root() + "/"@ + path@,
    {
        let mut r = concat(self.webdav_root.as_str(), "/");
        r.append(path);
        r
    }

    /// `{root}/{dir}/{filename}` with the file name URL-encoded.
    pub fn file_url(&self, dir: &str, filename: &str) -> (r: String)
        ensures
            r@ == self.root() + "/"@ + dir@ + "/"@ + url_encoded(filename@),
    {
        let mut r = self.resource_url(dir);
        r.append("/");
        r.append(url_encode(filename).as_str());
        r
    }

    /// `{root}/Projects/`: the collection that holds every project.
    pub fn projects_url(&self) -> (r: String)
        ensures
            r@ == self.root() + "/"@ + PROJECTS_ROOT@ + "/"@,
    {
        self.collection_url(PROJECTS_ROOT)
    }

    /// `{root}/Projects/{project}/`: a project's root collection.
    pub fn project_url(&self, project: &str) -> (r: String)
        ensures
            r@ == self.root() + "/"@ + project_path(project@) + "/"@,
    {
        let mut p = concat(PROJECTS_ROOT, "/");
        p.append(url_encode(project).as_str());
        self.collection_url(p.as_str())
    }

    /// `{root}/Projects/{project}/{name}`: a manifest in a project's root.
    pub fn manifest_url(&self, project: &str, name: &str) -> (r: String)
        ensures
            r@ == self.root() + "/"@ + project_path(project@) + "/"@ + url_encoded(name@),
    {
        let mut p = concat(PROJECTS_ROOT, "/");
        p.append(url_encode(project).as_str());
        self.file_url(p.as_str(), name)
    }

    /// The collections to create, in order, before writing to the output
    /// directory: `Projects`, `Projects/{project}`, `Projects/{project}/{output_dir}`.
    pub fn output_dir_paths(&self, project: &str) -> (r: Vec<String>)
        ensures
            r@.len() == 3,
            r@[0]@ == PROJECTS_ROOT@,
            r@[1]@ == project_path(project@),
            r@[2]@ == output_path_of(project@, self.out_dir()),
    {
        let mut r: Vec<String> = Vec::new();
        r.push(PROJECTS_ROOT.to_string());
        let mut p = concat(PROJECTS_ROOT, "/");
        p.append(url_encode(project).as_str());
        r.push(p);
        r.push(self.output_path(project));
        r
    }

    /// The collections to create, in order, before writing a file at
    /// `Projects/{project}/{file_path}` (see [`parent_dirs_of`]).
    pub fn parent_dir_paths(&self, project: &str, file_path: &str) -> (r: Vec<String>)
        ensures
            r@.map_values(|x: String| x@) == parent_dirs_of(project@, file_path@),
    {
        let trimmed = trim_slash(file_path);
        let parts = crate::urls::split_slash_exec(trimmed);
        let ghost pv = parts@.map_values(|x: String| x@);
        let mut r: Vec<String> = Vec::new();
        if parts.len() <= 1 {
            assert(r@.map_values(|x: String| x@) =~= parent_dirs_of(project@, file_path@));
            return r;
        }
        let mut cumulative = concat(PROJECTS_ROOT, "/");
        cumulative.append(url_encode(project).as_str());
        let last = parts.len() - 1;
        let mut k: usize = 0;
        while k < last
            invariant
                last == parts@.len() - 1,
                pv == parts@.map_values(|x: String| x@),
                k <= last,
                cumulative@ == project_path(project@) + encoded_prefix(pv, k as int),
                r@.len() == k,
                forall|j: int| 0 <= j < k ==> (#[trigger] r@[j])@ == project_path(project@) + encoded_prefix(pv, j + 1),
            decreases last - k,
        {
            cumulative.append("/");
            cumulative.append(url_encode(parts[k].as_str()).as_str());
            assert(pv[k as int] == parts@[k as int]@);
            r.push(cumulative.clone());
            k = k + 1;
        }
        assert(r@.map_values(|x: String| x@) =~= parent_dirs_of(project@, file_path@));
        r
    }
}

} // verus!

verus! {

// ── Responses ───────────────────────────────────────────────

/// A 2xx status.
pub open spec fn is_success(status: u16) -> bool {
    200 <= status <= 299
}

/// `{prefix}{status}` with the status in decimal.
pub open spec fn status_message(prefix: Seq<char>, status: u16) -> Seq<char> {
    prefix + decimal(status as nat)
}

fn status_text(prefix: &str, status: u16) -> (r: String)
    ensures
        r@ == status_message(prefix@, status),
{
    let mut r = prefix.to_string();
    let code = format_padded(status as u64, 0);
    assert(padded_decimal(status as nat, 0) == decimal(status as nat));
    r.append(code.as_str());
    r
}

/// Whether a `PROPFIND` with depth 0 on `Projects/` shows Nextcloud reachable.
pub fn connection_ok(status: u16) -> (r: bool)
    ensures
        r == (is_success(status) || status == 207),
{
    (200 <= status && status <= 299) || status == 207
}

/// The outcome of a `MKCOL`: 201 (created) and 405 (already exists) are
/// fine, as is any other success; otherwise `Nextcloud("mkcol {path} failed: {status}")`.
pub fn mkcol_outcome(path: &str, status: u16) -> (r: Result<(), CloudError>)
    ensures
        (status == 201 || status == 405 || is_success(status)) <==> r is Ok,
        r matches Err(e) ==> e matches CloudError::Nextcloud(m) && m@ == "mkcol "@ + path@ + status_message(" failed: "@, status),
{
    if status == 201 || status == 405 || (200 <= status && status <= 299) {
        Ok(())
    } else {
        let mut m = concat("mkcol ", path);
        m.append(status_text(" failed: ", status).as_str());
        Err(CloudError::Nextcloud(m))
    }
}

/// The outcome of a `PUT`: 201, 204 or any other success is fine; otherwise
/// `Nextcloud("{prefix}{status}")` (the prefix is `"upload error: "` for files
/// and `"manifest upload error: "` for manifests).
pub fn put_outcome(prefix: &str, status: u16) -> (r: Result<(), CloudError>)
    ensures
        (status == 201 || status == 204 || is_success(status)) <==> r is Ok,
        r matches Err(e) ==> e matches CloudError::Nextcloud(m) && m@ == status_message(prefix@, status),
{
    if status == 201 || status == 204 || (200 <= status && status <= 299) {
        Ok(())
    } else {
        Err(CloudError::Nextcloud(status_text(prefix, status)))
    }
}

/// The outcome of a `GET` of `name`: 404 is `NotFound("not found: {name}")`,
/// another failure is `Nextcloud("error: {status_line}")` where `status_line`
/// is the status as the HTTP client prints it.
pub fn get_outcome(status: u16, name: &str, status_line: &str) -> (r: Result<(), CloudError>)
    ensures
        r is Ok <==> (status != 404 && is_success(status)),
        status == 404 ==> (r matches Err(CloudError::NotFound(m)) && m@ == "not found: "@ + name@),
        status != 404 && !is_success(status) ==> (r matches Err(CloudError::Nextcloud(m)) && m@
            == "error: "@ + status_line@),
{
    if status == 404 {
        Err(CloudError::NotFound(concat("not found: ", name)))
    } else if !(200 <= status && status <= 299) {
        Err(CloudError::Nextcloud(concat("error: ", status_line)))
    } else {
        Ok(())
    }
}

/// The outcome of a `DELETE` of `name`: 404 is `NotFound("not found: {name}")`,
/// every other status counts as done.
pub fn delete_outcome(status: u16, name: &str) -> (r: Result<(), CloudError>)
    ensures
        r is Ok <==> status != 404,
        r matches Err(e) ==> e matches CloudError::NotFound(m) && m@ == "not found: "@ + name@,
{
    if status == 404 {
        Err(CloudError::NotFound(concat("not found: ", name)))
    } else {
        Ok(())
    }
}

/// The outcome of a `PROPFIND`: 404 is `NotFound("path not found")`; any
/// other status goes on to parse the body.
pub fn propfind_outcome(status: u16) -> (r: Result<(), CloudError>)
    ensures
        r is Ok <==> status != 404,
        r matches Err(e) ==> e matches CloudError::NotFound(m) && m@ == "path not found"@,
{
    if status == 404 {
        Err(CloudError::NotFound("path not found".to_string()))
    } else {
        Ok(())
    }
}

} // verus!

verus! {

/// The file entry for a listing entry.
pub open spec fn cloud_file_of(e: DavEntry) -> CloudFile {
    CloudFile { name: e.name, size: e.size, last_modified: e.last_modified, content_type: e.content_type }
}

/// The entry is not a collection.
pub open spec fn is_file_entry(e: DavEntry) -> bool {
    !e.is_collection
}

/// The entry is a `.wefc` file.
pub open spec fn is_manifest_entry(e: DavEntry) -> bool {
    !e.is_collection && has_suffix(e.name@, MANIFEST_EXTENSION@)
}

/// The files of a listing, in order.
pub open spec fn files_of(es: Seq<DavEntry>) -> Seq<CloudFile> {
    es.filter(|e: DavEntry| is_file_entry(e)).map_values(|e: DavEntry| cloud_file_of(e))
}

/// The `.wefc` files of a listing, in order.
pub open spec fn manifest_files_of(es: Seq<DavEntry>) -> Seq<CloudFile> {
    es.filter(|e: DavEntry| is_manifest_entry(e)).map_values(|e: DavEntry| cloud_file_of(e))
}

/// Every entry of a listing, as file entries.
pub open spec fn entries_as_files(es: Seq<DavEntry>) -> Seq<CloudFile> {
    es.map_values(|e: DavEntry| cloud_file_of(e))
}

/// The project folders of a listing (its collections), in order.
pub open spec fn projects_of(es: Seq<DavEntry>) -> Seq<CloudProject> {
    es.filter(|e: DavEntry| e.is_collection).map_values(|e: DavEntry| CloudProject { name: e.name })
}

/// Keep the entries that `keep` selects (0: files, 1: `.wefc` files, 2: all).
fn select_entries(entries: Vec<DavEntry>, keep: u8) -> (r: Vec<CloudFile>)
    requires
        keep <= 2,
    ensures
        keep == 0 ==> r@ == files_of(entries@),
        keep == 1 ==> r@ == manifest_files_of(entries@),
        keep == 2 ==> r@ == entries_as_files(entries@),
{
    let ghost es = entries@;
    let ghost pred = if keep == 0 {
        |e: DavEntry| is_file_entry(e)
    } else if keep == 1 {
        |e: DavEntry| is_manifest_entry(e)
    } else {
        |e: DavEntry| true
    };
    let ghost f = |e: DavEntry| cloud_file_of(e);
    let n = entries.len();
    let mut rest = entries;
    let mut out: Vec<CloudFile> = Vec::new();
    let mut k: usize = 0;
    assert(es.skip(0) =~= es);
    assert(es.take(0) =~= Seq::<DavEntry>::empty());
    while k < n
        invariant
            n == es.len(),
            k <= n,
            keep <= 2,
            rest@ == es.skip(k as int),
            out@ == es.take(k as int).filter(pred).map_values(f),
            pred == if keep == 0 {
                |e: DavEntry| is_file_entry(e)
            } else if keep == 1 {
                |e: DavEntry| is_manifest_entry(e)
            } else {
                |e: DavEntry| true
            },
            f == (|e: DavEntry| cloud_file_of(e)),
        decreases n - k,
    {
        let ghost before = rest@;
        let e = rest.remove(0);
        assert(before.drop_first() =~= rest@);
        assert(rest@ =~= es.skip(k + 1));
        assert(e == es[k as int]);
        assert(es.take(k + 1) =~= es.take(k as int).push(e));
        proof {
            es.take(k as int).lemma_filter_push(e, pred);
        }
        let wanted = if keep == 0 {
            !e.is_collection
        } else if keep == 1 {
            !e.is_collection && str_ends_with(e.name.as_str(), MANIFEST_EXTENSION)
        } else {
            true
        };
        if wanted {
            let ghost prev = out@;
            out.push(CloudFile {
                name: e.name,
                size: e.size,
                last_modified: e.last_modified,
                content_type: e.content_type,
            });
            assert(out@ =~= es.take(k as int).filter(pred).push(e).map_values(f));
        }
        k = k + 1;
    }
    assert(es.take(n as int) =~= es);
    proof {
        if keep == 2 {
            lemma_filter_true(es);
        }
    }
    out
}

/// Filtering with a predicate that holds everywhere changes nothing.
proof fn lemma_filter_true(es: Seq<DavEntry>)
    ensures
        es.filter(|e: DavEntry| true) == es,
    decreases es.len(),
{
    reveal(Seq::filter);
    if es.len() > 0 {
        lemma_filter_true(es.drop_last());
        assert(es.drop_last().push(es.last()) =~= es);
    }
}

/// The files of a listing (its non-collection entries), in order.
pub fn files_from(entries: Vec<DavEntry>) -> (r: Vec<CloudFile>)
    ensures
        r@ == files_of(entries@),
{
    select_entries(entries, 0)
}

/// The `.wefc` files of a listing, in order.
pub fn manifest_files_from(entries: Vec<DavEntry>) -> (r: Vec<CloudFile>)
    ensures
        r@ == manifest_files_of(entries@),
{
    select_entries(entries, 1)
}

/// Every entry of a listing as a file entry.
pub fn entries_to_files(entries: Vec<DavEntry>) -> (r: Vec<CloudFile>)
    ensures
        r@ == entries_as_files(entries@),
{
    select_entries(entries, 2)
}

/// The project folders of a listing (its collections), in order.
pub fn projects_from(entries: Vec<DavEntry>) -> (r: Vec<CloudProject>)
    ensures
        r@ == projects_of(entries@),
{
    let ghost es = entries@;
    let ghost pred = |e: DavEntry| e.is_collection;
    let ghost f = |e: DavEntry| CloudProject { name: e.name };
    let n = entries.len();
    let mut rest = entries;
    let mut out: Vec<CloudProject> = Vec::new();
    let mut k: usize = 0;
    assert(es.skip(0) =~= es);
    assert(es.take(0) =~= Seq::<DavEntry>::empty());
    while k < n
        invariant
            n == es.len(),
            k <= n,
            rest@ == es.skip(k as int),
            out@ == es.take(k as int).filter(pred).map_values(f),
            pred == (|e: DavEntry| e.is_collection),
            f == (|e: DavEntry| CloudProject { name: e.name }),
        decreases n - k,
    {
        let ghost before = rest@;
        let e = rest.remove(0);
        assert(before.drop_first() =~= rest@);
        assert(rest@ =~= es.skip(k + 1));
        assert(e == es[k as int]);
        assert(es.take(k + 1) =~= es.take(k as int).push(e));
        proof {
            es.take(k as int).lemma_filter_push(e, pred);
        }
        if e.is_collection {
            out.push(CloudProject { name: e.name });
            assert(out@ =~= es.take(k as int).filter(pred).push(e).map_values(f));
        }
        k = k + 1;
    }
    assert(es.take(n as int) =~= es);
    out
}

} // verus!

verus! {

/// The error is a `NotFound`.
pub open spec fn is_not_found(e: CloudError) -> bool {
    e matches CloudError::NotFound(_)
}

/// After listing the new output directory: the files when it had entries,
/// `None` (list the legacy directory instead) when it was empty or missing,
/// and any other error as it is.
pub fn output_listing_step(first: Result<Vec<DavEntry>, CloudError>) -> (r: Option<
    Result<Vec<CloudFile>, CloudError>,
>)
    ensures
        match first {
            Ok(items) => if items@.len() > 0 {
                (r matches Some(Ok(v)) && v@ == files_of(items@))
            } else {
                r is None
            },
            Err(e) => if is_not_found(e) {
                r is None
            } else {
                r == Some(Err::<Vec<CloudFile>, CloudError>(e))
            },
        },
{
    match first {
        Ok(items) => {
            if items.len() > 0 {
                Some(Ok(files_from(items)))
            } else {
                None
            }
        },
        Err(e) => match e {
            CloudError::NotFound(_) => None,
            other => Some(Err(other)),
        },
    }
}

} // verus!

verus! {

/// After listing the legacy output directory: its files, none when it is
/// missing, and any other error as it is.
pub fn legacy_listing_step(second: Result<Vec<DavEntry>, CloudError>) -> (r: Result<Vec<CloudFile>, CloudError>)
    ensures
        match second {
            Ok(items) => (r matches Ok(v) && v@ == files_of(items@)),
            Err(e) => if is_not_found(e) {
                (r matches Ok(v) && v@.len() == 0)
            } else {
                r == Err::<Vec<CloudFile>, CloudError>(e)
            },
        },
{
    match second {
        Ok(items) => Ok(files_from(items)),
        Err(e) => match e {
            CloudError::NotFound(_) => Ok(Vec::new()),
            other => Err(other),
        },
    }
}

/// The entries at a project sub-path: every entry, none when the path is
/// missing, and any other error as it is.
pub fn path_listing(result: Result<Vec<DavEntry>, CloudError>) -> (r: Result<Vec<CloudFile>, CloudError>)
    ensures
        match result {
            Ok(items) => (r matches Ok(v) && v@ == entries_as_files(items@)),
            Err(e) => if is_not_found(e) {
                (r matches Ok(v) && v@.len() == 0)
            } else {
                r == Err::<Vec<CloudFile>, CloudError>(e)
            },
        },
{
    match result {
        Ok(items) => Ok(entries_to_files(items)),
        Err(e) => match e {
            CloudError::NotFound(_) => Ok(Vec::new()),
            other => Err(other),
        },
    }
}

/// The `.wefc` files in a project root: none when the project is missing,
/// and any other error as it is.
pub fn manifest_listing(result: Result<Vec<DavEntry>, CloudError>) -> (r: Result<Vec<CloudFile>, CloudError>)
    ensures
        match result {
            Ok(items) => (r matches Ok(v) && v@ == manifest_files_of(items@)),
            Err(e) => if is_not_found(e) {
                (r matches Ok(v) && v@.len() == 0)
            } else {
                r == Err::<Vec<CloudFile>, CloudError>(e)
            },
        },
{
    match result {
        Ok(items) => Ok(manifest_files_from(items)),
        Err(e) => match e {
            CloudError::NotFound(_) => Ok(Vec::new()),
            other => Err(other),
        },
    }
}

/// After downloading from the new output directory: the bytes, `None`
/// (download from the legacy directory instead) when the file is missing,
/// and any other error as it is.
pub fn download_step(first: Result<Vec<u8>, CloudError>) -> (r: Option<Result<Vec<u8>, CloudError>>)
    ensures
        match first {
            Ok(b) => r == Some(Ok::<Vec<u8>, CloudError>(b)),
            Err(e) => if is_not_found(e) {
                r is None
            } else {
                r == Some(Err::<Vec<u8>, CloudError>(e))
            },
        },
{
    match first {
        Ok(b) => Some(Ok(b)),
        Err(e) => match e {
            CloudError::NotFound(_) => None,
            other => Some(Err(other)),
        },
    }
}

/// After deleting from the new output directory: done, `None` (delete from
/// the legacy directory instead) when the file is missing there, and any
/// other error as it is.
pub fn delete_step(first: Result<(), CloudError>) -> (r: Option<Result<(), CloudError>>)
    ensures
        match first {
            Ok(()) => r == Some(Ok::<(), CloudError>(())),
            Err(e) => if is_not_found(e) {
                r is None
            } else {
                r == Some(Err::<(), CloudError>(e))
            },
        },
{
    match first {
        Ok(()) => Some(Ok(())),
        Err(e) => match e {
            CloudError::NotFound(_) => None,
            other => Some(Err(other)),
        },
    }
}

/// The content type of a download: the response's `Content-Type` header
/// text, or `application/octet-stream` when it has none (or it is not text).
pub fn content_type_of(header: Option<&str>) -> (r: String)
    ensures
        r@ == match header {
            Some(h) => h@,
            None => "application/octet-stream"@,
        },
{
    match header {
        Some(h) => h.to_string(),
        None => "application/octet-stream".to_string(),
    }
}

/// A manifest download: the bytes, `None` when the manifest is missing, and
/// any other error as it is.
pub fn manifest_download(result: Result<Vec<u8>, CloudError>) -> (r: Result<Option<Vec<u8>>, CloudError>)
    ensures
        match result {
            Ok(b) => r == Ok::<Option<Vec<u8>>, CloudError>(Some(b)),
            Err(e) => if is_not_found(e) {
                r == Ok::<Option<Vec<u8>>, CloudError>(None)
            } else {
                r == Err::<Option<Vec<u8>>, CloudError>(e)
            },
        },
{
    match result {
        Ok(b) => Ok(Some(b)),
        Err(e) => match e {
            CloudError::NotFound(_) => Ok(None),
            other => Err(other),
        },
    }
}

/// Whether a manifest download found the manifest (an error counts as not found).
pub fn manifest_present(result: &Result<Option<Vec<u8>>, CloudError>) -> (r: bool)
    ensures
        r == (result matches Ok(Some(_))),
{
    match result {
        Ok(Some(_)) => true,
        _ => false,
    }
}

} // verus!
