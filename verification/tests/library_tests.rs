use openaec_cloud::paths::join_path;
use openaec_cloud::propfind::parse_propfind;
use openaec_cloud::timestamp::{civil_from_days, format_padded, format_timestamp, is_leap};
use openaec_cloud::urls::{encode_segments, trim_slash};
use openaec_cloud::volume::{confine_to_root, select_files, select_manifests, select_projects};
use openaec_cloud::webdav::{
    connection_ok, delete_outcome, download_step, files_from, get_outcome, legacy_listing_step,
    manifest_download, manifest_files_from, manifest_listing, manifest_present, mkcol_outcome,
    output_listing_step, path_listing, projects_from, propfind_outcome, put_outcome,
};
use openaec_cloud::{
    merge_manifest_listings, structure_from_listing, CloudClient, CloudError, CloudFile, DavEntry,
    DirEntryInfo, FileMeta, ManifestInfo, ManifestObject, ProjectManifest, ProjectStructure,
    RawTenant, TenantConfig, TenantEntry, TenantsRegistry, VolumeReader, WebdavClient,
};

fn json_object(pairs: &[(&str, &str)]) -> serde_json::Value {
    let mut map = serde_json::Map::new();
    for (k, v) in pairs {
        map.insert(k.to_string(), serde_json::Value::String(v.to_string()));
    }
    serde_json::Value::Object(map)
}

fn object(pairs: &[(&str, &str)]) -> ManifestObject {
    ManifestObject::from_value(json_object(pairs))
}

fn file_entry(name: &str, size: u64, secs: u64) -> DirEntryInfo {
    DirEntryInfo {
        name: Some(name.to_string()),
        path: format!("/root/{name}"),
        is_file: true,
        is_dir: false,
        meta: Some(FileMeta { size, modified_secs: secs }),
    }
}

fn dir_entry(name: &str) -> DirEntryInfo {
    DirEntryInfo {
        name: Some(name.to_string()),
        path: format!("/root/{name}"),
        is_file: false,
        is_dir: true,
        meta: None,
    }
}

fn dav(name: &str, is_collection: bool, size: u64) -> DavEntry {
    DavEntry {
        name: name.to_string(),
        is_collection,
        size,
        last_modified: "Mon, 01 Jan 2024 00:00:00 GMT".to_string(),
        content_type: if is_collection { String::new() } else { "application/octet-stream".to_string() },
    }
}

fn cloud_file(name: &str, size: u64) -> CloudFile {
    CloudFile {
        name: name.to_string(),
        size,
        last_modified: "webdav".to_string(),
        content_type: "application/json".to_string(),
    }
}

fn info(name: &str, size: u64) -> ManifestInfo {
    ManifestInfo { name: name.to_string(), size, last_modified: "volume".to_string() }
}

fn raw(name: Option<&str>) -> RawTenant {
    RawTenant {
        name: name.map(|n| n.to_string()),
        nextcloud_url: "http://nc-3bm:80".to_string(),
        nextcloud_domain: Some("cloud-3bm.open-aec.com".to_string()),
        service_user: None,
        service_pass_env: "NC_3BM_PASS".to_string(),
        group_folder_id: None,
    }
}

fn any_dir(_path: &str) -> bool {
    true
}

fn no_dir(_path: &str) -> bool {
    false
}

fn tenant() -> TenantConfig {
    TenantConfig::from_raw("3bm", raw(Some("3BM Cooperatie")), Some("secret".to_string())).unwrap()
}

// ── Timestamps ──────────────────────────────────────────────

#[test]
fn timestamp_epoch() {
    assert_eq!(format_timestamp(0), "1970-01-01T00:00:00Z");
}

#[test]
fn timestamp_leap_day() {
    assert_eq!(format_timestamp(951_782_400), "2000-02-29T00:00:00Z");
    assert_eq!(format_timestamp(951_868_799), "2000-02-29T23:59:59Z");
    assert_eq!(format_timestamp(951_868_800), "2000-03-01T00:00:00Z");
}

#[test]
fn timestamp_known_value() {
    assert_eq!(format_timestamp(1_700_000_000), "2023-11-14T22:13:20Z");
}

#[test]
fn timestamp_end_of_year() {
    assert_eq!(format_timestamp(1_704_067_199), "2023-12-31T23:59:59Z");
}

#[test]
fn leap_years() {
    assert!(is_leap(2000));
    assert!(is_leap(2024));
    assert!(!is_leap(1900));
    assert!(!is_leap(2023));
}

#[test]
fn civil_dates() {
    assert_eq!(civil_from_days(0), (1970, 1, 1));
    assert_eq!(civil_from_days(365), (1971, 1, 1));
    assert_eq!(civil_from_days(789), (1972, 2, 29));
}

#[test]
fn padded_numbers() {
    assert_eq!(format_padded(7, 2), "07");
    assert_eq!(format_padded(2024, 4), "2024");
    assert_eq!(format_padded(12345, 2), "12345");
    assert_eq!(format_padded(0, 0), "0");
}

// ── Paths and URLs ──────────────────────────────────────────

#[test]
fn path_joining() {
    assert_eq!(join_path("/a", "b"), "/a/b");
    assert_eq!(join_path("/a/", "b"), "/a/b");
    assert_eq!(join_path("", "b"), "b");
    assert_eq!(join_path("/a", "/b"), "/b");
}

#[test]
fn url_encoding_changes_reserved_bytes() {
    let c = WebdavClient::new("https://h", "u", "p", "reports");
    assert_eq!(c.output_path("My Project"), "Projects/My%20Project/reports");
    assert_eq!(c.output_path("a/b"), "Projects/a%2Fb/reports");
    assert_eq!(c.output_path("abc-_.~"), "Projects/abc-_.~/reports");
    assert_eq!(c.output_path("\u{e9}"), "Projects/%C3%A9/reports");
}

#[test]
fn url_encoded_project_has_no_slash() {
    let c = WebdavClient::new("https://h", "u", "p", "reports");
    assert_eq!(c.project_url("x/y/z"), "https://h/remote.php/dav/files/u/Projects/x%2Fy%2Fz/");
}

#[test]
fn segments_are_encoded_one_by_one() {
    assert_eq!(encode_segments("models/my file.ifc"), "models/my%20file.ifc");
    assert_eq!(trim_slash("//a/b//"), "a/b");
}

// ── WebDAV client paths ─────────────────────────────────────

fn client() -> WebdavClient {
    WebdavClient::new("https://cloud.example.com/", "svc user", "pw", "bim-validator")
}

#[test]
fn webdav_root_encodes_user() {
    let c = client();
    assert_eq!(c.webdav_root(), "https://cloud.example.com/remote.php/dav/files/svc%20user");
    assert_eq!(c.username(), "svc user");
    assert_eq!(c.password(), "pw");
}

#[test]
fn webdav_output_and_legacy_paths() {
    let c = client();
    assert_eq!(c.output_path("My Project"), "Projects/My%20Project/validation");
    assert_eq!(c.legacy_path("P"), "Projects/P/99_overige_documenten/bim-validator");
}

#[test]
fn webdav_project_subpath() {
    let c = client();
    assert_eq!(c.project_subpath("P", "/models/a b.ifc/"), "Projects/P/models/a%20b.ifc");
    assert_eq!(c.project_subpath("P", "///"), "Projects/P");
}

#[test]
fn webdav_urls() {
    let c = client();
    let root = "https://cloud.example.com/remote.php/dav/files/svc%20user";
    assert_eq!(c.projects_url(), format!("{root}/Projects/"));
    assert_eq!(c.project_url("P Q"), format!("{root}/Projects/P%20Q/"));
    assert_eq!(c.manifest_url("P", "project.wefc"), format!("{root}/Projects/P/project.wefc"));
    assert_eq!(c.file_url("Projects/P/validation", "r 1.json"), format!("{root}/Projects/P/validation/r%201.json"));
    assert_eq!(c.collection_url("Projects/P"), format!("{root}/Projects/P/"));
    assert_eq!(c.resource_url("Projects/P/x"), format!("{root}/Projects/P/x"));
}

#[test]
fn webdav_directories_to_create() {
    let c = client();
    assert_eq!(
        c.output_dir_paths("P"),
        vec!["Projects".to_string(), "Projects/P".to_string(), "Projects/P/validation".to_string()]
    );
    assert_eq!(
        c.parent_dir_paths("P", "/a/b c/file.txt"),
        vec!["Projects/P/a".to_string(), "Projects/P/a/b%20c".to_string()]
    );
    assert!(c.parent_dir_paths("P", "file.txt").is_empty());
}

// ── WebDAV responses ────────────────────────────────────────

#[test]
fn status_outcomes() {
    assert!(connection_ok(207));
    assert!(connection_ok(200));
    assert!(!connection_ok(401));
    assert!(mkcol_outcome("Projects/P", 201).is_ok());
    assert!(mkcol_outcome("Projects/P", 405).is_ok());
    match mkcol_outcome("Projects/P", 403) {
        Err(CloudError::Nextcloud(m)) => assert_eq!(m, "mkcol Projects/P failed: 403"),
        _ => panic!("expected a Nextcloud error"),
    }
    assert!(put_outcome("upload error: ", 204).is_ok());
    match put_outcome("manifest upload error: ", 507) {
        Err(CloudError::Nextcloud(m)) => assert_eq!(m, "manifest upload error: 507"),
        _ => panic!("expected a Nextcloud error"),
    }
}

#[test]
fn get_and_delete_outcomes() {
    match get_outcome(404, "a.txt", "404 Not Found") {
        Err(CloudError::NotFound(m)) => assert_eq!(m, "not found: a.txt"),
        _ => panic!("expected NotFound"),
    }
    match get_outcome(500, "a.txt", "500 Internal Server Error") {
        Err(CloudError::Nextcloud(m)) => assert_eq!(m, "error: 500 Internal Server Error"),
        _ => panic!("expected a Nextcloud error"),
    }
    assert!(get_outcome(200, "a.txt", "200 OK").is_ok());
    assert!(delete_outcome(204, "a.txt").is_ok());
    assert!(delete_outcome(500, "a.txt").is_ok());
    match delete_outcome(404, "a.txt") {
        Err(CloudError::NotFound(m)) => assert_eq!(m, "not found: a.txt"),
        _ => panic!("expected NotFound"),
    }
    match propfind_outcome(404) {
        Err(CloudError::NotFound(m)) => assert_eq!(m, "path not found"),
        _ => panic!("expected NotFound"),
    }
    assert!(propfind_outcome(207).is_ok());
}

#[test]
fn error_messages() {
    assert_eq!(CloudError::NotFound("x".to_string()).message(), "not found: x");
    assert_eq!(CloudError::Nextcloud("down".to_string()).message(), "nextcloud error: down");
    let io = CloudError::from(std::io::Error::new(std::io::ErrorKind::Other, "disk"));
    assert_eq!(io.message(), "io error: disk");
}

#[test]
fn listing_selections() {
    let entries = vec![dav("sub", true, 0), dav("a.ifc", false, 10), dav("project.wefc", false, 5)];
    let files = files_from(entries);
    assert_eq!(files.len(), 2);
    assert_eq!(files[0].name, "a.ifc");
    assert_eq!(files[1].name, "project.wefc");
    let manifests = manifest_files_from(vec![dav("sub.wefc", true, 0), dav("a.ifc", false, 1), dav("x.wefc", false, 3)]);
    assert_eq!(manifests.len(), 1);
    assert_eq!(manifests[0].name, "x.wefc");
    assert_eq!(manifests[0].size, 3);
    let projects = projects_from(vec![dav("Alpha", true, 0), dav("readme.txt", false, 1), dav("Beta", true, 0)]);
    let names: Vec<&str> = projects.iter().map(|p| p.name.as_str()).collect();
    assert_eq!(names, vec!["Alpha", "Beta"]);
}

#[test]
fn output_listing_falls_back_when_empty_or_missing() {
    assert!(output_listing_step(Ok(vec![])).is_none());
    assert!(output_listing_step(Err(CloudError::NotFound("path not found".to_string()))).is_none());
    match output_listing_step(Ok(vec![dav("a.ifc", false, 1), dav("d", true, 0)])) {
        Some(Ok(v)) => {
            assert_eq!(v.len(), 1);
            assert_eq!(v[0].name, "a.ifc");
        },
        _ => panic!("expected the files"),
    }
    match output_listing_step(Err(CloudError::Nextcloud("boom".to_string()))) {
        Some(Err(CloudError::Nextcloud(m))) => assert_eq!(m, "boom"),
        _ => panic!("expected the error"),
    }
}

#[test]
fn legacy_and_path_listings() {
    match legacy_listing_step(Err(CloudError::NotFound("x".to_string()))) {
        Ok(v) => assert!(v.is_empty()),
        Err(_) => panic!("missing legacy directory lists nothing"),
    }
    assert!(legacy_listing_step(Err(CloudError::Nextcloud("x".to_string()))).is_err());
    match path_listing(Ok(vec![dav("d", true, 0), dav("f", false, 2)])) {
        Ok(v) => assert_eq!(v.len(), 2),
        Err(_) => panic!("expected entries"),
    }
    match manifest_listing(Ok(vec![dav("a.wefc", false, 2), dav("b.txt", false, 2)])) {
        Ok(v) => {
            assert_eq!(v.len(), 1);
            assert_eq!(v[0].name, "a.wefc");
        },
        Err(_) => panic!("expected manifests"),
    }
    match manifest_listing(Err(CloudError::NotFound("x".to_string()))) {
        Ok(v) => assert!(v.is_empty()),
        Err(_) => panic!("missing project lists nothing"),
    }
}

#[test]
fn downloads() {
    assert!(download_step(Err(CloudError::NotFound("x".to_string()))).is_none());
    match download_step(Ok(vec![1, 2, 3])) {
        Some(Ok(b)) => assert_eq!(b, vec![1, 2, 3]),
        _ => panic!("expected the bytes"),
    }
    match manifest_download(Err(CloudError::NotFound("x".to_string()))) {
        Ok(None) => {},
        _ => panic!("a missing manifest is None"),
    }
    let found = manifest_download(Ok(b"{}".to_vec()));
    assert!(manifest_present(&found));
    assert!(!manifest_present(&Ok(None)));
    assert!(!manifest_present(&Err(CloudError::Nextcloud("x".to_string()))));
}

// ── PROPFIND bodies ─────────────────────────────────────────

fn multistatus() -> String {
    let parts = [
        "<?xml version=\"1.0\"?>\n",
        "<d:multistatus xmlns:d=\"DAV:\">\n",
        "<d:response><d:href>/remote.php/dav/files/u/Projects/P/</d:href>",
        "<d:propstat><d:prop><d:resourcetype><d:collection/></d:resourcetype></d:prop></d:propstat></d:response>\n",
        "<d:response><d:href>/remote.php/dav/files/u/Projects/P/My%20File.ifc</d:href>",
        "<d:propstat><d:prop><d:getcontentlength>1234</d:getcontentlength>",
        "<d:getlastmodified>Mon, 01 Jan 2024 00:00:00 GMT</d:getlastmodified>",
        "<d:getcontenttype>application/octet-stream</d:getcontenttype><d:resourcetype/></d:prop></d:propstat></d:response>\n",
        "<d:response><d:href>/remote.php/dav/files/u/Projects/P/sub/</d:href>",
        "<d:propstat><d:prop><d:resourcetype><d:collection/></d:resourcetype></d:prop></d:propstat></d:response>\n",
        "</d:multistatus>\n",
    ];
    parts.concat()
}

#[test]
fn propfind_skips_the_listed_collection() {
    let entries = parse_propfind(&multistatus());
    assert_eq!(entries.len(), 2);
}

#[test]
fn propfind_reads_file_properties() {
    let entries = parse_propfind(&multistatus());
    let f = &entries[0];
    assert_eq!(f.name, "My File.ifc");
    assert!(!f.is_collection);
    assert_eq!(f.size, 1234);
    assert_eq!(f.last_modified, "Mon, 01 Jan 2024 00:00:00 GMT");
    assert_eq!(f.content_type, "application/octet-stream");
}

#[test]
fn propfind_reads_collections() {
    let entries = parse_propfind(&multistatus());
    let d = &entries[1];
    assert_eq!(d.name, "sub");
    assert!(d.is_collection);
    assert_eq!(d.size, 0);
    assert_eq!(d.last_modified, "");
    assert_eq!(d.content_type, "");
}

#[test]
fn propfind_empty_body() {
    assert!(parse_propfind("").is_empty());
    assert!(parse_propfind("<d:multistatus xmlns:d=\"DAV:\"></d:multistatus>").is_empty());
}

// ── Volume listings ─────────────────────────────────────────

#[test]
fn select_files_filters_and_sorts() {
    let mut nameless = file_entry("x", 1, 0);
    nameless.name = None;
    let entries = vec![
        file_entry("b.ifc", 2, 0),
        file_entry(".hidden", 1, 0),
        dir_entry("models"),
        file_entry("a.txt", 1, 86_400),
        nameless,
    ];
    let files = select_files(entries, None);
    assert_eq!(files.len(), 2);
    assert_eq!(files[0].name, "a.txt");
    assert_eq!(files[0].path, "/root/a.txt");
    assert_eq!(files[0].size, 1);
    assert_eq!(files[0].last_modified, "1970-01-02T00:00:00Z");
    assert_eq!(files[1].name, "b.ifc");
}

#[test]
fn select_files_by_extension_ignores_case() {
    let entries = vec![file_entry("Model.IFC", 5, 0), file_entry("notes.txt", 1, 0), file_entry("x.ifczip", 3, 0)];
    let exts: &[&str] = &[".ifc", ".ifczip"];
    let files = select_files(entries, Some(exts));
    let names: Vec<&str> = files.iter().map(|f| f.name.as_str()).collect();
    assert_eq!(names, vec!["Model.IFC", "x.ifczip"]);
}

#[test]
fn select_files_without_metadata() {
    let mut e = file_entry("a.txt", 9, 9);
    e.meta = None;
    let files = select_files(vec![e], None);
    assert_eq!(files[0].size, 0);
    assert_eq!(files[0].last_modified, "");
}

#[test]
fn select_projects_and_manifests() {
    let entries = vec![dir_entry("Zeta"), dir_entry(".trash"), file_entry("project.wefc", 7, 0), dir_entry("Alpha")];
    let projects = select_projects(entries);
    let names: Vec<&str> = projects.iter().map(|p| p.name.as_str()).collect();
    assert_eq!(names, vec!["Alpha", "Zeta"]);
    let manifests = select_manifests(vec![file_entry("z.wefc", 1, 0), file_entry("a.wefc", 2, 0), file_entry("a.ifc", 3, 0)]);
    let names: Vec<&str> = manifests.iter().map(|m| m.name.as_str()).collect();
    assert_eq!(names, vec!["a.wefc", "z.wefc"]);
    assert_eq!(manifests[0].size, 2);
}

#[test]
fn confining_paths_to_the_root() {
    assert_eq!(confine_to_root(Some("/r/p/f".to_string()), Some("/r".to_string())), Some("/r/p/f".to_string()));
    assert_eq!(confine_to_root(Some("/etc/passwd".to_string()), Some("/r".to_string())), None);
    assert_eq!(confine_to_root(Some("/rx/f".to_string()), Some("/r".to_string())), None);
    assert_eq!(confine_to_root(None, Some("/r".to_string())), None);
    assert_eq!(confine_to_root(Some("/x".to_string()), None), Some("/x".to_string()));
}

#[test]
fn volume_reader_lists_through_the_directory_reader() {
    let reader = VolumeReader::from_path("/".to_string(), &any_dir);
    assert!(reader.available());
    let list = |dir: &str| -> Option<Vec<DirEntryInfo>> {
        if dir == "/" {
            Some(vec![dir_entry("B"), dir_entry("A"), file_entry("f.txt", 1, 0)])
        } else if dir == "/A/models" {
            Some(vec![file_entry("m.ifc", 4, 0), file_entry("m.txt", 4, 0)])
        } else {
            None
        }
    };
    let projects = reader.list_projects(&list);
    let names: Vec<&str> = projects.iter().map(|p| p.name.as_str()).collect();
    assert_eq!(names, vec!["A", "B"]);
    let models = reader.list_models("A", &list);
    assert_eq!(models.len(), 1);
    assert_eq!(models[0].name, "m.ifc");
    assert!(reader.list_models("B", &list).is_empty());
}

#[test]
fn unavailable_volume_lists_nothing() {
    let reader = VolumeReader::from_path("/nonexistent-volume-root-for-tests".to_string(), &no_dir);
    assert!(!reader.available());
    let list = |_dir: &str| -> Option<Vec<DirEntryInfo>> { Some(vec![dir_entry("A")]) };
    assert!(reader.list_projects(&list).is_empty());
}

// ── Merging manifest listings ───────────────────────────────

#[test]
fn merge_prefers_volume_entries() {
    let volume = vec![info("b.wefc", 1)];
    let webdav = Ok(vec![cloud_file("b.wefc", 99), cloud_file("a.wefc", 2)]);
    let merged = merge_manifest_listings(volume, webdav).ok().unwrap();
    assert_eq!(merged.len(), 2);
    assert_eq!(merged[0].name, "a.wefc");
    assert_eq!(merged[0].last_modified, "webdav");
    assert_eq!(merged[1].name, "b.wefc");
    assert_eq!(merged[1].size, 1);
    assert_eq!(merged[1].last_modified, "volume");
}

#[test]
fn merge_ignores_missing_webdav_project() {
    let merged = merge_manifest_listings(vec![], Err(CloudError::NotFound("x".to_string()))).ok().unwrap();
    assert!(merged.is_empty());
}

#[test]
fn merge_reports_webdav_error_only_without_volume_results() {
    match merge_manifest_listings(vec![], Err(CloudError::Nextcloud("down".to_string()))) {
        Err(CloudError::Nextcloud(m)) => assert_eq!(m, "down"),
        _ => panic!("expected the WebDAV error"),
    }
    let merged = merge_manifest_listings(vec![info("a.wefc", 1)], Err(CloudError::Nextcloud("down".to_string())))
        .ok()
        .unwrap();
    assert_eq!(merged.len(), 1);
}

#[test]
fn structure_detection() {
    assert!(structure_from_listing(&Ok(vec![cloud_file("a.wefc", 1)])) == ProjectStructure::New);
    assert!(structure_from_listing(&Ok(vec![])) == ProjectStructure::Legacy);
    assert!(structure_from_listing(&Err(CloudError::Nextcloud("x".to_string()))) == ProjectStructure::Legacy);
}

// ── Tenants ─────────────────────────────────────────────────

#[test]
fn tenant_defaults() {
    let t = TenantConfig::from_raw("3bm", raw(None), Some("secret".to_string())).unwrap();
    assert_eq!(t.slug, "3bm");
    assert_eq!(t.name, "3bm");
    assert_eq!(t.service_user, "openaec-service");
    assert_eq!(t.service_pass, "secret");
    assert_eq!(t.group_folder_id, 1);
    assert_eq!(t.volume_mount, "/nc-data-3bm");
    assert_eq!(t.nextcloud_domain, "cloud-3bm.open-aec.com");
    assert_eq!(t.projects_root(), "/nc-data-3bm/__groupfolders/1/files");
}

#[test]
fn tenant_without_password_is_skipped() {
    assert!(TenantConfig::from_raw("3bm", raw(None), None).is_none());
    assert!(TenantConfig::from_raw("3bm", raw(None), Some(String::new())).is_none());
}

#[test]
fn tenant_registry_from_entries() {
    let entries = vec![
        TenantEntry { slug: "a".to_string(), raw: raw(Some("A")), password: Some("p".to_string()) },
        TenantEntry { slug: "b".to_string(), raw: raw(Some("B")), password: None },
    ];
    let reg = TenantsRegistry::from_entries(entries);
    assert!(reg.is_configured());
    assert_eq!(reg.slugs(), vec!["a"]);
    assert_eq!(reg.get("a").unwrap().name, "A");
    assert!(reg.get("b").is_none());
    match reg.get_or_err("b") {
        Err(e) => assert_eq!(e.message(), "not found: unknown tenant: b"),
        Ok(_) => panic!("b has no password"),
    }
    assert_eq!(reg.iter().len(), 1);
    assert!(!TenantsRegistry::new().is_configured());
}

#[test]
fn tenant_registry_insert_replaces_same_slug() {
    let mut reg = TenantsRegistry::new();
    reg.insert(tenant());
    let mut other = tenant();
    other.name = "Renamed".to_string();
    reg.insert(other);
    assert_eq!(reg.slugs(), vec!["3bm"]);
    assert_eq!(reg.get("3bm").unwrap().name, "Renamed");
}

// ── Cloud client ────────────────────────────────────────────

#[test]
fn cloud_client_maps_tool_to_output_dir() {
    let c = CloudClient::new(&tenant(), "bcf-platform", &no_dir);
    assert_eq!(c.tool_slug(), "bcf-platform");
    assert_eq!(c.webdav.output_path("P"), "Projects/P/issues");
    assert_eq!(c.webdav.webdav_root(), "http://nc-3bm:80/remote.php/dav/files/openaec-service");
}

#[test]
fn cloud_client_upsert_into_new_manifest() {
    let c = CloudClient::new(&tenant(), "bim-validator", &no_dir);
    let m = c.upsert_into(None, object(&[("guid", "g1"), ("type", "report")])).unwrap();
    assert_eq!(m.header.application, "bim-validator");
    assert_eq!(m.header.schema, "WeFC");
    assert_eq!(m.len(), 1);
    assert!(m.find_by_guid("g1").is_some());
}

#[test]
fn cloud_client_upsert_into_existing_manifest() {
    let c = CloudClient::new(&tenant(), "bim-validator", &no_dir);
    let mut existing = ProjectManifest::new("other-tool").unwrap();
    existing.add_or_update(object(&[("guid", "g1"), ("name", "old")]));
    let file_id = existing.header.file_id.clone();
    let m = c.upsert_into(Some(existing), object(&[("guid", "g1"), ("name", "new")])).unwrap();
    assert_eq!(m.header.application, "bim-validator");
    assert_eq!(m.header.file_id, file_id);
    assert_eq!(m.len(), 1);
    let found = m.find_by_guid("g1").unwrap();
    assert_eq!(found.value().get("name").unwrap().as_str().unwrap(), "new");
}

// ── Manifest laws on concrete values ────────────────────────

#[test]
fn manifest_remove_undoes_new_add() {
    let mut m = ProjectManifest::new("t").unwrap();
    m.add_or_update(object(&[("guid", "g1")]));
    assert!(!m.add_or_update(object(&[("guid", "g2")])));
    assert!(m.remove_by_guid("g2"));
    assert_eq!(m.len(), 1);
    assert!(m.find_by_guid("g1").is_some());
    assert!(m.find_by_guid("g2").is_none());
    assert!(!m.remove_by_guid("g2"));
}

#[test]
fn manifest_upsert_is_idempotent() {
    let mut m = ProjectManifest::new("t").unwrap();
    assert!(!m.add_or_update(object(&[("guid", "g"), ("type", "x")])));
    assert!(m.add_or_update(object(&[("guid", "g"), ("type", "x")])));
    assert_eq!(m.len(), 1);
}

#[test]
fn manifest_objects_without_guid_are_appended() {
    let mut m = ProjectManifest::new("t").unwrap();
    assert!(!m.add_or_update(object(&[("type", "x")])));
    assert!(!m.add_or_update(object(&[("type", "x")])));
    assert_eq!(m.len(), 2);
    assert_eq!(m.find_by_type("x").len(), 2);
}

#[test]
fn manifest_find_by_path() {
    let mut m = ProjectManifest::new("t").unwrap();
    m.add_or_update(object(&[("guid", "g1"), ("path", "models/a.ifc")]));
    m.add_or_update(object(&[("guid", "g2"), ("path", "reports/r.pdf")]));
    assert_eq!(m.find_by_path("reports/r.pdf").unwrap().guid(), Some("g2"));
    assert!(m.find_by_path("missing").is_none());
}

#[test]
fn manifest_header_of_new_manifest() {
    let m = ProjectManifest::new("tool").unwrap();
    assert_eq!(m.header.schema_version, "1.0.0");
    assert_eq!(m.header.application, "tool");
    assert_eq!(m.header.file_id.len(), 36);
    assert_eq!(m.header.timestamp.len(), 20);
    assert!(m.header.timestamp.ends_with('Z'));
    assert!(m.is_empty());
}

#[test]
fn cloud_client_list_files_falls_back_to_legacy() {
    let mut c = CloudClient::new(&tenant(), "bim-validator", &no_dir);
    c.volume = VolumeReader::from_path("/".to_string(), &any_dir);
    let list = |dir: &str| -> Option<Vec<DirEntryInfo>> {
        if dir == "/A/validation" {
            Some(vec![dir_entry("old")])
        } else if dir == "/A/99_overige_documenten/bim-validator" {
            Some(vec![file_entry("legacy.json", 3, 0)])
        } else if dir == "/B/validation" {
            Some(vec![file_entry("new.json", 3, 0)])
        } else {
            None
        }
    };
    let a = c.list_files("A", &list);
    assert_eq!(a.len(), 1);
    assert_eq!(a[0].name, "legacy.json");
    let b = c.list_files("B", &list);
    assert_eq!(b.len(), 1);
    assert_eq!(b[0].name, "new.json");
    assert!(c.list_files("C", &list).is_empty());
}

#[test]
fn cloud_client_without_volume_lists_nothing() {
    let c = CloudClient::new(&tenant(), "bim-validator", &no_dir);
    let list = |_dir: &str| -> Option<Vec<DirEntryInfo>> { Some(vec![file_entry("a.json", 1, 0)]) };
    assert!(c.list_files("A", &list).is_empty());
    assert!(c.list_projects(&list, None).is_empty());
    assert!(!c.volume_has_manifests("A", &list));
}

#[test]
fn volume_reader_filtered_listing_and_manifests() {
    let reader = VolumeReader::from_path("/".to_string(), &any_dir);
    let list = |dir: &str| -> Option<Vec<DirEntryInfo>> {
        if dir == "/P/specs" {
            Some(vec![file_entry("b.IDS", 1, 0), file_entry("a.ifc", 1, 0), file_entry("c.txt", 1, 0)])
        } else if dir == "/P" {
            Some(vec![file_entry("project.wefc", 10, 0), dir_entry("models"), file_entry("extra.wefc", 4, 0)])
        } else {
            None
        }
    };
    let exts: &[&str] = &[".ifc", ".ids"];
    let files = reader.list_files_filtered("P", "specs", exts, &list);
    let names: Vec<&str> = files.iter().map(|f| f.name.as_str()).collect();
    assert_eq!(names, vec!["a.ifc", "b.IDS"]);
    let manifests = reader.list_manifests("P", &list);
    let names: Vec<&str> = manifests.iter().map(|m| m.name.as_str()).collect();
    assert_eq!(names, vec!["extra.wefc", "project.wefc"]);
    let read = |path: &str| -> Option<Vec<u8>> {
        if path == "/P/project.wefc" { Some(b"{}".to_vec()) } else { None }
    };
    assert_eq!(reader.read_default_manifest("P", &read), Some(b"{}".to_vec()));
    assert_eq!(reader.read_manifest("Q", "project.wefc", &read), None);
}

fn canonical(path: &str) -> Option<String> {
    match path {
        "/" => Some("/".to_string()),
        "/P/reports/r.pdf" => Some("/P/reports/r.pdf".to_string()),
        "/P/reports/../../etc/passwd" => Some("/etc/passwd".to_string()),
        "/P/reports" => Some("/P/reports".to_string()),
        _ => None,
    }
}

#[test]
fn file_path_resolves_and_confines() {
    let reader = VolumeReader::from_path("/".to_string(), &any_dir);
    let is_file = |p: &str| p == "/P/reports/r.pdf" || p == "/etc/passwd";
    assert_eq!(reader.file_path("P", "reports", "r.pdf", &canonical, &is_file), Some("/P/reports/r.pdf".to_string()));
    assert_eq!(reader.file_path("P", "reports", "missing.pdf", &canonical, &is_file), None);
    let not_file = |_p: &str| false;
    assert_eq!(reader.file_path("P", "reports", "r.pdf", &canonical, &not_file), None);
    let rooted = VolumeReader::from_path("/P".to_string(), &any_dir);
    let canonical_p = |p: &str| -> Option<String> {
        if p == "/P" { Some("/P".to_string()) } else { canonical(p) }
    };
    assert_eq!(rooted.file_path("reports", "..", "../etc/passwd", &canonical_p, &is_file), None);
}

#[test]
fn read_file_reads_the_resolved_path() {
    let reader = VolumeReader::from_path("/".to_string(), &any_dir);
    let is_file = |p: &str| p == "/P/reports/r.pdf";
    let read = |p: &str| -> Option<Vec<u8>> { if p == "/P/reports/r.pdf" { Some(vec![7]) } else { None } };
    assert_eq!(reader.read_file("P", "reports", "r.pdf", &read, &canonical, &is_file), Some(vec![7]));
    assert_eq!(reader.read_file("P", "reports", "x.pdf", &read, &canonical, &is_file), None);
}

#[test]
fn project_existence_and_mount_checks() {
    let reader = VolumeReader::from_path("/".to_string(), &any_dir);
    let is_dir = |p: &str| p == "/P";
    assert!(reader.project_exists("P", &is_dir));
    assert!(!reader.project_exists("Q", &is_dir));
    let down = VolumeReader::from_path("/nonexistent-volume-root-for-tests".to_string(), &no_dir);
    assert!(!down.project_exists("P", &|_p: &str| true));
    let t = tenant();
    assert!(t.has_volume_mount(&|p: &str| p == "/nc-data-3bm/__groupfolders/1/files"));
    assert!(!t.has_volume_mount(&|_p: &str| false));
    let mut unmounted = tenant();
    unmounted.volume_mount = String::new();
    assert!(!unmounted.has_volume_mount(&|_p: &str| true));
    let c = CloudClient::new(&t, "bim-validator", &no_dir);
    assert!(!c.project_exists("P", &|_p: &str| true));
}

#[test]
fn merge_deduplicates_webdav_names() {
    let webdav = Ok(vec![cloud_file("a.wefc", 1), cloud_file("a.wefc", 2), cloud_file("b.wefc", 3)]);
    let merged = merge_manifest_listings(vec![info("b.wefc", 9)], webdav).ok().unwrap();
    let names: Vec<&str> = merged.iter().map(|m| m.name.as_str()).collect();
    assert_eq!(names, vec!["a.wefc", "b.wefc"]);
    assert_eq!(merged[0].size, 1);
    assert_eq!(merged[1].size, 9);
}

#[test]
fn project_listing_falls_back_to_webdav() {
    let c = CloudClient::new(&tenant(), "bim-validator", &no_dir);
    let list = |_dir: &str| -> Option<Vec<DirEntryInfo>> { Some(vec![dir_entry("Volume")]) };
    let webdav = Ok(vec![openaec_cloud::CloudProject { name: "My Project".to_string() }]);
    let projects = c.list_projects(&list, Some(webdav));
    assert_eq!(projects.len(), 1);
    assert_eq!(projects[0].name, "My Project");
    assert_eq!(projects[0].path, "Projects/My%20Project");
    assert!(c.list_projects(&list, Some(Err(CloudError::Nextcloud("down".to_string())))).is_empty());
    let mut up = CloudClient::new(&tenant(), "bim-validator", &no_dir);
    up.volume = VolumeReader::from_path("/".to_string(), &any_dir);
    let projects = up.list_projects(&list, None);
    assert_eq!(projects[0].name, "Volume");
}

#[test]
fn content_types_of_downloads() {
    assert_eq!(openaec_cloud::webdav::content_type_of(Some("text/plain")), "text/plain");
    assert_eq!(openaec_cloud::webdav::content_type_of(None), "application/octet-stream");
}

#[test]
fn delete_falls_back_when_missing() {
    assert!(openaec_cloud::webdav::delete_step(Err(CloudError::NotFound("x".to_string()))).is_none());
    assert!(matches!(openaec_cloud::webdav::delete_step(Ok(())), Some(Ok(()))));
    assert!(matches!(openaec_cloud::webdav::delete_step(Err(CloudError::Nextcloud("x".to_string()))), Some(Err(CloudError::Nextcloud(_)))));
}

#[test]
fn manifest_bytes_prefer_the_volume() {
    assert_eq!(openaec_cloud::manifest_bytes(Some(vec![1]), Some(Ok(Some(vec![2])))).ok().unwrap(), Some(vec![1]));
    assert_eq!(openaec_cloud::manifest_bytes(None, Some(Ok(Some(vec![2])))).ok().unwrap(), Some(vec![2]));
    assert_eq!(openaec_cloud::manifest_bytes(None, Some(Ok(None))).ok().unwrap(), None);
    assert!(openaec_cloud::manifest_bytes(None, Some(Err(CloudError::Nextcloud("x".to_string())))).is_err());
    assert_eq!(openaec_cloud::manifest_bytes(None, None).ok().unwrap(), None);
}

#[test]
fn manifest_object_reads_its_keys() {
    let o = object(&[("guid", "g"), ("type", "t"), ("path", "p")]);
    assert_eq!(o.guid(), Some("g"));
    assert_eq!(o.object_type(), Some("t"));
    assert_eq!(o.path(), Some("p"));
    let mut map = serde_json::Map::new();
    map.insert("guid".to_string(), serde_json::Value::from(5));
    let n = ManifestObject::from_value(serde_json::Value::Object(map));
    assert!(n.guid().is_none());
    assert!(n.path().is_none());
}

#[test]
fn volume_availability_follows_the_directory_test() {
    let t = tenant();
    let root_only = |p: &str| p == "/nc-data-3bm/__groupfolders/1/files";
    assert!(VolumeReader::new(&t, &root_only).available());
    assert!(!VolumeReader::new(&t, &no_dir).available());
    assert!(VolumeReader::from_path("/data".to_string(), &|p: &str| p == "/data").available());
    assert!(!VolumeReader::from_path("/data".to_string(), &no_dir).available());
}

#[test]
fn structure_values_copy() {
    let s = ProjectStructure::New;
    let t = s;
    assert_eq!(format!("{:?}", s), "New");
    assert!(t == ProjectStructure::New);
}

#[test]
fn propfind_names_are_percent_decoded() {
    let body = [
        "<d:multistatus xmlns:d=\"DAV:\">",
        "<d:response><d:href>/dav/P/</d:href></d:response>",
        "<d:response><d:href>/dav/P/caf%C3%A9%2Bx.txt</d:href></d:response>",
        "<d:response><d:href>/dav/P/100%zz</d:href></d:response>",
        "<d:response><d:href>/dav/P/bad%FF</d:href></d:response>",
        "</d:multistatus>",
    ]
    .concat();
    let entries = parse_propfind(&body);
    let names: Vec<&str> = entries.iter().map(|e| e.name.as_str()).collect();
    assert_eq!(names, vec!["caf\u{e9}+x.txt", "100%zz", "bad%FF"]);
}

#[test]
fn manifest_file_id_from_random_bytes() {
    let m = ProjectManifest::from_random("t", [0u8; 16]);
    assert_eq!(m.header.file_id, "00000000-0000-4000-8000-000000000000");
    let bytes: [u8; 16] = [0, 1, 2, 3, 4, 5, 6, 7, 8, 9, 10, 11, 12, 13, 14, 15];
    let m = ProjectManifest::from_random("t", bytes);
    assert_eq!(m.header.file_id, "00010203-0405-4607-8809-0a0b0c0d0e0f");
    let m = ProjectManifest::from_random("t", [0xff; 16]);
    assert_eq!(m.header.file_id, "ffffffff-ffff-4fff-bfff-ffffffffffff");
}

#[test]
fn structure_detection_prefers_the_volume() {
    let empty: Result<Vec<CloudFile>, CloudError> = Ok(vec![]);
    let found: Result<Vec<CloudFile>, CloudError> = Ok(vec![cloud_file("a.wefc", 1)]);
    assert!(openaec_cloud::detected_structure(true, None) == ProjectStructure::New);
    assert!(openaec_cloud::detected_structure(false, Some(&found)) == ProjectStructure::New);
    assert!(openaec_cloud::detected_structure(false, Some(&empty)) == ProjectStructure::Legacy);
    assert!(openaec_cloud::detected_structure(false, None) == ProjectStructure::Legacy);
}

#[test]
fn tenant_entry_enabled_needs_a_password() {
    let e = |p: Option<&str>| TenantEntry { slug: "a".to_string(), raw: raw(None), password: p.map(|s| s.to_string()) };
    assert!(e(Some("pw")).enabled());
    assert!(!e(Some("")).enabled());
    assert!(!e(None).enabled());
}

#[test]
fn confinement_compares_whole_components() {
    assert_eq!(confine_to_root(Some("/r//p/".to_string()), Some("/r/".to_string())), Some("/r//p/".to_string()));
    assert_eq!(confine_to_root(Some("/r/./x".to_string()), Some("/r".to_string())), Some("/r/./x".to_string()));
    assert_eq!(confine_to_root(Some("./a/b".to_string()), Some("a".to_string())), None);
    assert_eq!(confine_to_root(Some("a/b".to_string()), Some("".to_string())), Some("a/b".to_string()));
    assert_eq!(confine_to_root(Some("/ab".to_string()), Some("/a".to_string())), None);
}
