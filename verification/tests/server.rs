use porthole::api;
use porthole::api::{
    check_relative, confine, candidate_path, download_headers, folder_dtos, sanitize_filename,
    upload_destination, ApiError,
};
use porthole::folders::{
    build, find_root, folder_id, AppState, ConfiguredFolder, FolderHandle, Fnv1a, FNV_OFFSET,
};
use porthole::listing::{browse_listing, DirEntryInfo};
use std::hash::Hasher;

fn configured(path: &str, canonical: &str) -> ConfiguredFolder {
    ConfiguredFolder {
        path: path.to_string(),
        canonical: canonical.to_string(),
    }
}

fn shared_state() -> (AppState, String) {
    let state = AppState::new(&vec![configured("/srv/shared", "/srv/shared")]);
    let root = state.root_ids().into_iter().next().expect("one root");
    (state, root)
}

#[test]
fn list_roots_returns_configured_folder() {
    let (state, root) = shared_state();
    let list = folder_dtos(&state.folders());
    assert_eq!(list[0].id, root);
    assert!(list[0].name.len() > 0);
}

#[test]
fn folder_id_is_stable_across_rebuilds() {
    let first = AppState::new(&vec![configured("/srv/shared", "/srv/shared")]).root_ids();
    let second = AppState::new(&vec![configured("/srv/shared", "/srv/shared")]).root_ids();
    assert_eq!(first, second);
}

#[test]
fn browse_lists_entries_sorted_dirs_first() {
    let raw = vec![
        DirEntryInfo { name: "hello.txt".to_string(), is_dir: false, size: 12 },
        DirEntryInfo { name: "sub".to_string(), is_dir: true, size: 4096 },
    ];
    let entries = browse_listing("", &raw);
    assert_eq!(entries.len(), 2);
    assert_eq!(entries[0].name, "sub");
    assert_eq!(entries[0].is_dir, true);
    assert_eq!(entries[1].name, "hello.txt");
    assert_eq!(entries[1].is_dir, false);
}

#[test]
fn path_traversal_outside_root_is_rejected() {
    let refused = check_relative("../../etc/passwd");
    assert_eq!(refused, Err(ApiError::BadRequest));
    assert_eq!(refused.unwrap_err().status_code(), 400);
}

#[test]
fn unknown_root_id_returns_not_found() {
    let (state, _root) = shared_state();
    assert!(state.root_by_id("deadbeefdeadbeef").is_none());
    assert_eq!(ApiError::NotFound.status_code(), 404);
}

#[test]
fn upload_writes_file_into_shared_folder() {
    assert_eq!(upload_destination("/srv/shared", "uploaded.txt"), "/srv/shared/uploaded.txt");
}

#[test]
fn upload_sanitizes_path_traversal_in_filename() {
    assert_eq!(sanitize_filename("../evil.txt"), "evil.txt");
    assert_eq!(upload_destination("/srv/shared", "../evil.txt"), "/srv/shared/evil.txt");
}

#[test]
fn folder_update_is_visible_without_restart() {
    let (mut handle, state) = FolderHandle::new(&Vec::new());
    assert_eq!(state.folders().len(), 0);
    handle.update(&vec![configured("/srv/shared", "/srv/shared")]);
    assert_eq!(state.folders().len(), 1);
    assert_eq!(state.clone().folders().len(), 1);
}

#[test]
fn sanitize_filename_falls_back_to_file() {
    assert_eq!(sanitize_filename(""), "file");
    assert_eq!(sanitize_filename(".."), "file");
    assert_eq!(sanitize_filename("/"), "file");
    assert_eq!(sanitize_filename("a/b/"), "b");
    assert_eq!(sanitize_filename("notes.md"), "notes.md");
}

#[test]
fn relative_paths_are_checked() {
    assert_eq!(check_relative(""), Ok(()));
    assert_eq!(check_relative("sub/nested.txt"), Ok(()));
    assert_eq!(check_relative("/etc/passwd"), Err(ApiError::BadRequest));
    assert_eq!(check_relative("a..b"), Err(ApiError::BadRequest));
    assert_eq!(candidate_path("/srv/shared", ""), "/srv/shared");
    assert_eq!(candidate_path("/srv/shared", "sub/nested.txt"), "/srv/shared/sub/nested.txt");
    assert_eq!(candidate_path("/", "etc"), "/etc");
}

#[test]
fn confine_keeps_only_paths_inside_root() {
    assert_eq!(confine("/srv/shared", "/srv/shared/sub"), Ok("/srv/shared/sub".to_string()));
    assert_eq!(confine("/srv/shared", "/srv/shared"), Ok("/srv/shared".to_string()));
    assert_eq!(confine("/srv/shared", "/srv/shared2/x"), Err(ApiError::Forbidden));
    assert_eq!(ApiError::Forbidden.status_code(), 403);
    assert_eq!(ApiError::Internal.status_code(), 500);
}

#[test]
fn download_headers_name_the_file() {
    let h = download_headers("/srv/shared/hello.txt");
    assert_eq!(h.content_type, "text/plain");
    assert_eq!(h.disposition, "attachment; filename=\"hello.txt\"");
    let h = download_headers("/srv/shared/README");
    assert_eq!(h.content_type, "application/octet-stream");
    assert_eq!(h.disposition, "attachment; filename=\"README\"");
    let h = download_headers("/");
    assert_eq!(h.disposition, "attachment; filename=\"file\"");
}

#[test]
fn folder_ids_are_sixteen_hex_digits_of_fnv1a() {
    let id = folder_id("/srv/shared");
    assert_eq!(id.len(), 16);
    assert!(id.chars().all(|c| c.is_ascii_hexdigit() && !c.is_ascii_uppercase()));
    assert_ne!(folder_id("/srv/shared"), folder_id("/srv/other"));
    assert_eq!(folder_id("/srv/shared"), folder_id("/srv//shared/"));
    // the id is the 64-bit FNV-1a hash that Path's Hash impl feeds
    let mut h = Fnv1a::new();
    std::hash::Hash::hash(std::path::Path::new("/srv/shared"), &mut h);
    assert_eq!(id, format!("{:016x}", h.finish()));
}

#[test]
fn fnv1a_matches_reference_values() {
    let mut h = Fnv1a::new();
    assert_eq!(h.finish(), FNV_OFFSET);
    h.write(b"a");
    assert_eq!(h.finish(), 0xaf63dc4c8601ec8c);
    let mut h = Fnv1a::new();
    h.write(b"foobar");
    assert_eq!(h.finish(), 0x85944171f73967e8);
}

#[test]
fn build_skips_repeated_canonical_paths_and_names_folders() {
    let roots = build(&vec![
        configured("/home/u/link", "/srv/shared"),
        configured("/srv/shared", "/srv/shared"),
        configured("/srv/other", "/srv/other"),
        configured("/", "/"),
    ]);
    assert_eq!(roots.len(), 3);
    assert_eq!(roots[0].name, "shared");
    assert_eq!(roots[0].path, "/srv/shared");
    assert_eq!(roots[0].id, folder_id("/srv/shared"));
    assert_eq!(roots[1].name, "other");
    assert_eq!(roots[2].name, "/");
    let found = find_root(&roots, &folder_id("/srv/other")).expect("found");
    assert_eq!(found.path, "/srv/other");
}

#[test]
fn browse_listing_orders_by_kind_then_bytes_and_keeps_ties() {
    let raw = vec![
        DirEntryInfo { name: "b".to_string(), is_dir: false, size: 1 },
        DirEntryInfo { name: "Z".to_string(), is_dir: false, size: 2 },
        DirEntryInfo { name: "b".to_string(), is_dir: false, size: 3 },
        DirEntryInfo { name: "é".to_string(), is_dir: false, size: 4 },
        DirEntryInfo { name: "dir".to_string(), is_dir: true, size: 5 },
        DirEntryInfo { name: "a".to_string(), is_dir: false, size: 6 },
    ];
    let entries = browse_listing("docs//", &raw);
    let names: Vec<(&str, u64)> = entries.iter().map(|e| (e.name.as_str(), e.size)).collect();
    assert_eq!(names, vec![("dir", 5), ("Z", 2), ("a", 6), ("b", 1), ("b", 3), ("é", 4)]);
    assert_eq!(entries[0].path, "docs/dir");
    assert_eq!(entries[1].path, "docs/Z");
}

#[test]
fn fnv1a_writes_compose() {
    let mut whole = Fnv1a::new();
    whole.write(b"shared folder");
    let mut parts = Fnv1a::new();
    parts.write(b"shared ");
    parts.write(b"folder");
    assert_eq!(whole.finish(), parts.finish());
    let mut n = Fnv1a::new();
    n.write_usize(0x0102);
    let mut bytes = Fnv1a::new();
    bytes.write(&[2, 1, 0, 0, 0, 0, 0, 0]);
    assert_eq!(n.finish(), bytes.finish());
}

#[test]
fn request_checks_map_to_statuses() {
    assert_eq!(api::require_directory(true), Ok(()));
    assert_eq!(api::require_directory(false).unwrap_err().status_code(), 400);
    assert_eq!(api::require_file(true), Ok(()));
    assert_eq!(api::require_file(false).unwrap_err().status_code(), 404);
    let (state, root) = shared_state();
    assert_eq!(api::require_root(state.root_by_id(&root)).unwrap().path, "/srv/shared");
    assert_eq!(
        api::require_root(state.root_by_id("deadbeefdeadbeef")).unwrap_err(),
        ApiError::NotFound
    );
}

#[test]
fn stored_names_are_one_component() {
    assert_eq!(sanitize_filename("/etc/passwd"), "passwd");
    assert_eq!(sanitize_filename("../../etc/x"), "x");
    assert_eq!(sanitize_filename("foo.txt/.//"), "foo.txt");
    assert_eq!(sanitize_filename("a/.."), "file");
    assert_eq!(sanitize_filename("/"), "file");
    assert_eq!(upload_destination("/srv/shared", "/etc/passwd"), "/srv/shared/passwd");
    assert_eq!(upload_destination("/srv/shared/", "../../etc/x"), "/srv/shared/x");
}

#[test]
fn sanitizing_twice_changes_nothing() {
    for name in ["evil.txt", "../evil.txt", "/etc/passwd", "", ".", "..", "a/./", "report.pdf"] {
        let once = sanitize_filename(name);
        assert_eq!(sanitize_filename(&once), once);
    }
    assert_eq!(sanitize_filename("report.pdf"), "report.pdf");
}

#[test]
fn upload_fields_without_a_name_are_skipped() {
    assert_eq!(api::field_destination("/srv/shared", None), None);
    assert_eq!(
        api::field_destination("/srv/shared", Some("../evil.txt")),
        Some("/srv/shared/evil.txt".to_string())
    );
}

#[test]
fn upload_faults_map_to_statuses() {
    assert_eq!(api::UploadFault::Multipart.error(), ApiError::BadRequest);
    assert_eq!(api::UploadFault::FieldData.error(), ApiError::BadRequest);
    assert_eq!(api::UploadFault::Write.error(), ApiError::Internal);
}

#[test]
fn request_resolution_orders_its_refusals() {
    assert_eq!(
        api::resolve_request("../x", Some("/srv"), Some("/srv/x")),
        Err(ApiError::BadRequest)
    );
    assert_eq!(api::resolve_request("x", None, None), Err(ApiError::NotFound));
    assert_eq!(api::resolve_request("x", Some("/srv"), None), Err(ApiError::NotFound));
    assert_eq!(
        api::resolve_request("x", Some("/srv"), Some("/etc/x")),
        Err(ApiError::Forbidden)
    );
    assert_eq!(
        api::resolve_request("x", Some("/srv"), Some("/srv/x")),
        Ok("/srv/x".to_string())
    );
}
