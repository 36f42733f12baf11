use share_these::error::ServeError;
use share_these::listing::{build_listing, EntryInfo};
use share_these::resolve::{contains_parent_segment, resolve_under_root};

fn entry(name: &str, is_directory: bool, size_bytes: u64) -> EntryInfo {
    EntryInfo { name: name.to_string(), is_directory, size_bytes }
}

#[test]
fn listing_splits_and_sorts_by_name() {
    let entries = vec![
        entry("b.txt", false, 3),
        entry("docs", true, 4096),
        entry("a.txt", false, 5),
        entry("Zeta", true, 4096),
        entry("B.txt", false, 1),
    ];
    let listing = build_listing(&entries, None);
    let folders: Vec<&str> = listing.folders.iter().map(|e| e.name.as_str()).collect();
    let files: Vec<&str> = listing.files.iter().map(|e| e.name.as_str()).collect();
    assert_eq!(folders, vec!["Zeta", "docs"]);
    assert_eq!(files, vec!["B.txt", "a.txt", "b.txt"]);
    assert!(listing.folders.iter().all(|e| e.is_directory && e.size_bytes == 0));
    assert!(listing.files.iter().all(|e| !e.is_directory));
    assert_eq!(listing.files[1].size_bytes, 5);
    assert_eq!(listing.files[1].relative_path, "a.txt");
}

#[test]
fn listing_under_prefix_joins_paths() {
    let entries = vec![entry("b.md", false, 2), entry("img", true, 0)];
    let listing = build_listing(&entries, Some("docs"));
    assert_eq!(listing.files[0].relative_path, "docs/b.md");
    assert_eq!(listing.folders[0].relative_path, "docs/img");
}

#[test]
fn empty_directory_lists_nothing() {
    let listing = build_listing(&Vec::new(), None);
    assert!(listing.folders.is_empty());
    assert!(listing.files.is_empty());
}

#[test]
fn listing_orders_by_code_point() {
    let entries = vec![entry("é.txt", false, 1), entry("z.txt", false, 1), entry("ab", false, 1), entry("a", false, 1)];
    let listing = build_listing(&entries, None);
    let files: Vec<&str> = listing.files.iter().map(|e| e.name.as_str()).collect();
    assert_eq!(files, vec!["a", "ab", "z.txt", "é.txt"]);
}

#[test]
fn parent_segments_are_found() {
    assert!(contains_parent_segment(".."));
    assert!(contains_parent_segment("../etc/passwd"));
    assert!(contains_parent_segment("a/../b"));
    assert!(contains_parent_segment("a/.."));
    assert!(!contains_parent_segment("a..b"));
    assert!(!contains_parent_segment("a/...b/c"));
    assert!(!contains_parent_segment("docs/b.md"));
    assert!(!contains_parent_segment(""));
}

#[test]
fn traversal_is_rejected_with_bad_request() {
    let r = resolve_under_root("/srv", "docs/../../etc");
    assert_eq!(r, Err(ServeError::PathTraversalRejected));
    assert_eq!(ServeError::PathTraversalRejected.status(), 400);
}

#[test]
fn safe_paths_join_under_root() {
    assert_eq!(resolve_under_root("/srv", "docs/b.md"), Ok("/srv/docs/b.md".to_string()));
    assert_eq!(resolve_under_root("/srv", "a..b"), Ok("/srv/a..b".to_string()));
}

#[test]
fn every_error_has_its_status() {
    assert_eq!(ServeError::PathNotFound.status(), 404);
    assert_eq!(ServeError::DirectoryReadFailed.status(), 500);
    assert_eq!(ServeError::RangeMalformed.status(), 400);
    assert_eq!(ServeError::RangeUnsatisfiable.status(), 416);
    assert_eq!(ServeError::StreamIoFailed.status(), 500);
    assert_eq!(ServeError::PermissionDenied.status(), 403);
}
