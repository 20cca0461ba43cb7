use aether_drive::folders::{create_folder, list_files_and_folders, FolderError};
use aether_drive::index::{find_by_path, FileMetadata};
use aether_drive::paths::{get_name_from_path, get_parent_path, is_prefix, normalize_path};
use aether_drive::reconcile::{purged_ids, reconcile_ids, reconcile_listing};

fn entry(id: &str, path: &str, size: u64) -> (String, FileMetadata) {
    (id.to_string(), FileMetadata { logical_path: path.to_string(), encrypted_size: size })
}

#[test]
fn normalize_collapses_double_slashes_and_roots() {
    assert_eq!(normalize_path("a//b"), "/a/b");
    assert_eq!(normalize_path("/a/b/"), "/a/b/");
    assert_eq!(normalize_path("///x"), "//x");
    assert_eq!(normalize_path(""), "/");
    assert_eq!(normalize_path("/"), "/");
}

#[test]
fn prefix_respects_component_boundaries() {
    assert!(is_prefix("/", "/anything"));
    assert!(is_prefix("/docs", "/docs/a.txt"));
    assert!(is_prefix("/docs", "/docs"));
    assert!(!is_prefix("/docs", "/docsx/a.txt"));
    assert!(!is_prefix("/docs/deep", "/docs"));
}

#[test]
fn parent_and_name_of_paths() {
    assert_eq!(get_parent_path("/"), "/");
    assert_eq!(get_parent_path("/a"), "/");
    assert_eq!(get_parent_path("/a/b/c.txt"), "/a/b");
    assert_eq!(get_parent_path("/a/b/"), "/a");
    assert_eq!(get_name_from_path("/a/b/c.txt"), "c.txt");
    assert_eq!(get_name_from_path("/a/b/"), "b");
    assert_eq!(get_name_from_path("plain"), "plain");
}

#[test]
fn listing_splits_files_and_folders() {
    let entries = vec![
        entry("1", "/top.txt", 10),
        entry("2", "/docs/a.txt", 20),
        entry("3", "/docs/b.txt", 30),
        entry("4", "/empty/", 0),
        entry("5", "/docs/sub/", 0),
    ];
    let root = list_files_and_folders(&entries, None);
    assert_eq!(root.files.len(), 1);
    assert_eq!(root.files[0].id, "1");
    let mut paths: Vec<String> = root.folders.iter().map(|f| f.path.clone()).collect();
    paths.sort();
    assert_eq!(paths, vec!["/docs".to_string(), "/empty/".to_string()]);
    for f in &root.folders {
        assert!(f.name == "docs" || f.name == "empty");
    }

    let docs = list_files_and_folders(&entries, Some("/docs"));
    let ids: Vec<&str> = docs.files.iter().map(|f| f.id.as_str()).collect();
    assert_eq!(ids, vec!["2", "3"]);
    assert_eq!(docs.folders.len(), 1);
    assert_eq!(docs.folders[0].path, "/docs/sub/");
    assert_eq!(docs.folders[0].name, "sub");
}

#[test]
fn folder_creation_rules() {
    let entries = vec![entry("1", "/docs/", 0)];
    assert_eq!(create_folder("", None, &entries), Err(FolderError::EmptyName));
    assert_eq!(create_folder("a/b", None, &entries), Err(FolderError::NameHasSlash));
    assert_eq!(create_folder("docs", None, &entries), Err(FolderError::AlreadyExists));
    assert_eq!(create_folder("new", None, &entries).unwrap(), "/new/");
    assert_eq!(create_folder("sub", Some("docs"), &entries).unwrap(), "/docs/sub/");
}

#[test]
fn find_entry_by_path() {
    let entries = vec![entry("1", "/a", 1), entry("2", "/b", 2), entry("3", "/b", 3)];
    assert_eq!(find_by_path(&entries, "/b"), Some(1));
    assert_eq!(find_by_path(&entries, "/c"), None);
}

#[test]
fn reconcile_finds_orphans_and_placeholders() {
    let local = vec![entry("aa11", "/kept", 5), entry("bb22", "/gone", 6)];
    let keys = vec!["AA-11".to_string(), "cc33".to_string()];
    let (orphans, listing) = reconcile_listing(&local, &keys);
    assert_eq!(orphans, vec!["bb22".to_string()]);
    assert_eq!(listing.len(), 2);
    assert_eq!(listing[0].uuid, "AA-11");
    assert_eq!(listing[0].logical_path.as_deref(), Some("/kept"));
    assert_eq!(listing[0].encrypted_size, Some(5));
    assert_eq!(listing[1].uuid, "cc33");
    assert!(listing[1].logical_path.is_none());
    assert!(listing[1].encrypted_size.is_none());

    let (none, _) = reconcile_ids(&local, &keys, &vec!["aa11".to_string(), "bb22".to_string()]);
    assert!(none.is_empty());
}

#[test]
fn purged_ids_keep_failed_deletes() {
    let items = vec![
        ("a".to_string(), FileMetadata { logical_path: "/a".to_string(), encrypted_size: 1 }, 10i64),
        ("b".to_string(), FileMetadata { logical_path: "/b".to_string(), encrypted_size: 2 }, 11i64),
        ("c".to_string(), FileMetadata { logical_path: "/c".to_string(), encrypted_size: 3 }, 12i64),
    ];
    assert_eq!(purged_ids(&items, &vec![true, false, true]), vec!["a".to_string(), "c".to_string()]);
    assert!(purged_ids(&items, &vec![false, false, false]).is_empty());
}
