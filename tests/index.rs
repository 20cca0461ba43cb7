use sha2::Digest;
use aether_drive::crypto::MasterKey;
use aether_drive::index::merkle::MerkleTree;
use aether_drive::index::store::{IndexError, IndexRow, IndexTables};
use aether_drive::index::{FileMetadata, InMemoryIndex};

fn meta(path: &str, size: u64) -> FileMetadata {
    FileMetadata { logical_path: path.to_string(), encrypted_size: size }
}

#[test]
fn test_merkle_tree_empty() {
    let entries = Vec::new();
    let tree = MerkleTree::build(&entries);
    let root = tree.root_hash();
    assert_eq!(root.len(), 32);
}

#[test]
fn test_merkle_tree_single_entry() {
    let mut entries = Vec::new();
    entries.push((
        "file-1".to_string(),
        FileMetadata { logical_path: "/test/file.txt".to_string(), encrypted_size: 1024 },
    ));

    let tree = MerkleTree::build(&entries);
    let root = tree.root_hash();
    assert_eq!(root.len(), 32);
}

#[test]
fn test_merkle_tree_multiple_entries() {
    let mut entries = Vec::new();
    entries.push(("file-1".to_string(), meta("/test/file1.txt", 1024)));
    entries.push(("file-2".to_string(), meta("/test/file2.txt", 2048)));
    entries.push(("file-3".to_string(), meta("/test/file3.txt", 4096)));

    let tree = MerkleTree::build(&entries);
    let root = tree.root_hash();
    assert_eq!(root.len(), 32);

    let tree2 = MerkleTree::build(&entries);
    assert_eq!(tree.root_hash(), tree2.root_hash());
}

#[test]
fn test_merkle_tree_verify() {
    let mut entries = Vec::new();
    entries.push(("file-1".to_string(), meta("/test/file.txt", 1024)));

    let tree = MerkleTree::build(&entries);
    let root_hash = *tree.root_hash();

    assert!(tree.verify(&root_hash));

    let mut wrong_hash = root_hash;
    wrong_hash[0] ^= 1;
    assert!(!tree.verify(&wrong_hash));
}

#[test]
fn test_merkle_tree_detects_changes() {
    let mut entries1 = Vec::new();
    entries1.push(("file-1".to_string(), meta("/test/file.txt", 1024)));

    let mut entries2 = Vec::new();
    entries2.push(("file-1".to_string(), meta("/test/file.txt", 2048)));

    let tree1 = MerkleTree::build(&entries1);
    let tree2 = MerkleTree::build(&entries2);

    assert_ne!(tree1.root_hash(), tree2.root_hash());
}

fn sha256(parts: &[&[u8]]) -> [u8; 32] {
    let mut h = sha2::Sha256::new();
    for p in parts {
        h.update(p);
    }
    h.finalize().into()
}

#[test]
fn merkle_root_matches_its_definition() {
    let empty = MerkleTree::build(&Vec::new());
    assert_eq!(empty.root_hash(), &sha256(&[b"aether-drive:merkle:empty"]));

    let leaf = |id: &str, path: &str, size: u64| {
        sha256(&[b"aether-drive:merkle:entry:", id.as_bytes(), b":", path.as_bytes(), b":", &size.to_le_bytes()])
    };
    let node = |l: &[u8; 32], r: &[u8; 32]| sha256(&[b"aether-drive:merkle:node:", l, r]);
    let single = MerkleTree::build(&vec![("f1".to_string(), meta("/a", 1024))]);
    assert_eq!(single.root_hash(), &leaf("f1", "/a", 1024));

    let mut leaves = vec![leaf("f1", "/a", 1024), leaf("f2", "/b", 2048), leaf("f3", "/c", 4096)];
    leaves.sort();
    let expected = node(&leaves[0], &node(&leaves[1], &leaves[2]));
    let tree = MerkleTree::build(&vec![
        ("f1".to_string(), meta("/a", 1024)),
        ("f2".to_string(), meta("/b", 2048)),
        ("f3".to_string(), meta("/c", 4096)),
    ]);
    assert_eq!(tree.root_hash(), &expected);
    assert_eq!(tree.entries().len(), 3);
}

#[test]
fn merkle_root_independent_of_insertion_order() {
    let mk = MasterKey::from_bytes([5u8; 32]);
    let mut a = IndexTables::open(&mk);
    a.upsert("f1".to_string(), meta("/a", 1024)).unwrap();
    a.upsert("f2".to_string(), meta("/b", 2048)).unwrap();
    a.upsert("f3".to_string(), meta("/c", 4096)).unwrap();
    let mut b = IndexTables::open(&mk);
    b.upsert("f3".to_string(), meta("/c", 4096)).unwrap();
    b.upsert("f2".to_string(), meta("/b", 2048)).unwrap();
    b.upsert("f1".to_string(), meta("/a", 1024)).unwrap();
    assert_eq!(a.get_merkle_root().unwrap(), b.get_merkle_root().unwrap());
    b.upsert("f2".to_string(), meta("/b", 2049)).unwrap();
    assert_ne!(a.get_merkle_root().unwrap(), b.get_merkle_root().unwrap());
}

#[test]
fn sqlcipher_index_roundtrip() {
    let master_key = MasterKey::from_bytes([42u8; 32]);

    let mut index = IndexTables::open(&master_key);
    let meta = FileMetadata { logical_path: "/test/file.txt".to_string(), encrypted_size: 1024 };
    index.upsert("file-1".to_string(), meta.clone()).unwrap();

    let retrieved = index.get(&"file-1".to_string()).unwrap();
    assert!(retrieved.is_some());
    let retrieved_meta = retrieved.unwrap();
    assert_eq!(retrieved_meta.logical_path, meta.logical_path);
    assert_eq!(retrieved_meta.encrypted_size, meta.encrypted_size);

    assert_eq!(index.len(), 1);
    assert!(!index.is_empty());

    index.remove(&"file-1".to_string()).unwrap();
    assert!(index.get(&"file-1".to_string()).unwrap().is_none());
    assert_eq!(index.len(), 0);
    assert!(index.is_empty());
}

#[test]
fn sqlcipher_index_persists_across_sessions() {
    let master_key = MasterKey::from_bytes([99u8; 32]);

    let (rows, trash, root) = {
        let mut index = IndexTables::open(&master_key);
        index
            .upsert(
                "persist-1".to_string(),
                FileMetadata { logical_path: "/persist/test.txt".to_string(), encrypted_size: 2048 },
            )
            .unwrap();
        (index.rows().clone(), index.trash_rows().clone(), index.get_merkle_root())
    };

    {
        let index = IndexTables::load(&master_key, rows, trash, root).unwrap();
        let retrieved = index.get(&"persist-1".to_string()).unwrap();
        assert!(retrieved.is_some());
        assert_eq!(retrieved.unwrap().logical_path, "/persist/test.txt");
    }
}

#[test]
fn sqlcipher_index_merkle_integrity() {
    let master_key = MasterKey::from_bytes([77u8; 32]);

    let mut index = IndexTables::open(&master_key);
    index.upsert("file-1".to_string(), meta("/test/file1.txt", 1024)).unwrap();
    index.upsert("file-2".to_string(), meta("/test/file2.txt", 2048)).unwrap();

    assert!(index.verify_integrity().unwrap());

    let root_hash = index.get_merkle_root();
    assert!(root_hash.is_some());
    assert_eq!(root_hash.unwrap().len(), 32);

    index.remove(&"file-1".to_string()).unwrap();
    index.upsert("file-1".to_string(), meta("/test/file1-modified.txt", 1024)).unwrap();

    assert!(index.verify_integrity().unwrap());
}

#[test]
fn fresh_index_verifies_and_has_no_root() {
    let index = IndexTables::open(&MasterKey::from_bytes([1u8; 32]));
    assert!(index.verify_integrity().unwrap());
    assert!(index.get_merkle_root().is_none());
    assert!(index.list_all().unwrap().is_empty());
}

#[test]
fn modified_logical_path_is_rejected() {
    let mk = MasterKey::from_bytes([3u8; 32]);
    let mut index = IndexTables::open(&mk);
    index.upsert("f1".to_string(), meta("/secret/plan.txt", 10)).unwrap();
    let mut rows = index.rows().clone();
    rows[0].logical_path = "/public/plan.txt".to_string();
    let tampered = IndexTables::load(&mk, rows, Vec::new(), index.get_merkle_root()).unwrap();
    assert_eq!(tampered.get(&"f1".to_string()).unwrap_err(), IndexError::Corrupt);
    assert_eq!(tampered.list_all().unwrap_err(), IndexError::Corrupt);
    assert_eq!(tampered.verify_integrity().unwrap_err(), IndexError::Corrupt);
}

#[test]
fn stale_root_fails_integrity() {
    let mk = MasterKey::from_bytes([3u8; 32]);
    let mut index = IndexTables::open(&mk);
    index.upsert("f1".to_string(), meta("/a", 1)).unwrap();
    let old_root = index.get_merkle_root();
    index.upsert("f2".to_string(), meta("/b", 2)).unwrap();
    let rows = index.rows().clone();
    let rolled_back = IndexTables::load(&mk, rows, Vec::new(), old_root).unwrap();
    assert!(!rolled_back.verify_integrity().unwrap());
    let no_root = IndexTables::load(&mk, index.rows().clone(), Vec::new(), None).unwrap();
    assert!(!no_root.verify_integrity().unwrap());
}

#[test]
fn duplicate_ids_on_load_are_corrupt() {
    let mk = MasterKey::from_bytes([3u8; 32]);
    let mut index = IndexTables::open(&mk);
    index.upsert("f1".to_string(), meta("/a", 1)).unwrap();
    let row: IndexRow = index.rows()[0].clone();
    let r = IndexTables::load(&mk, vec![row.clone(), row], Vec::new(), None);
    assert!(matches!(r, Err(IndexError::Corrupt)));
}

#[test]
fn row_mac_is_sha256_of_fields_and_key() {
    let mk = MasterKey::from_bytes([8u8; 32]);
    let mut index = IndexTables::open(&mk);
    let row = index.upsert("id".to_string(), meta("/p", 7)).unwrap();
    let hk = hkdf::Hkdf::<sha2::Sha256>::new(Some(&[]), &[8u8; 32]);
    let mut mac_key = [0u8; 32];
    hk.expand(b"aether-drive:index-hmac-key:v1", &mut mac_key).unwrap();
    assert_eq!(row.row_mac, sha256(&[b"id", b"/p", &7u64.to_le_bytes(), &mac_key]));
    assert_eq!(index.row_mac("id", "/p", 7), row.row_mac);
    let mut db_key = [0u8; 32];
    hk.expand(b"aether-drive:sqlcipher-key:v1", &mut db_key).unwrap();
    assert_eq!(index.db_key(), db_key);
}

#[test]
fn trash_moves_entries_out_of_the_root() {
    let mk = MasterKey::from_bytes([6u8; 32]);
    let mut index = IndexTables::open(&mk);
    index.upsert("f1".to_string(), meta("/a", 1)).unwrap();
    let root_one = index.get_merkle_root();
    index.upsert("f2".to_string(), meta("/b", 2)).unwrap();
    index.move_to_trash(&"f2".to_string(), 1_700_000_000).unwrap();
    assert_eq!(index.get_merkle_root(), root_one);
    assert!(index.get(&"f2".to_string()).unwrap().is_none());
    let trash = index.list_trash().unwrap();
    assert_eq!(trash.len(), 1);
    assert_eq!(trash[0].0, "f2");
    assert_eq!(trash[0].1.logical_path, "/b");
    assert_eq!(trash[0].2, 1_700_000_000);
    assert!(index.verify_integrity().unwrap());

    assert_eq!(index.move_to_trash(&"nope".to_string(), 0), Err(IndexError::NotFound));
    assert!(matches!(index.restore_from_trash(&"nope".to_string()), Err(IndexError::NotFound)));

    let restored = index.restore_from_trash(&"f2".to_string()).unwrap();
    assert_eq!(restored.logical_path, "/b");
    assert_eq!(index.len(), 2);
    assert!(index.list_trash().unwrap().is_empty());
    assert!(index.verify_integrity().unwrap());

    index.move_to_trash(&"f1".to_string(), 5).unwrap();
    index.move_to_trash(&"f2".to_string(), 6).unwrap();
    assert_eq!(index.empty_trash(), 2);
    assert!(index.is_empty());
    assert!(index.verify_integrity().unwrap());

    index.upsert("f3".to_string(), meta("/c", 3)).unwrap();
    index.move_to_trash(&"f3".to_string(), 7).unwrap();
    index.remove_from_trash(&"f3".to_string());
    assert!(index.list_trash().unwrap().is_empty());
}

#[test]
fn in_memory_index_operations() {
    let mut index = InMemoryIndex::new();
    assert!(index.is_empty());
    index.upsert("a".to_string(), meta("/a", 1));
    index.upsert("b".to_string(), meta("/b", 2));
    index.upsert("a".to_string(), meta("/a2", 3));
    assert_eq!(index.len(), 2);
    assert_eq!(index.get(&"a".to_string()).unwrap().logical_path, "/a2");
    assert_eq!(index.get(&"a".to_string()).unwrap().encrypted_size, 3);
    index.remove(&"a".to_string());
    assert!(index.get(&"a".to_string()).is_none());
    index.remove(&"zzz".to_string());
    assert_eq!(index.len(), 1);
    assert_eq!(index.entries().len(), 1);
}

#[test]
fn list_all_is_ordered_by_logical_path() {
    let mk = MasterKey::from_bytes([2u8; 32]);
    let mut index = IndexTables::open(&mk);
    index.upsert("z".to_string(), meta("/b/x", 1)).unwrap();
    index.upsert("y".to_string(), meta("/a", 2)).unwrap();
    index.upsert("x".to_string(), meta("/b", 3)).unwrap();
    index.upsert("w".to_string(), meta("/B", 4)).unwrap();
    let paths: Vec<String> = index.list_all().unwrap().into_iter().map(|(_, m)| m.logical_path).collect();
    assert_eq!(paths, vec!["/B", "/a", "/b", "/b/x"]);
}
