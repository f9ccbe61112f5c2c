use syncweb_core::error::SyncwebError;
use syncweb_core::snapshot::{
    path_sorts_before, snapshot_content_pin, snapshot_manifest_pin, sort_entries, validate_path, Snapshot,
    SnapshotEntry, SCHEMA_VERSION,
};

fn entry(path: &str, seed: u8, size: u64) -> SnapshotEntry {
    SnapshotEntry::new(path, [seed; 32], size).expect("safe path")
}

fn encoding(entries: &[SnapshotEntry]) -> Vec<u8> {
    format!("{:?}", entries).into_bytes()
}

#[test]
fn snapshot_paths_must_be_safe_and_relative() {
    assert!(validate_path("a/b.txt").is_ok());
    assert!(validate_path("./a").is_ok());
    assert!(validate_path("a/./b").is_ok());
    assert!(validate_path("a..b/c").is_ok());
    for bad in ["", "/etc/passwd", "../x", "a/../b", "a/..", "./.."] {
        match validate_path(bad) {
            Err(SyncwebError::InvalidConfig(m)) => {
                assert_eq!(m, format!("snapshot path must be a non-empty relative path: {bad}"));
            },
            other => panic!("unexpected {other:?} for {bad:?}"),
        }
    }
    assert!(SnapshotEntry::new("../up", [0; 32], 1).is_err());
}

#[test]
fn assembled_snapshots_validate() {
    let entries = vec![entry("a.txt", 1, 10), entry("dir/b.txt", 2, 32)];
    let encoded = encoding(&entries);
    let snapshot = Snapshot::from_sorted(Some([5; 32]), entries, Some("nightly".into()), &encoded, 77);
    assert_eq!(snapshot.schema_version, SCHEMA_VERSION);
    assert_eq!(snapshot.total_size, 42);
    assert_eq!(snapshot.file_count, 2);
    assert_eq!(snapshot.root_hash, *blake3::hash(&encoded).as_bytes());
    assert_eq!(snapshot.id, snapshot.root_hash);
    assert!(snapshot.validate(&encoded).is_ok());
    match snapshot.validate(b"other encoding") {
        Err(SyncwebError::InvalidConfig(m)) => assert_eq!(m, "snapshot content root is incorrect"),
        other => panic!("unexpected {other:?}"),
    }
}

#[test]
fn inconsistent_manifests_are_rejected_with_their_reason() {
    let entries = vec![entry("a.txt", 1, 10), entry("b.txt", 2, 5)];
    let encoded = encoding(&entries);
    let mut s = Snapshot::from_sorted(None, entries, None, &encoded, 0);
    s.file_count = 3;
    assert!(matches!(s.validate(&encoded), Err(SyncwebError::InvalidConfig(m)) if m == "snapshot file count is incorrect"));
    s.file_count = 2;
    s.total_size = 1;
    assert!(matches!(s.validate(&encoded), Err(SyncwebError::InvalidConfig(m)) if m == "snapshot total size is incorrect"));
    s.total_size = 15;
    s.schema_version = 2;
    assert!(matches!(s.validate(&encoded), Err(SyncwebError::InvalidConfig(m)) if m == "unsupported snapshot schema version 2"));
}

#[test]
fn duplicate_paths_compare_by_component() {
    let entries = vec![entry("dir/a", 1, 1), entry("dir//a", 2, 1)];
    let encoded = encoding(&entries);
    let s = Snapshot::from_sorted(None, entries, None, &encoded, 0);
    match s.validate(&encoded) {
        Err(SyncwebError::InvalidConfig(m)) => assert_eq!(m, "duplicate snapshot path dir//a"),
        other => panic!("unexpected {other:?}"),
    }
    let distinct = vec![entry("a", 1, 1), entry("./a", 2, 1)];
    let encoded = encoding(&distinct);
    let s = Snapshot::from_sorted(None, distinct, None, &encoded, 0);
    assert!(s.validate(&encoded).is_ok());
}

#[test]
fn snapshot_pins_name_the_snapshot_and_blob() {
    let id = [0xab; 32];
    let hash = [0x01; 32];
    assert_eq!(snapshot_manifest_pin(&id), format!("syncweb/snapshot/{}/manifest", hex::encode(id)));
    assert_eq!(
        snapshot_content_pin(&id, &hash),
        format!("syncweb/snapshot/{}/blob/{}", hex::encode(id), hex::encode(hash))
    );
}

#[test]
fn paths_sort_by_component() {
    assert!(path_sorts_before("a/b", "a-b"));
    assert!(!path_sorts_before("a-b", "a/b"));
    assert!(path_sorts_before("./x", "a"));
    assert!(path_sorts_before("a", "a/b"));
    assert!(!path_sorts_before("dir/a", "dir//a"));
    assert!(!path_sorts_before("dir//a", "dir/a"));
    let sorted = sort_entries(&[entry("b", 1, 1), entry("a-b", 2, 1), entry("a/b", 3, 1), entry("a", 4, 1)]);
    let paths: Vec<&str> = sorted.iter().map(|e| e.path.as_str()).collect();
    assert_eq!(paths, vec!["a", "a/b", "a-b", "b"]);
    let mut std_sorted = vec!["b", "a-b", "a/b", "a"];
    std_sorted.sort_by(|x, y| std::path::Path::new(x).cmp(std::path::Path::new(y)));
    assert_eq!(paths, std_sorted);
}

#[test]
fn diffs_report_added_removed_and_modified_paths_in_order() {
    let old_entries = vec![entry("keep.txt", 1, 1), entry("gone.txt", 2, 2), entry("edit.txt", 3, 3)];
    let new_entries = vec![entry("new/b.txt", 4, 4), entry("edit.txt", 5, 3), entry("keep.txt", 1, 1), entry("new/a.txt", 6, 1)];
    let old_enc = encoding(&old_entries);
    let new_enc = encoding(&new_entries);
    let old = Snapshot::from_sorted(None, old_entries, None, &old_enc, 0);
    let new = Snapshot::from_sorted(None, new_entries, None, &new_enc, 0);
    let d = old.diff(&new, &old_enc, &new_enc).expect("both snapshots are valid");
    let added: Vec<&str> = d.added.iter().map(|e| e.path.as_str()).collect();
    assert_eq!(added, vec!["new/a.txt", "new/b.txt"]);
    let removed: Vec<&str> = d.removed.iter().map(|e| e.path.as_str()).collect();
    assert_eq!(removed, vec!["gone.txt"]);
    assert_eq!(d.modified.len(), 1);
    assert_eq!(d.modified[0].0.hash, [3; 32]);
    assert_eq!(d.modified[0].1.hash, [5; 32]);
    assert!(old.diff(&new, b"wrong", &new_enc).is_err());
}
