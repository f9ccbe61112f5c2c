use syncweb_core::catalog::{
    check_folder_name, import_entry, is_record_key, is_system_key, publish_entry, record_key, CatalogMetadata,
    CatalogRecord,
};
use syncweb_core::error::SyncwebError;

#[test]
fn catalog_metadata_needs_a_name() {
    let metadata = CatalogMetadata::new("Films", "publisher-1");
    assert!(metadata.validate().is_ok());
    assert!(metadata.description.is_none());
    match CatalogMetadata::new("   ", "publisher-1").validate() {
        Err(SyncwebError::InvalidConfig(m)) => assert_eq!(m, "catalog name cannot be empty"),
        other => panic!("unexpected {other:?}"),
    }
}

#[test]
fn records_take_their_title_from_the_key() {
    let record = CatalogRecord::new([1_u8; 32], "folder-ns", b"movies/big buck bunny.mkv", [2_u8; 32], 42);
    assert_eq!(record.title, "big buck bunny.mkv");
    assert_eq!(record.folder_name, "folder-ns");
    assert_eq!(record.catalog_namespace_id, [0_u8; 32]);
    assert_eq!(record.key, b"movies/big buck bunny.mkv".to_vec());
    assert_eq!(record.size, 42);
    assert!(record.tags.is_empty() && record.publisher.is_empty());
    assert!(record.validate().is_ok());

    let trailing = CatalogRecord::new([1_u8; 32], "ns", b"music/albums/", [2_u8; 32], 1);
    assert_eq!(trailing.title, "albums");
    let root = CatalogRecord::new([1_u8; 32], "ns", b"..", [2_u8; 32], 1);
    assert_eq!(root.title, "..");
    let lossy = CatalogRecord::new([1_u8; 32], "ns", &[b'a', 0xff, b'b'], [2_u8; 32], 1);
    assert_eq!(lossy.title, "a\u{FFFD}b");
}

#[test]
fn records_need_a_folder_name_and_a_title() {
    let mut record = CatalogRecord::new([1_u8; 32], "ns", b"a.txt", [2_u8; 32], 1);
    record.folder_name = " ".to_string();
    match record.validate() {
        Err(SyncwebError::InvalidConfig(m)) => assert_eq!(m, "catalog record folder name cannot be empty"),
        other => panic!("unexpected {other:?}"),
    }
    let blank_title = CatalogRecord::new([1_u8; 32], "ns", b"  ", [2_u8; 32], 1);
    match blank_title.validate() {
        Err(SyncwebError::InvalidConfig(m)) => assert_eq!(m, "catalog record title cannot be empty"),
        other => panic!("unexpected {other:?}"),
    }
}

#[test]
fn record_keys_name_the_folder_and_the_hex_entry_key() {
    let record = CatalogRecord::new([1_u8; 32], "ns", b"a.txt", [2_u8; 32], 1).in_catalog([3_u8; 32]);
    assert_eq!(record.catalog_namespace_id, [3_u8; 32]);
    let key = record_key(&record, "folderns");
    assert_eq!(key, format!("record/folderns/{}", hex::encode(b"a.txt")).into_bytes());
    assert!(is_record_key(&key));
    assert!(!is_system_key(&key));
    assert!(is_system_key(b"sys/syncweb/mode"));
    assert!(!is_record_key(b"recor"));
}

#[test]
fn publishing_skips_system_keys_and_fills_the_record() {
    let tags = vec!["film".to_string(), "cc".to_string()];
    assert!(publish_entry([3; 32], [1; 32], "ns", "My Folder", &tags, "me", b"sys/syncweb/mode", [2; 32], 5).is_none());
    let record = publish_entry([3; 32], [1; 32], "ns", "My Folder", &tags, "me", b"films/a.mkv", [2; 32], 5)
        .expect("ordinary keys publish");
    assert_eq!(record.catalog_namespace_id, [3; 32]);
    assert_eq!(record.folder_namespace_id, [1; 32]);
    assert_eq!(record.folder_name, "My Folder");
    assert_eq!(record.title, "a.mkv");
    assert_eq!(record.tags, tags);
    assert_eq!(record.publisher, "me");
    assert!(check_folder_name("My Folder").is_ok());
    match check_folder_name("  ") {
        Err(SyncwebError::InvalidConfig(m)) => assert_eq!(m, "catalog folder name cannot be empty"),
        other => panic!("unexpected {other:?}"),
    }
}

#[test]
fn importing_keeps_only_record_keys_and_sets_the_catalog() {
    let decoded = CatalogRecord::new([1_u8; 32], "ns", b"a.txt", [2_u8; 32], 1);
    assert!(import_entry([9; 32], b"sys/x", decoded.clone()).is_none());
    let imported = import_entry([9; 32], b"record/ns/612e747874", decoded).expect("record keys import");
    assert_eq!(imported.catalog_namespace_id, [9; 32]);
    assert_eq!(imported.title, "a.txt");
}
