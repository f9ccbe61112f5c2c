use syncweb_core::catalog::CatalogRecord;
use syncweb_core::denylist::{Denylist, DenylistRule, FilterContext, FilterList};
use syncweb_core::error::SyncwebError;

fn unsigned_list(list: &FilterList) -> Vec<u8> {
    format!("{:?}|{}|{}|{:?}|{}", list.namespace_id, list.sequence, list.publisher, list.entries, list.created_at)
        .into_bytes()
}

fn signed_list(namespace: [u8; 32], sequence: u64, entries: Vec<DenylistRule>, seed: u8) -> (FilterList, Vec<u8>) {
    let secret = [seed; 32];
    let mut list = FilterList::unsigned(namespace, sequence, entries, &secret, 1_700_000_000);
    let unsigned = unsigned_list(&list);
    list.sign(&secret, &unsigned).expect("publisher signs its own list");
    (list, unsigned)
}

#[test]
fn device_file_and_hash_rules_block_fetches() {
    let namespace = [1_u8; 32];
    let hash = [2_u8; 32];
    let mut denylist = Denylist::new();
    denylist.block_device("device-a");
    denylist.block_folder_file(namespace, b"private.txt");
    denylist.block_hash(hash);

    assert!(denylist.check_fetch(&FilterContext::new([3_u8; 32]).with_device("device-a")).is_err());
    assert!(denylist.check_fetch(&FilterContext::for_file(namespace, b"private.txt", [3_u8; 32])).is_err());
    assert!(denylist.check_fetch(&FilterContext::new(hash)).is_err());
}

#[test]
fn federated_filter_lists_are_signed_and_monotonic() {
    let namespace = [4_u8; 32];
    let (list, unsigned) = signed_list(namespace, 1, vec![DenylistRule::hash([5_u8; 32])], 1);
    let mut denylist = Denylist::new();
    assert!(denylist.subscribe_filter_list(&list, &unsigned).expect("signed list applies"));
    assert!(!denylist.subscribe_filter_list(&list, &unsigned).expect("repeated list is accepted"));
    assert!(denylist.is_hash_blocked(&[5_u8; 32]));
}

#[test]
fn clear_context_passes_and_messages_name_the_rule() {
    let mut denylist = Denylist::new();
    denylist.block_device("device-a");
    denylist.block_hash([9_u8; 32]);
    assert!(denylist.check_fetch(&FilterContext::new([1_u8; 32]).with_device("device-b")).is_ok());
    match denylist.check_fetch(&FilterContext::new([1_u8; 32]).with_device("device-a")) {
        Err(SyncwebError::InvalidConfig(m)) => assert_eq!(m, "device is denylisted: device-a"),
        other => panic!("unexpected {other:?}"),
    }
    match denylist.check_fetch(&FilterContext::new([9_u8; 32])) {
        Err(SyncwebError::InvalidConfig(m)) => {
            assert_eq!(m, format!("content hash is denylisted: {}", hex::encode([9_u8; 32])));
        },
        other => panic!("unexpected {other:?}"),
    }
}

#[test]
fn global_file_rule_applies_in_every_folder() {
    let mut denylist = Denylist::new();
    denylist.block_file(b"secret.txt");
    assert!(denylist.is_file_blocked(Some([7_u8; 32]), b"secret.txt"));
    assert!(denylist.is_file_blocked(None, b"secret.txt"));
    match denylist.check_fetch(&FilterContext::for_file([7_u8; 32], b"secret.txt", [0_u8; 32])) {
        Err(SyncwebError::InvalidConfig(m)) => assert_eq!(m, "file is denylisted: secret.txt"),
        other => panic!("unexpected {other:?}"),
    }
    assert!(!denylist.is_file_blocked(Some([7_u8; 32]), b"other.txt"));
}

#[test]
fn folder_file_rule_is_scoped_to_its_folder() {
    let mut denylist = Denylist::new();
    denylist.block_folder_file([1_u8; 32], b"a.txt");
    assert!(denylist.is_file_blocked(Some([1_u8; 32]), b"a.txt"));
    assert!(!denylist.is_file_blocked(Some([2_u8; 32]), b"a.txt"));
    assert!(!denylist.is_file_blocked(None, b"a.txt"));
}

#[test]
fn unblocking_removes_rules_and_reports_whether_they_existed() {
    let mut denylist = Denylist::new();
    denylist.block_device("device-a");
    denylist.block_hash([3_u8; 32]);
    assert!(denylist.unblock_device("device-a"));
    assert!(!denylist.unblock_device("device-a"));
    assert!(!denylist.is_device_blocked("device-a"));
    assert!(denylist.unblock_hash(&[3_u8; 32]));
    assert!(!denylist.is_hash_blocked(&[3_u8; 32]));
    assert!(denylist.check_fetch(&FilterContext::new([3_u8; 32])).is_ok());
}

#[test]
fn discovery_checks_the_records_file_and_hash() {
    let mut denylist = Denylist::new();
    let record = CatalogRecord::new([1_u8; 32], "folder", b"docs/a.txt", [2_u8; 32], 10);
    assert!(denylist.check_discovery(&record).is_ok());
    denylist.block_hash([2_u8; 32]);
    assert!(denylist.check_discovery(&record).is_err());
    denylist.unblock_hash(&[2_u8; 32]);
    denylist.block_folder_file([1_u8; 32], b"docs/a.txt");
    match denylist.check_discovery(&record) {
        Err(SyncwebError::InvalidConfig(m)) => assert_eq!(m, "file is denylisted: docs/a.txt"),
        other => panic!("unexpected {other:?}"),
    }
}

#[test]
fn tampered_or_older_filter_lists_change_nothing() {
    let namespace = [4_u8; 32];
    let (newer, newer_unsigned) = signed_list(namespace, 2, vec![DenylistRule::device("device-x")], 1);
    let (older, older_unsigned) = signed_list(namespace, 1, vec![DenylistRule::hash([6_u8; 32])], 1);
    let mut denylist = Denylist::new();
    assert!(denylist.sync_filter_list(&newer, b"tampered").is_err());
    assert!(!denylist.is_device_blocked("device-x"));
    assert!(denylist.sync_filter_list(&newer, &newer_unsigned).expect("newer applies"));
    assert_eq!(denylist.federated_sequence(&namespace), Some(2));
    assert!(!denylist.sync_filter_list(&older, &older_unsigned).expect("older is ignored"));
    assert!(!denylist.is_hash_blocked(&[6_u8; 32]));
    assert!(denylist.is_device_blocked("device-x"));
    assert_eq!(denylist.federated_sequence(&namespace), Some(2));
}

#[test]
fn filter_list_fields_are_validated() {
    let (mut list, unsigned) = signed_list([4_u8; 32], 1, Vec::new(), 1);
    list.sequence = 0;
    assert!(matches!(list.validate(), Err(SyncwebError::InvalidConfig(_))));
    assert!(list.verify_signature(&unsigned).is_err());
    let mut other = FilterList::unsigned([4_u8; 32], 1, Vec::new(), &[1_u8; 32], 0);
    assert!(matches!(other.sign(&[2_u8; 32], b"x"), Err(SyncwebError::InvalidIdentity(_))));
    assert!(other.signature.is_none());
}
