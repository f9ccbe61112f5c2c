use syncweb_core::crypto::ed25519_public_key;
use syncweb_core::error::SyncwebError;
use syncweb_core::indexing::{
    check_folder_enabled, folder_event_step, indexed_event, CoreIndexingEvent, FolderEvent, FolderStep, IndexedEntry,
    IndexingEvent, ReportRecord,
};

#[test]
fn inserted_entries_are_indexed_and_other_events_pass_on() {
    let ns = [1_u8; 32];
    match folder_event_step(ns, FolderEvent::Inserted { key: b"a.txt".to_vec(), hash: [2; 32], len: 7 }) {
        FolderStep::Index { key, hash, len } => assert_eq!((key, hash, len), (b"a.txt".to_vec(), [2; 32], 7)),
        other => panic!("unexpected {other:?}"),
    }
    match folder_event_step(ns, FolderEvent::ContentReady { hash: [3; 32] }) {
        FolderStep::Emit(IndexingEvent::Core { namespace_id, event: CoreIndexingEvent::ContentReady { hash } }) => {
            assert_eq!((namespace_id, hash), (ns, [3; 32]));
        },
        other => panic!("unexpected {other:?}"),
    }
    assert!(matches!(
        folder_event_step(ns, FolderEvent::SyncFinished),
        FolderStep::Emit(IndexingEvent::Core { event: CoreIndexingEvent::SyncFinished, .. })
    ));
    match folder_event_step(ns, FolderEvent::StreamFailed("closed".into())) {
        FolderStep::Stop(IndexingEvent::Error { namespace_id, message }) => {
            assert_eq!(namespace_id, ns);
            assert_eq!(message, "closed");
        },
        other => panic!("unexpected {other:?}"),
    }
}

#[test]
fn indexing_outcomes_become_events() {
    let entry = IndexedEntry { namespace_id: [1; 32], key: b"k".to_vec(), hash: [2; 32], size: 3 };
    assert!(matches!(indexed_event([1; 32], Ok(entry)), IndexingEvent::EntryIndexed(e) if e.size == 3));
    match indexed_event([1; 32], Err(SyncwebError::FolderNotFound("ns".into()))) {
        IndexingEvent::Error { message, .. } => assert_eq!(message, "folder not found: ns"),
        other => panic!("unexpected {other:?}"),
    }
    assert!(check_folder_enabled(true, "ns").is_ok());
    assert!(matches!(check_folder_enabled(false, "ns"), Err(SyncwebError::FolderNotFound(m)) if m == "ns"));
}

#[test]
fn reports_are_signed_and_verified() {
    let secret = [4_u8; 32];
    let payload = b"[[9,9],\"spam\",5]";
    let unsigned = ReportRecord::new([9; 32], "spam".into(), 5);
    assert!(unsigned.verify_signature(payload).is_ok());
    assert!(matches!(
        unsigned.verify(&ed25519_public_key(&secret), payload),
        Err(SyncwebError::MissingSignature(m)) if m == "report has no signature"
    ));
    let signed = ReportRecord::new([9; 32], "spam".into(), 5).sign_with(&secret, payload);
    assert_eq!(signed.reporter, Some(hex::encode(ed25519_public_key(&secret))));
    assert!(signed.verify_signature(payload).is_ok());
    assert!(signed.verify(&ed25519_public_key(&secret), payload).is_ok());
    assert!(matches!(signed.verify_signature(b"other"), Err(SyncwebError::InvalidSignature(_))));
    let mut short = ReportRecord::new([9; 32], "spam".into(), 5).sign_with(&secret, payload);
    short.signature = Some("abcd".into());
    match short.verify(&ed25519_public_key(&secret), payload) {
        Err(SyncwebError::InvalidSignature(m)) => assert_eq!(m, "report signature has wrong length (expected 64, got 2)"),
        other => panic!("unexpected {other:?}"),
    }
    short.signature = Some("zz".into());
    assert!(matches!(
        short.verify(&ed25519_public_key(&secret), payload),
        Err(SyncwebError::Operation { context, .. }) if context == "report signature hex decode"
    ));
}
