use syncweb_core::crypto::ed25519_public_key;
use syncweb_core::denylist::DenylistRule;
use syncweb_core::error::SyncwebError;
use syncweb_core::reputation::TrustSignalKind;
use syncweb_core::rows::{
    catalog_record_from_row, indexed_entry_from_row, stored_unsigned, wot_metadata_from_row, ColumnError,
    attestation_from_row, denylist_rule_from_row, moderation_action_from_name, moderation_record_from_row,
    revoked_link_from_row, stored_hash, stored_optional_hash, stored_u64, trust_signal_from_row,
};
use syncweb_core::wot::{AttestationKind, ModerationAction, ModerationScope};

#[test]
fn stored_integers_read_negative_values_as_zero() {
    assert_eq!(stored_u64(-5), 0);
    assert_eq!(stored_u64(0), 0);
    assert_eq!(stored_u64(i64::MAX), i64::MAX as u64);
}

#[test]
fn stored_hashes_must_be_32_bytes() {
    assert_eq!(stored_hash(&[7; 32]).unwrap(), [7; 32]);
    match stored_hash(&[7; 31]) {
        Err(SyncwebError::Operation { context, detail }) => {
            assert_eq!(context, "invalid hash length");
            assert_eq!(detail, "expected 32 bytes, got 31");
        },
        other => panic!("unexpected {other:?}"),
    }
    assert_eq!(stored_optional_hash(Some(&[1; 32])), Some([1; 32]));
    assert_eq!(stored_optional_hash(Some(&[1; 3])), None);
    assert_eq!(stored_optional_hash(None), None);
}

#[test]
fn moderation_rows_decode_action_names() {
    assert_eq!(moderation_action_from_name("Quarantine").unwrap(), ModerationAction::Quarantine);
    match moderation_action_from_name("Delete") {
        Err(SyncwebError::Operation { context, detail }) => {
            assert_eq!(context, "unknown moderation action");
            assert_eq!(detail, "Delete");
        },
        other => panic!("unexpected {other:?}"),
    }
    let r = moderation_record_from_row(&[3; 32], "m".into(), "Hide", ModerationScope::Global, 4, -1, "why".into(), None)
        .expect("valid row");
    assert_eq!(r.action, ModerationAction::Hide);
    assert_eq!((r.sequence, r.created_at), (4, 0));
    let bad_hash = moderation_record_from_row(&[3; 2], "m".into(), "Nope", ModerationScope::Global, 1, 1, "w".into(), None);
    assert!(matches!(bad_hash, Err(SyncwebError::Operation { context, .. }) if context == "invalid hash length"));
}

#[test]
fn attestation_rows_decode_kinds() {
    let a = attestation_from_row(&[1; 32], "i".into(), "other", None, "v".into(), 2, 3, None).expect("valid row");
    assert!(matches!(a.kind, AttestationKind::Other(ref t) if t.is_empty()));
    let b = attestation_from_row(&[1; 32], "i".into(), "other", Some("x".into()), "v".into(), 2, 3, None).unwrap();
    assert!(matches!(b.kind, AttestationKind::Other(ref t) if t == "x"));
    let c = attestation_from_row(&[1; 32], "i".into(), "license", None, "v".into(), 2, 3, None).unwrap();
    assert!(matches!(c.kind, AttestationKind::License));
    assert!(attestation_from_row(&[1; 32], "i".into(), "opinion", None, "v".into(), 2, 3, None).is_err());
}

#[test]
fn denylist_rows_decode_each_rule_type() {
    assert!(matches!(denylist_rule_from_row("device", b"dev-1", None).unwrap(), DenylistRule::Device(d) if d == "dev-1"));
    assert!(matches!(denylist_rule_from_row("hash", &[2; 32], None).unwrap(), DenylistRule::Hash(h) if h == [2; 32]));
    assert!(denylist_rule_from_row("hash", &[2; 5], None).is_err());
    match denylist_rule_from_row("file", b"a.txt", Some([4; 32])).unwrap() {
        DenylistRule::File { namespace_id, key } => {
            assert_eq!(namespace_id, Some([4; 32]));
            assert_eq!(key, b"a.txt".to_vec());
        },
        other => panic!("unexpected {other:?}"),
    }
    match denylist_rule_from_row("folder", b"x", None) {
        Err(SyncwebError::Operation { context, detail }) => {
            assert_eq!(context, "unknown rule type");
            assert_eq!(detail, "folder");
        },
        other => panic!("unexpected {other:?}"),
    }
}

#[test]
fn trust_signal_rows_parse_keys_then_kind() {
    let reporter = hex::encode(ed25519_public_key(&[1; 32]));
    let provider = hex::encode(ed25519_public_key(&[2; 32]));
    let s = trust_signal_from_row(&reporter, &provider, "ObservedCorruption", Some(&[5; 32]), 3, -2, None)
        .expect("valid row");
    assert_eq!(s.signal, TrustSignalKind::ObservedCorruption);
    assert_eq!(s.hash, Some([5; 32]));
    assert_eq!((s.sequence, s.timestamp), (3, 0));
    assert_eq!(s.reporter, ed25519_public_key(&[1; 32]));
    let bad_reporter = trust_signal_from_row("nope", &provider, "Odd", None, 1, 1, None);
    assert!(matches!(bad_reporter, Err(SyncwebError::Operation { context, .. }) if context == "invalid reporter"));
    let bad_provider = trust_signal_from_row(&reporter, "nope", "Odd", None, 1, 1, None);
    assert!(matches!(bad_provider, Err(SyncwebError::Operation { context, .. }) if context == "invalid provider"));
    let bad_kind = trust_signal_from_row(&reporter, &provider, "Odd", None, 1, 1, None);
    assert!(matches!(bad_kind, Err(SyncwebError::Operation { context, .. }) if context == "unknown signal kind"));
}

#[test]
fn revoked_link_rows_never_expire() {
    let link = revoked_link_from_row(&[6; 32], "capability-123456").expect("valid capability");
    assert_eq!(link.manifest, [6; 32]);
    assert_eq!(link.expires_at, u64::MAX);
    let short = revoked_link_from_row(&[6; 3], "capability-123456").expect("valid capability");
    assert_eq!(short.manifest, [0; 32]);
    assert!(revoked_link_from_row(&[6; 32], "").is_none());
}

#[test]
fn stored_rows_report_the_failing_column() {
    assert_eq!(stored_unsigned(5, 3), Ok(5));
    assert_eq!(stored_unsigned(-1, 3), Err(ColumnError { column: 3 }));
    let e = indexed_entry_from_row(Some([1; 32]), b"k".to_vec(), &[2; 32], 9).expect("valid row");
    assert_eq!((e.namespace_id, e.hash, e.size), ([1; 32], [2; 32], 9));
    assert_eq!(indexed_entry_from_row(None, vec![], &[2; 32], 9).unwrap_err(), ColumnError { column: 0 });
    assert_eq!(indexed_entry_from_row(Some([1; 32]), vec![], &[2; 3], 9).unwrap_err(), ColumnError { column: 2 });
    assert_eq!(indexed_entry_from_row(Some([1; 32]), vec![], &[2; 32], -9).unwrap_err(), ColumnError { column: 3 });

    let m = wot_metadata_from_row(&[3; 32], "k".into(), "v".into(), "a".into(), 2, 3, None).expect("valid row");
    assert_eq!((m.sequence, m.created_at), (2, 3));
    assert_eq!(wot_metadata_from_row(&[3; 32], "k".into(), "v".into(), "a".into(), -2, 3, None).unwrap_err().column, 4);
    assert_eq!(wot_metadata_from_row(&[3; 32], "k".into(), "v".into(), "a".into(), 2, -3, None).unwrap_err().column, 5);

    let tags = Some(vec!["t".to_string()]);
    let c = catalog_record_from_row(Some([1; 32]), Some([2; 32]), b"k".to_vec(), &[3; 32], 4, "f".into(), "t".into(), tags.clone(), "p".into())
        .expect("valid row");
    assert_eq!((c.catalog_namespace_id, c.folder_namespace_id, c.size), ([1; 32], [2; 32], 4));
    assert_eq!(c.tags, vec!["t".to_string()]);
    let bad = catalog_record_from_row(Some([1; 32]), None, vec![], &[3; 32], 4, "f".into(), "t".into(), tags.clone(), "p".into());
    assert_eq!(bad.unwrap_err().column, 1);
    let bad = catalog_record_from_row(Some([1; 32]), Some([2; 32]), vec![], &[3; 32], 4, "f".into(), "t".into(), None, "p".into());
    assert_eq!(bad.unwrap_err().column, 7);
}
