use syncweb_core::clock::epoch_seconds;
use syncweb_core::crypto::{ed25519_public_key, hex_encode};
use syncweb_core::denylist::DenylistRule;
use syncweb_core::error::SyncwebError;
use syncweb_core::indexing::ReportRecord;
use syncweb_core::parsing::config_error;
use syncweb_core::reputation::{ProviderReputation, ProviderTrustSignal, TrustSignalKind};
use syncweb_core::resilience::ProviderLease;
use syncweb_core::schedule::minute_of_day;
use syncweb_core::links::{MutablePointer, PrivateLink};
use syncweb_core::store::{
    pointers_of_rows, revoked_links_of_rows, LinkRow, RevokedRow,
    attestation_of_row, attestation_row, check_catalog_enabled, delegation_of_row, delegation_row,
    denylist_row, denylist_rule_of_row, entry_row, entry_title, lease_of_row, lease_row, metadata_of_row,
    metadata_row, moderation_record_of_row, moderation_row, report_of_row, report_row, reputation_of_row,
    reputation_row, schema_migration, search_plan, sequence_of_row, sequence_row, signal_of_row, signal_row,
    stale_cutoff, store_u64, stored_size, SchemaMigration, SearchPlan,
};
use syncweb_core::wot::{
    author_id, Attestation, AttestationKind, MetadataEntry, ModerationAction, ModerationRecord, ModerationScope,
    TrustDelegation,
};

fn key(seed: u8) -> [u8; 32] {
    ed25519_public_key(&[seed; 32])
}

#[test]
fn unsigned_values_saturate_in_signed_columns() {
    assert_eq!(store_u64(7), 7);
    assert_eq!(store_u64(u64::MAX), i64::MAX);
    assert_eq!(stored_size(5, "x").unwrap(), 5);
    match stored_size(u64::MAX, "indexed entry size is too large") {
        Err(SyncwebError::Operation { context, detail }) => {
            assert_eq!(context, "indexed entry size is too large");
            assert_eq!(detail, "out of range integral type conversion attempted");
        },
        other => panic!("unexpected {other:?}"),
    }
}

#[test]
fn entry_titles_are_file_names() {
    assert_eq!(entry_title("music/album/track.flac"), "track.flac");
    assert_eq!(entry_title("a/b/"), "b");
    assert_eq!(entry_title("a/."), "a");
    assert_eq!(entry_title("a/.."), "a/..");
    assert_eq!(entry_title("/"), "/");
    assert_eq!(entry_title(""), "");
    assert_eq!(entry_title(".hidden"), ".hidden");
}

#[test]
fn search_plans_follow_limit_and_query() {
    assert_eq!(search_plan("x", 0, "limit").unwrap(), SearchPlan::Nothing);
    assert_eq!(search_plan("  ", 3, "limit").unwrap(), SearchPlan::Recent { limit: 3 });
    assert_eq!(search_plan("song", 3, "limit").unwrap(), SearchPlan::FullText { limit: 3 });
}

#[test]
fn migrations_follow_the_stored_version() {
    assert_eq!(schema_migration(""), SchemaMigration::AddReportSignature);
    assert_eq!(schema_migration("1"), SchemaMigration::AddReportSignature);
    assert_eq!(schema_migration("2"), SchemaMigration::CreateRevokedLinks);
    assert_eq!(schema_migration("3"), SchemaMigration::Nothing);
}

#[test]
fn disabled_catalogs_refuse_records() {
    assert!(check_catalog_enabled(true, "ns").is_ok());
    match check_catalog_enabled(false, "ns") {
        Err(SyncwebError::InvalidConfig(m)) => assert_eq!(m, "catalog is not enabled: ns"),
        other => panic!("unexpected {other:?}"),
    }
}

#[test]
fn stale_cutoffs_saturate() {
    assert_eq!(stale_cutoff(100, 30), 70);
    assert_eq!(stale_cutoff(10, 30), 0);
    assert_eq!(stale_cutoff(u64::MAX, 0), i64::MIN);
}

#[test]
fn moderation_rows_read_back() {
    let m = ModerationRecord {
        content: [3; 32],
        moderator: "mod".into(),
        action: ModerationAction::Quarantine,
        scope: ModerationScope::Global,
        sequence: 9,
        created_at: 100,
        reason: "spam".into(),
        signature: Some("sig".into()),
    };
    let row = moderation_row(&m);
    assert_eq!(row.action, "Quarantine");
    let back = moderation_record_of_row(row, ModerationScope::Global).unwrap();
    assert_eq!(back.action, ModerationAction::Quarantine);
    assert_eq!((back.content, back.sequence, back.created_at), ([3; 32], 9, 100));
    assert_eq!(back.signature.as_deref(), Some("sig"));
}

#[test]
fn attestation_rows_read_back() {
    let a = Attestation {
        content: [1; 32],
        issuer: "i".into(),
        kind: AttestationKind::Other("remix".into()),
        value: "v".into(),
        sequence: 2,
        issued_at: 3,
        signature: None,
    };
    let row = attestation_row(&a);
    assert_eq!(row.kind, "other");
    let back = attestation_of_row(row).unwrap();
    assert!(matches!(back.kind, AttestationKind::Other(ref t) if t == "remix"));
}

#[test]
fn denylist_rows_read_back() {
    for rule in [
        DenylistRule::Device("dev-1".into()),
        DenylistRule::Hash([2; 32]),
        DenylistRule::File { namespace_id: Some([4; 32]), key: b"a.txt".to_vec() },
    ] {
        let row = denylist_row(&rule);
        let back = denylist_rule_of_row(&row).unwrap();
        assert_eq!(format!("{back:?}"), format!("{rule:?}"));
    }
}

#[test]
fn metadata_rows_need_signatures() {
    let mut m = MetadataEntry::unsigned([5; 32], "title", "Song", 1, 10, &key(1)).unwrap();
    match metadata_row(&m) {
        Err(SyncwebError::InvalidConfig(t)) => assert_eq!(t, "Web-of-Trust metadata must be signed"),
        other => panic!("unexpected {other:?}"),
    }
    m.signature = Some("sig".into());
    let back = metadata_of_row(metadata_row(&m).unwrap()).unwrap();
    assert_eq!((back.key.as_str(), back.sequence, back.created_at), ("title", 1, 10));
    assert_eq!(back.author, author_id(&key(1)));
}

#[test]
fn entry_rows_hold_key_text_and_title() {
    let row = entry_row(b"docs/readme.md", &[7; 32], 42).unwrap();
    assert_eq!((row.key_text.as_str(), row.title.as_str(), row.size), ("docs/readme.md", "readme.md", 42));
    assert!(entry_row(b"k", &[7; 32], u64::MAX).is_err());
}

#[test]
fn key_rows_read_back() {
    let s = ProviderTrustSignal {
        provider: key(2),
        signal: TrustSignalKind::ObservedCorruption,
        hash: Some([9; 32]),
        reporter: key(1),
        timestamp: 50,
        sequence: 4,
        signature: None,
    };
    let row = signal_row(&s);
    assert_eq!(row.reporter, hex_encode(&key(1)));
    let back = signal_of_row(row).unwrap();
    assert_eq!((back.provider, back.reporter, back.hash), (key(2), key(1), Some([9; 32])));

    let l = ProviderLease {
        hash: [8; 32],
        provider: key(3),
        ticket: "t".into(),
        sequence: 1,
        issued_at: 2,
        expires_at: 3,
        signature: None,
    };
    let back = lease_of_row(lease_row(&l)).unwrap();
    assert_eq!((back.provider, back.expires_at), (key(3), 3));

    let mut rep = ProviderReputation::new(key(4));
    rep.record_failure(syncweb_core::resilience::FetchFailureKind::Timeout, 20);
    let (back, until, count) = reputation_of_row(&reputation_row(&rep, Some(99), 2)).unwrap();
    assert_eq!((back.failed_fetches, back.last_failure_at, until, count), (1, Some(20), Some(99), 2));

    let (r, p, n) = sequence_of_row(&sequence_row(&key(1), &key(2), 7)).unwrap();
    assert_eq!((r, p, n), (key(1), key(2), 7));
}

#[test]
fn reports_and_delegations_read_back() {
    let r = ReportRecord::new([6; 32], "bad".into(), 5);
    let back = report_of_row(report_row(&r)).unwrap();
    assert_eq!(back.reporter.as_deref(), Some("cli"));
    let d = TrustDelegation {
        delegator: "a".into(),
        delegate: "b".into(),
        scope: Some([1; 32]),
        sequence: 1,
        issued_at: 2,
        expires_at: 3,
        signature: None,
    };
    let back = delegation_of_row(delegation_row(&d));
    assert_eq!((back.scope, back.expires_at), (Some([1; 32]), 3));
}

#[test]
fn clock_readings_convert() {
    assert_eq!(minute_of_day(-5), 0);
    assert_eq!(minute_of_day(86_400 + 61), 1);
    assert_eq!(minute_of_day(86_399), 1439);
    assert_eq!(epoch_seconds(-1), 0);
    assert_eq!(epoch_seconds(12), 12);
}

#[test]
fn config_errors_join_message_and_subject() {
    match config_error("bad value: ", &['x', 'y']) {
        SyncwebError::InvalidConfig(m) => assert_eq!(m, "bad value: xy"),
        other => panic!("unexpected {other:?}"),
    }
}

fn stored_pointer(alias: &str, sequence: u64) -> MutablePointer {
    MutablePointer::new([3; 32], alias, [4; 32], sequence).expect("pointer should build")
}

#[test]
fn loading_links_keeps_mutable_rows_in_order() {
    let rows = vec![
        LinkRow { kind: "mutable".to_string(), pointer: Some(stored_pointer("a", 1)) },
        LinkRow { kind: "immutable".to_string(), pointer: Some(stored_pointer("b", 2)) },
        LinkRow { kind: "mutable".to_string(), pointer: None },
        LinkRow { kind: "mutable".to_string(), pointer: Some(stored_pointer("c", 3)) },
    ];
    let kept = pointers_of_rows(rows);
    assert_eq!(kept.len(), 2);
    assert_eq!(kept[0].alias, "a");
    assert_eq!(kept[0].sequence, 1);
    assert_eq!(kept[1].alias, "c");
    assert_eq!(kept[1].sequence, 3);
}

#[test]
fn loading_revoked_links_falls_back_to_a_zero_manifest() {
    let rows = vec![
        RevokedRow { manifest: vec![9; 32], capability: "tok".to_string() },
        RevokedRow { manifest: vec![9; 5], capability: "short".to_string() },
        RevokedRow { manifest: vec![9; 32], capability: "bad/cap".to_string() },
    ];
    let links = revoked_links_of_rows(&rows);
    assert_eq!(
        links,
        vec![
            PrivateLink::new([9; 32], "tok", u64::MAX).unwrap(),
            PrivateLink::new([0; 32], "short", u64::MAX).unwrap(),
        ]
    );
}
