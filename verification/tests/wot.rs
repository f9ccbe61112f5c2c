use syncweb_core::crypto::ed25519_public_key;
use syncweb_core::error::SyncwebError;
use syncweb_core::wot::{
    author_id, moderation_decision, Attestation, AttestationKind, MetadataEntry, ModerationAction,
    ModerationContext, ModerationRecord, ModerationScope, RevocationRecord, SignedSignal, TrustDecision,
    TrustDelegation, TrustPolicy, WotService,
};

fn public(seed: u8) -> [u8; 32] {
    ed25519_public_key(&[seed; 32])
}

fn author(seed: u8) -> String {
    author_id(&public(seed))
}

fn delegation(from: u8, to: u8, scope: Option<[u8; 32]>, sequence: u64) -> (TrustDelegation, Vec<u8>) {
    let mut d = TrustDelegation::unsigned(&public(to), scope, sequence, 1_000, 2_000, &[from; 32]);
    let unsigned = format!("{}|{}|{:?}|{}", d.delegator, d.delegate, d.scope, d.sequence).into_bytes();
    d.sign(&[from; 32], &unsigned).expect("delegator signs");
    (d, unsigned)
}

#[test]
fn roots_are_trusted_and_revocation_wins() {
    let mut policy = TrustPolicy::with_root(&[1; 32]);
    assert_eq!(policy.evaluate_at(&author(1), 1_500), TrustDecision::TrustedRoot);
    assert_eq!(policy.evaluate_at(&author(2), 1_500), TrustDecision::Untrusted);
    policy.revoke_author(&public(1));
    assert_eq!(policy.evaluate_at(&author(1), 1_500), TrustDecision::Revoked);
    assert!(!TrustDecision::Revoked.is_trusted());
    policy.trust_author(&public(1));
    assert!(policy.evaluate_at(&author(1), 1_500).is_trusted());
}

#[test]
fn delegations_extend_trust_while_active_and_in_scope() {
    let mut policy = TrustPolicy::with_root(&[1; 32]);
    let (d, unsigned) = delegation(1, 2, None, 1);
    assert!(policy.add_delegation_at(d, &unsigned, 1_500).expect("root may delegate"));
    assert_eq!(policy.evaluate_at(&author(2), 1_500), TrustDecision::TrustedDelegation);
    assert_eq!(policy.evaluate_at(&author(2), 2_500), TrustDecision::Untrusted);

    let content = [7_u8; 32];
    let (scoped, scoped_unsigned) = delegation(2, 3, Some(content), 1);
    assert!(policy.add_delegation_at(scoped, &scoped_unsigned, 1_500).expect("delegate may delegate"));
    assert!(policy.is_trusted_for_at(&author(3), Some(&content), 1_500));
    assert!(!policy.is_trusted_for_at(&author(3), Some(&[8_u8; 32]), 1_500));
    assert!(!policy.is_trusted_for_at(&author(3), None, 1_500));
}

#[test]
fn delegations_from_untrusted_or_tampered_sources_are_refused() {
    let mut policy = TrustPolicy::with_root(&[1; 32]);
    let (d, _) = delegation(4, 5, None, 1);
    let unsigned = format!("{}|{}|{:?}|{}", d.delegator, d.delegate, d.scope, d.sequence).into_bytes();
    assert!(policy.add_delegation_at(d, &unsigned, 1_500).is_err());
    let (d2, _) = delegation(1, 5, None, 1);
    assert!(policy.add_delegation_at(d2, b"tampered", 1_500).is_err());
    assert_eq!(policy.evaluate_at(&author(5), 1_500), TrustDecision::Untrusted);
    let (again, again_unsigned) = delegation(1, 5, None, 2);
    assert!(policy.add_delegation_at(again, &again_unsigned, 1_500).unwrap());
    let (older, older_unsigned) = delegation(1, 5, None, 1);
    assert!(!policy.add_delegation_at(older, &older_unsigned, 1_500).unwrap());
}

fn record(seed: u8, action: ModerationAction, scope: ModerationScope, sequence: u64) -> ModerationRecord {
    ModerationRecord {
        content: [9; 32],
        moderator: author(seed),
        action,
        scope,
        sequence,
        created_at: 10,
        reason: "reason".to_string(),
        signature: None,
    }
}

#[test]
fn moderation_prefers_newer_then_more_specific_records() {
    let context = ModerationContext::new([9; 32]).in_network("net").for_file([1; 32], b"a.txt");
    assert_eq!(moderation_decision(&[], &context), ModerationAction::Show);
    let records = vec![
        record(1, ModerationAction::Hide, ModerationScope::Global, 1),
        record(1, ModerationAction::Warn, ModerationScope::Network("net".to_string()), 1),
    ];
    assert_eq!(moderation_decision(&records, &context), ModerationAction::Warn);
    let newer = vec![
        record(1, ModerationAction::Warn, ModerationScope::Network("net".to_string()), 1),
        record(1, ModerationAction::Quarantine, ModerationScope::Global, 2),
    ];
    assert_eq!(moderation_decision(&newer, &context), ModerationAction::Quarantine);
    assert!(!ModerationAction::Quarantine.is_visible());
    let elsewhere = vec![record(1, ModerationAction::Hide, ModerationScope::Network("other".to_string()), 5)];
    assert_eq!(moderation_decision(&elsewhere, &context), ModerationAction::Show);
}

#[test]
fn moderation_records_are_validated_and_signed() {
    let mut r = record(1, ModerationAction::Hide, ModerationScope::Global, 1);
    assert!(r.validate().is_ok());
    assert!(r.sign(&[1; 32], b"payload").is_ok());
    assert!(r.verify_signature(b"payload").is_ok());
    assert!(r.verify_signature(b"other").is_err());
    let mut empty = record(1, ModerationAction::Hide, ModerationScope::Network("  ".to_string()), 1);
    assert!(matches!(empty.validate(), Err(SyncwebError::InvalidConfig(_))));
    assert!(matches!(empty.sign(&[2; 32], b"payload"), Err(SyncwebError::InvalidIdentity(_))));
}

#[test]
fn attestations_and_signals_verify_their_issuer() {
    let mut a = Attestation {
        content: [3; 32],
        issuer: author(1),
        kind: AttestationKind::License,
        value: "CC-BY-4.0".to_string(),
        sequence: 1,
        issued_at: 5,
        signature: None,
    };
    assert!(a.sign(&[1; 32], b"attestation").is_ok());
    assert!(a.verify_signature(b"attestation").is_ok());
    let signal = SignedSignal::Attestation(a);
    assert!(signal.verify_signature(b"attestation").is_ok());
    assert!(signal.verify_signature(b"forged").is_err());
}

#[test]
fn metadata_and_revocations_check_their_fields() {
    let mut m = MetadataEntry::unsigned([3; 32], "title", "A film", 1, 5, &public(1)).expect("valid metadata");
    assert_eq!(m.author, author(1));
    assert!(m.sign(&[1; 32], b"meta").is_ok());
    assert!(m.verify_signature(b"meta").is_ok());
    assert!(matches!(
        MetadataEntry::unsigned([3; 32], " ", "v", 1, 5, &public(1)),
        Err(SyncwebError::InvalidConfig(_))
    ));
    assert!(matches!(
        MetadataEntry::unsigned([3; 32], "k", "v", 0, 5, &public(1)),
        Err(SyncwebError::InvalidConfig(_))
    ));

    let mut r = RevocationRecord::unsigned([3; 32], 1, "mistake", 9, &[2; 32]);
    assert_eq!(r.publisher, author(2));
    assert!(r.validate().is_ok());
    assert!(r.sign(&[2; 32], b"rev").is_ok());
    assert!(r.verify_signature(b"rev").is_ok());
    let blank = RevocationRecord::unsigned([3; 32], 1, "  ", 9, &[2; 32]);
    match blank.validate() {
        Err(SyncwebError::InvalidConfig(msg)) => assert_eq!(msg, "revocation reason cannot be empty"),
        other => panic!("unexpected {other:?}"),
    }
}

fn signed_moderation(seed: u8, action: ModerationAction, scope: ModerationScope, sequence: u64) -> ModerationRecord {
    let mut r = record(seed, action, scope, sequence);
    r.sign(&[seed; 32], b"moderation").expect("moderator signs");
    r
}

#[test]
fn service_holds_trusted_moderation_once_per_scope_and_sequence() {
    let mut service = WotService::new(TrustPolicy::with_root(&[1; 32]));
    let hide = signed_moderation(1, ModerationAction::Hide, ModerationScope::Global, 1);
    assert!(service.apply_moderation_at(hide, b"moderation", 10).unwrap());
    let again = signed_moderation(1, ModerationAction::Show, ModerationScope::Global, 1);
    assert!(!service.apply_moderation_at(again, b"moderation", 10).unwrap());
    let untrusted = signed_moderation(2, ModerationAction::Show, ModerationScope::Global, 5);
    match service.apply_moderation_at(untrusted, b"moderation", 10) {
        Err(SyncwebError::InvalidIdentity(m)) => assert_eq!(m, "moderator is not trusted for this content"),
        other => panic!("unexpected {other:?}"),
    }
    let warn = signed_moderation(1, ModerationAction::Warn, ModerationScope::Network("net".into()), 1);
    assert!(service.apply_moderation_at(warn, b"moderation", 10).unwrap());

    let best = service.moderation(&[9; 32]).expect("records are held");
    assert_eq!(best.action, ModerationAction::Warn);
    assert!(service.moderation(&[8; 32]).is_none());
    let context = ModerationContext::new([9; 32]);
    assert_eq!(service.moderation_decision(&context), ModerationAction::Hide);
    assert_eq!(service.evaluate_moderation(&context.in_network("net")), ModerationAction::Warn);
}

#[test]
fn service_revocations_and_global_hides_filter_metadata() {
    let mut service = WotService::new(TrustPolicy::with_root(&[1; 32]));
    let mut meta = MetadataEntry::unsigned([9; 32], "title", "x", 1, 5, &public(1)).unwrap();
    meta.sign(&[1; 32], b"meta").unwrap();
    assert!(service.check_metadata_at(&meta, b"meta", 10).is_ok());
    let mut other = MetadataEntry::unsigned([7; 32], "title", "y", 1, 5, &public(1)).unwrap();
    other.sign(&[1; 32], b"meta").unwrap();
    assert_eq!(service.visible_metadata(&[meta.duplicate(), other.duplicate()]).len(), 2);

    let hide = signed_moderation(1, ModerationAction::Hide, ModerationScope::Global, 1);
    service.apply_moderation_at(hide, b"moderation", 10).unwrap();
    assert!(service.is_globally_hidden(&[9; 32]));
    let visible = service.visible_metadata(&[meta.duplicate(), other.duplicate()]);
    assert_eq!(visible.len(), 1);
    assert_eq!(visible[0].content, [7; 32]);

    let mut revocation = RevocationRecord::unsigned([7; 32], 2, "retracted", 20, &[1; 32]);
    revocation.sign(&[1; 32], b"rev").unwrap();
    assert!(service.revoke_self(revocation, b"rev").unwrap());
    assert!(service.is_revoked(&[7; 32]));
    let mut older = RevocationRecord::unsigned([7; 32], 1, "earlier", 10, &[1; 32]);
    older.sign(&[1; 32], b"rev").unwrap();
    assert!(!service.revoke_self(older, b"rev").unwrap());
    assert!(service.visible_metadata(&[meta.duplicate(), other.duplicate()]).is_empty());
    match service.check_metadata_at(&other, b"meta", 10) {
        Err(SyncwebError::InvalidConfig(m)) => assert_eq!(m, "metadata cannot be appended to self-revoked content"),
        other => panic!("unexpected {other:?}"),
    }
    let mut stranger = MetadataEntry::unsigned([6; 32], "title", "z", 1, 5, &public(3)).unwrap();
    stranger.sign(&[3; 32], b"meta").unwrap();
    assert!(matches!(service.check_metadata_at(&stranger, b"meta", 10), Err(SyncwebError::InvalidIdentity(_))));
}

#[test]
fn service_attestations_are_kept_once() {
    let mut service = WotService::new(TrustPolicy::new());
    service.trust_author(&public(1));
    let make = || {
        let mut a = Attestation {
            content: [3; 32],
            issuer: author(1),
            kind: AttestationKind::Provenance,
            value: "camera".to_string(),
            sequence: 1,
            issued_at: 5,
            signature: None,
        };
        a.sign(&[1; 32], b"att").unwrap();
        a
    };
    assert!(service.verify_attestation(&make(), b"att").is_ok());
    assert!(service.append_attestation_at(make(), b"att", 10).unwrap());
    assert!(!service.append_attestation_at(make(), b"att", 10).unwrap());
    assert!(service.append_attestation_at(make(), b"forged", 10).is_err());
}

#[test]
fn service_lists_moderation_from_the_highest_rank_down() {
    let mut service = WotService::new(TrustPolicy::with_root(&[1; 32]));
    let records = vec![
        signed_moderation(1, ModerationAction::Hide, ModerationScope::Global, 1),
        signed_moderation(1, ModerationAction::Warn, ModerationScope::Folder([2; 32]), 1),
        signed_moderation(1, ModerationAction::Show, ModerationScope::Global, 3),
        signed_moderation(1, ModerationAction::Restore, ModerationScope::Network("n".into()), 1),
    ];
    for r in records {
        assert!(service.apply_moderation_at(r, b"moderation", 10).unwrap());
    }
    let listed: Vec<(u64, ModerationAction)> =
        service.moderation_records(&[9; 32]).iter().map(|r| (r.sequence, r.action)).collect();
    assert_eq!(
        listed,
        vec![
            (3, ModerationAction::Show),
            (1, ModerationAction::Warn),
            (1, ModerationAction::Restore),
            (1, ModerationAction::Hide),
        ]
    );
    assert_eq!(service.list_moderation(None).len(), 4);
    assert!(service.list_moderation(Some(&[8; 32])).is_empty());
}
