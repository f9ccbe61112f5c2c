use syncweb_core::crypto::{blake3_hash, ed25519_public_key};
use syncweb_core::mirror::{
    discover_provider_blobs, dry_run_result, network_mirror_hashes, replication_outcome, BlobOutcome, MirrorEvent,
    MirrorOptions, MirrorTally,
};
use syncweb_core::resilience::{ProviderLease, ReplicationBudget, ResilienceConfig, ResilienceService, TicketInfo};

fn unsigned_bytes(lease: &ProviderLease) -> Vec<u8> {
    format!(
        "{:?}|{:?}|{}|{}|{}|{}",
        lease.hash, lease.provider, lease.ticket, lease.sequence, lease.issued_at, lease.expires_at
    )
    .into_bytes()
}

fn signed_lease_for_test(seed: u8, hash: [u8; 32], sequence: u64) -> (ProviderLease, [u8; 32]) {
    let secret = [seed; 32];
    let provider = ed25519_public_key(&secret);
    let info = TicketInfo { hash, provider };
    let mut lease = ProviderLease::new_with_times(hash, "blob-ticket", Some(info), sequence, 0, u64::MAX)
        .expect("lease should build");
    let unsigned = unsigned_bytes(&lease);
    lease.sign(&secret, &unsigned).expect("lease should sign");
    (lease, provider)
}

fn make_service_with_leases(lease_count: u8) -> (ResilienceService, Vec<[u8; 32]>) {
    let mut service = ResilienceService::new(ResilienceConfig::new(ReplicationBudget::new(1)));
    let mut providers = Vec::new();
    for i in 0..lease_count {
        let hash = blake3_hash(format!("blob-{i}").as_bytes());
        let (lease, provider) = signed_lease_for_test(i, hash, 1);
        let info = TicketInfo { hash, provider };
        let unsigned = unsigned_bytes(&lease);
        service.record_lease_at(lease, Some(info), &unsigned, 1).expect("lease should record");
        providers.push(provider);
    }
    (service, providers)
}

#[test]
fn discover_provider_blobs_returns_all_hashes_for_given_provider() {
    let (service, providers) = make_service_with_leases(3);
    let first = providers.first().expect("no providers");
    let hashes = discover_provider_blobs(&service, first).unwrap();
    assert_eq!(hashes.len(), 1, "provider 0 should have 1 blob");
    let first_hash = hashes.first().expect("no hashes");
    assert_eq!(*first_hash, *blake3::hash(b"blob-0").as_bytes());
}

#[test]
fn discover_provider_blobs_returns_empty_for_unknown_provider() {
    let (service, _providers) = make_service_with_leases(2);
    let unknown = ed25519_public_key(&[99; 32]);
    let hashes = discover_provider_blobs(&service, &unknown).unwrap();
    assert!(hashes.is_empty(), "unknown provider should have no blobs");
}

#[test]
fn mirror_options_defaults() {
    let opts = MirrorOptions::default();
    assert!(!opts.dry_run);
    assert!(!opts.no_sharing);
    assert_eq!(opts.min_providers, 3);
}

#[test]
fn mirror_options_builders_set_flags() {
    let opts = MirrorOptions::new(5).with_dry_run(true).with_no_sharing(true);
    assert!(opts.dry_run);
    assert!(opts.no_sharing);
    assert_eq!(opts.min_providers, 5);
}

#[test]
fn dry_run_reports_total_without_counts() {
    let opts = MirrorOptions::default().with_dry_run(true);
    let r = dry_run_result(10, &opts).expect("dry run result");
    assert_eq!((r.total_blobs, r.pinned, r.skipped, r.failed, r.dry_run), (10, 0, 0, 0, true));
    assert!(dry_run_result(10, &MirrorOptions::default()).is_none());
}

#[test]
fn tally_counts_each_outcome() {
    let mut tally = MirrorTally::new(5);
    let h = [1_u8; 32];
    assert!(matches!(tally.record(h, BlobOutcome::AlreadyLocal), MirrorEvent::Skipped { .. }));
    assert!(matches!(tally.record(h, replication_outcome(true, 1)), MirrorEvent::Pinned { .. }));
    match tally.record(h, replication_outcome(false, 0)) {
        MirrorEvent::Failed { error, .. } => assert_eq!(error, "no providers available"),
        other => panic!("unexpected event {other:?}"),
    }
    match tally.record(h, replication_outcome(false, 2)) {
        MirrorEvent::Failed { error, .. } => assert_eq!(error, "blob was fetched but not pinned"),
        other => panic!("unexpected event {other:?}"),
    }
    match tally.record(h, BlobOutcome::Error("boom".to_owned())) {
        MirrorEvent::Failed { error, .. } => assert_eq!(error, "boom"),
        other => panic!("unexpected event {other:?}"),
    }
    let r = tally.finish();
    assert_eq!((r.total_blobs, r.pinned, r.skipped, r.failed, r.dry_run), (5, 1, 1, 3, false));
}

#[test]
fn network_hashes_are_filtered_sorted_and_unique() {
    let a = [3_u8; 32];
    let b = [1_u8; 32];
    let c = [2_u8; 32];
    let all = network_mirror_hashes(&[a, b, a, c], None);
    assert_eq!(all, vec![b, c, a]);
    let filter = vec![a, c];
    let some = network_mirror_hashes(&[a, b, a, c], Some(&filter));
    assert_eq!(some, vec![c, a]);
}
