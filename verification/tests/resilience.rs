use syncweb_core::resilience::{ReplicationAction, ReplicationEvent, ReplicationProgress, ResilienceConfig};
use std::io::{Cursor, Read};

use syncweb_core::crypto::ed25519_public_key;
use syncweb_core::error::SyncwebError;
use syncweb_core::resilience::{
    consistent_hashing_selection, jitter_delay, xor_distance, BoundedFetch, FetchFailure,
    FetchFailureKind, LeaseUpdate, ProviderLease, ProviderLeaseTracker, ReplicationBudget,
    ResilienceService, TicketInfo,
};

fn unsigned_bytes(lease: &ProviderLease) -> Vec<u8> {
    format!(
        "{:?}|{:?}|{}|{}|{}|{}",
        lease.hash, lease.provider, lease.ticket, lease.sequence, lease.issued_at, lease.expires_at
    )
    .into_bytes()
}

fn signed_lease_at(seed: u8, hash: [u8; 32], sequence: u64, issued_at: u64, expires_at: u64) -> (ProviderLease, [u8; 32]) {
    let secret = [seed; 32];
    let provider = ed25519_public_key(&secret);
    let info = TicketInfo { hash, provider };
    let mut lease = ProviderLease::new_with_times(hash, "blob-ticket", Some(info), sequence, issued_at, expires_at)
        .expect("lease should build");
    let unsigned = unsigned_bytes(&lease);
    lease.sign(&secret, &unsigned).expect("lease should sign");
    (lease, provider)
}

fn signed_lease(seed: u8, hash: [u8; 32], sequence: u64) -> (ProviderLease, [u8; 32]) {
    signed_lease_at(seed, hash, sequence, 0, u64::MAX)
}

fn track(tracker: &mut ProviderLeaseTracker, lease: ProviderLease, now: u64) -> Result<LeaseUpdate, SyncwebError> {
    let info = TicketInfo { hash: lease.hash, provider: lease.provider };
    let unsigned = unsigned_bytes(&lease);
    tracker.track_at(lease, Some(info), &unsigned, now)
}

#[test]
fn fetch_failure_kind_classification_and_definitiveness() {
    let not_found = SyncwebError::operation("fetch", "provider blob not found");
    let refused = SyncwebError::operation("fetch", "connection refused");
    let timeout = SyncwebError::operation("fetch", "request timed out");
    let corruption = SyncwebError::operation("fetch", "hash mismatch");
    let unknown = SyncwebError::operation("fetch", "unexpected provider response");

    assert_eq!(FetchFailureKind::from_syncweb_error(&not_found), FetchFailureKind::NotFound);
    assert_eq!(FetchFailureKind::from_syncweb_error(&refused), FetchFailureKind::ConnectionRefused);
    assert_eq!(FetchFailureKind::from_syncweb_error(&timeout), FetchFailureKind::Timeout);
    assert_eq!(FetchFailureKind::from_syncweb_error(&corruption), FetchFailureKind::Corruption);
    assert_eq!(FetchFailureKind::from_syncweb_error(&unknown), FetchFailureKind::Unknown);
    assert!(FetchFailureKind::NotFound.is_definitive());
    assert!(FetchFailureKind::Corruption.is_definitive());
    assert!(FetchFailureKind::Timeout.is_transient());
    assert!(!FetchFailureKind::Timeout.is_definitive());
}

#[test]
fn message_classification_ignores_case_and_prefers_not_found() {
    assert_eq!(FetchFailureKind::from_message("HTTP 404 TIMEOUT"), FetchFailureKind::NotFound);
    assert_eq!(FetchFailureKind::from_message("Checksum Mismatch after timeout"), FetchFailureKind::Corruption);
    assert_eq!(FetchFailureKind::from_message("No route to host"), FetchFailureKind::ConnectionRefused);
    assert_eq!(FetchFailureKind::from_message("Deadline Exceeded"), FetchFailureKind::Timeout);
    assert_eq!(FetchFailureKind::classify(&SyncwebError::NamespaceNotAvailable), FetchFailureKind::Unknown);
    assert_eq!(
        FetchFailureKind::from_error(&SyncwebError::InvalidTicket("unknown hash".to_owned())),
        FetchFailureKind::NotFound
    );
}

#[test]
fn provider_leases_are_signed_and_monotonic() {
    let hash = [7_u8; 32];
    let (lease, provider) = signed_lease(1, hash, 1);
    let info = TicketInfo { hash, provider };
    lease.verify_at(Some(info), &unsigned_bytes(&lease), 10).expect("lease should verify");

    let mut tracker = ProviderLeaseTracker::default();
    assert_eq!(track(&mut tracker, lease.clone(), 10).unwrap(), LeaseUpdate::Inserted);
    assert_eq!(track(&mut tracker, lease, 10).unwrap(), LeaseUpdate::IgnoredOlder);
    let (replacement, _) = signed_lease(1, hash, 2);
    assert_eq!(track(&mut tracker, replacement, 10).unwrap(), LeaseUpdate::Replaced);
    assert_eq!(tracker.verified_count_at(&hash, 10), 1);
    tracker.observe_provider_at(hash, provider, 10);
    let health = tracker.health_at(&hash, 20, 30);
    assert_eq!(health.verified, 1);
    assert_eq!(health.local, 1);
    assert!(LeaseUpdate::Inserted.changed() && LeaseUpdate::Replaced.changed());
    assert!(!LeaseUpdate::IgnoredOlder.changed());
}

#[test]
fn tampered_or_foreign_leases_are_rejected() {
    let hash = [8_u8; 32];
    let (mut lease, provider) = signed_lease(3, hash, 1);
    let info = TicketInfo { hash, provider };
    let unsigned = unsigned_bytes(&lease);
    assert!(lease.verify_signature(Some(info), b"other payload").is_err());
    assert!(matches!(lease.verify_signature(None, &unsigned), Err(SyncwebError::InvalidTicket(_))));
    let wrong = TicketInfo { hash, provider: [0_u8; 32] };
    assert!(matches!(lease.verify_signature(Some(wrong), &unsigned), Err(SyncwebError::InvalidIdentity(_))));
    assert!(matches!(lease.verify_at(Some(info), &unsigned, u64::MAX), Err(SyncwebError::InvalidConfig(_))));
    assert!(matches!(lease.sign(&[4_u8; 32], &unsigned), Err(SyncwebError::InvalidIdentity(_))));
    lease.signature = None;
    assert!(!lease.is_signed());
    assert!(matches!(lease.verify_signature(Some(info), &unsigned), Err(SyncwebError::InvalidConfig(_))));
    assert!(matches!(
        ProviderLease::new_with_times(hash, "t", Some(info), 0, 0, 1),
        Err(SyncwebError::InvalidConfig(_))
    ));
    assert!(matches!(
        ProviderLease::new_with_times([1_u8; 32], "t", Some(info), 1, 0, 1),
        Err(SyncwebError::InvalidTicket(_))
    ));
}

#[test]
fn consistent_selection_and_jitter_are_stable() {
    let hash = [9_u8; 32];
    let first = ed25519_public_key(&[1_u8; 32]);
    let second = ed25519_public_key(&[2_u8; 32]);
    let third = ed25519_public_key(&[3_u8; 32]);
    let providers = vec![third, first, second];
    let selected = consistent_hashing_selection(&hash, &providers, 2);
    assert_eq!(selected, consistent_hashing_selection(&hash, &providers, 2));
    assert_eq!(selected.len(), 2);
    assert!(selected.iter().all(|provider| providers.contains(provider)));

    let first_delay = jitter_delay(&hash, &first, 500);
    let second_delay = jitter_delay(&hash, &second, 500);
    assert!(first_delay <= 500);
    assert!(second_delay <= 500);
    assert_ne!(first_delay, second_delay);
}

#[test]
fn selection_orders_by_xor_distance_and_dedups() {
    let hash = [0_u8; 32];
    let a = [3_u8; 32];
    let b = [1_u8; 32];
    let c = [2_u8; 32];
    let selected = consistent_hashing_selection(&hash, &[a, b, c, b, a], 5);
    assert_eq!(selected, vec![b, c, a]);
    assert!(consistent_hashing_selection(&hash, &[a, b], 0).is_empty());
    assert_eq!(xor_distance(&[0xF0; 32], &[0x0F; 32]), [0xFF; 32]);
    assert_eq!(jitter_delay(&hash, &a, 0), 0);
}

#[test]
fn health_verified_vs_local_are_distinct() {
    let hash = [13_u8; 32];
    let (lease, key) = signed_lease(1, hash, 1);
    let local_only = [14_u8; 32];
    let local_key = ed25519_public_key(&[2_u8; 32]);

    let mut service = ResilienceService::with_budget(ReplicationBudget::new(1));
    let info = TicketInfo { hash, provider: key };
    service.record_lease_at(lease.clone(), Some(info), &unsigned_bytes(&lease), 10).unwrap();
    service.observe_provider_at(local_only, local_key, 10);

    let health = service.health_at(&hash, 10);
    assert_eq!(health.verified, 1);
    assert_eq!(health.local, 0);
    assert_eq!(health.verified_providers, vec![key]);

    let local_health = service.health_at(&local_only, 10);
    assert_eq!(local_health.verified, 0);
    assert_eq!(local_health.local, 1);
    assert_eq!(local_health.local_providers, vec![local_key]);

    assert!(!service.needs_replication_at(&hash, 10));
    assert!(service.needs_replication_at(&local_only, 10));

    let mut high_budget = ResilienceService::with_budget(ReplicationBudget::new(3));
    high_budget.record_lease_at(lease.clone(), Some(info), &unsigned_bytes(&lease), 10).unwrap();
    assert!(high_budget.needs_replication_at(&hash, 10));
    assert_eq!(high_budget.responsible_providers_at(&hash, 10), vec![key]);
}

#[test]
fn purge_removes_expired_leases_and_stale_observations() {
    let hash = [15_u8; 32];
    let (lease_a, key_a) = signed_lease_at(1, hash, 1, 10, 50);
    let (lease_b, _) = signed_lease_at(2, hash, 1, 10, 200);

    let mut tracker = ProviderLeaseTracker::default();
    track(&mut tracker, lease_a, 10).unwrap();
    track(&mut tracker, lease_b, 10).unwrap();
    tracker.observe_provider_at(hash, key_a, 10);
    assert_eq!(tracker.leases_at(&hash, 15).len(), 2);

    tracker.purge(15, 5);
    assert_eq!(tracker.leases_at(&hash, 15).len(), 2);
    assert_eq!(tracker.health_at(&hash, 15, 5).local, 1);

    tracker.purge(55, 5);
    assert_eq!(tracker.leases_at(&hash, 55).len(), 1);
    assert_eq!(tracker.health_at(&hash, 55, 1000).local, 0);

    tracker.purge(200, 5);
    assert!(tracker.leases_at(&hash, 200).is_empty());
}

#[test]
fn leases_are_listed_by_provider() {
    let hash = [16_u8; 32];
    let mut tracker = ProviderLeaseTracker::default();
    let mut keys = Vec::new();
    for seed in [5_u8, 1, 9, 3] {
        let (lease, key) = signed_lease(seed, hash, 1);
        keys.push(key);
        track(&mut tracker, lease, 1).unwrap();
    }
    keys.sort();
    let listed: Vec<[u8; 32]> = tracker.leases_at(&hash, 1).iter().map(|l| l.provider).collect();
    assert_eq!(listed, keys);
    assert_eq!(tracker.providers_at(&hash, 1), keys);
    assert!(tracker.leases_at(&[0_u8; 32], 1).is_empty());
}

#[test]
fn fetch_failure_timestamp_uses_the_clock() {
    let hash = [21_u8; 32];
    let provider = ed25519_public_key(&[21_u8; 32]);
    let before = std::time::SystemTime::now().duration_since(std::time::UNIX_EPOCH).unwrap().as_secs();
    let failure = FetchFailure::new(FetchFailureKind::Timeout, provider, hash, "timed out");
    let after = std::time::SystemTime::now().duration_since(std::time::UNIX_EPOCH).unwrap().as_secs();
    assert!((before..=after).contains(&failure.timestamp));
    let classified = FetchFailure::from_syncweb_error(provider, hash, &SyncwebError::operation("fetch", "timed out"));
    assert_eq!(classified.kind, FetchFailureKind::Timeout);
    assert_eq!(classified.error_detail, "fetch: timed out");
}

#[test]
fn failure_tracking_counts_clears_and_purges() {
    let hash = [22_u8; 32];
    let other_hash = [23_u8; 32];
    let provider = ed25519_public_key(&[22_u8; 32]);
    let other_provider = ed25519_public_key(&[23_u8; 32]);
    let mut tracker = ProviderLeaseTracker::with_max_failures_per_provider(2);

    for timestamp in 1..=3 {
        tracker.record_failure_at(
            hash,
            provider,
            FetchFailure::new_at(FetchFailureKind::NotFound, provider, hash, timestamp, "missing"),
            timestamp,
        );
    }
    tracker.record_failure_at(
        other_hash,
        provider,
        FetchFailure::new_at(FetchFailureKind::NotFound, provider, other_hash, 4, "missing"),
        4,
    );
    tracker.record_failure_at(
        hash,
        other_provider,
        FetchFailure::new_at(FetchFailureKind::NotFound, other_provider, hash, 4, "missing"),
        4,
    );

    let record = tracker.failure_record(&hash, &provider).expect("failure record");
    assert_eq!(record.failures.len(), 2);
    assert!(record.failures.first().is_some_and(|failure| failure.timestamp == 2));
    assert_eq!(tracker.failure_count(&hash, &provider), 3);
    assert_eq!(tracker.consecutive_failures(&hash, &provider), 3);
    assert!(tracker.is_definitively_failed(&hash, &provider));
    assert!(!tracker.is_definitively_failed(&other_hash, &provider));
    assert!(!tracker.is_definitively_failed(&hash, &other_provider));

    tracker.clear_failures_for_provider(&hash, &provider);
    assert!(tracker.failure_record(&hash, &provider).is_none());
    assert_eq!(tracker.failure_count(&hash, &provider), 0);

    tracker.purge_stale_failures(10, 1);
    assert!(tracker.failure_record(&other_hash, &provider).is_none());
    assert!(tracker.failure_record(&hash, &other_provider).is_none());
}

#[test]
fn transient_failures_do_not_become_definitive() {
    let hash = [24_u8; 32];
    let provider = ed25519_public_key(&[24_u8; 32]);
    let mut tracker = ProviderLeaseTracker::default();
    for timestamp in 1..=3 {
        tracker.record_failure_at(
            hash,
            provider,
            FetchFailure::new_at(FetchFailureKind::Timeout, provider, hash, timestamp, "timeout"),
            timestamp,
        );
    }
    assert_eq!(tracker.consecutive_failures(&hash, &provider), 3);
    assert!(!tracker.is_definitively_failed(&hash, &provider));
}

#[test]
fn shrinking_the_failure_cap_drops_the_oldest_details() {
    let hash = [25_u8; 32];
    let provider = [26_u8; 32];
    let mut tracker = ProviderLeaseTracker::default();
    for timestamp in 1..=4 {
        tracker.record_failure_at(
            hash,
            provider,
            FetchFailure::new_at(FetchFailureKind::Unknown, provider, hash, timestamp, "odd"),
            timestamp,
        );
    }
    tracker.set_max_failures_per_provider(1);
    assert_eq!(tracker.max_failures_per_provider(), 1);
    let record = tracker.failure_record(&hash, &provider).unwrap();
    assert_eq!(record.failures.len(), 1);
    assert_eq!(record.failures[0].timestamp, 4);
    assert_eq!(record.first_failure_at, 1);
}

fn validate(mut reader: impl Read, expected_size: u64, expected_hash: [u8; 32]) -> Result<(), SyncwebError> {
    let mut check = BoundedFetch::new(expected_size, expected_hash);
    let mut buffer = vec![0_u8; 65536];
    while !check.is_complete() {
        let wanted = check.next_read_len();
        let read = reader.read(&mut buffer[..wanted]).unwrap();
        check.record_read(&buffer[..read])?;
    }
    let trailing = reader.read(&mut buffer[..1]).unwrap();
    check.check_trailing(trailing)?;
    check.check_digest()
}

#[test]
fn bounded_fetch_validation_rejects_oversized_truncated_and_corrupt_streams() {
    let data = b"bounded fetch";
    let hash = *blake3::hash(data).as_bytes();
    let expected_size = data.len() as u64;
    validate(Cursor::new(data), expected_size, hash).unwrap();
    assert!(validate(Cursor::new(b"bounded fetch!"), expected_size, hash).is_err());
    assert!(validate(Cursor::new(b"bounded"), expected_size, hash).is_err());
    assert!(validate(Cursor::new(b"wrong fetch!!"), expected_size, hash).is_err());
}

#[test]
fn budget_and_config_builders() {
    let budget = ReplicationBudget::new(2).with_responsible_peers(4).with_max_jitter(1_000).with_observation_ttl(60);
    assert_eq!(budget.min_providers, 2);
    assert_eq!(budget.responsible_peers, 4);
    assert_eq!(budget.max_jitter, 1_000);
    assert_eq!(budget.observation_ttl, 60);
    let defaults = ReplicationBudget::default();
    assert_eq!((defaults.min_providers, defaults.responsible_peers, defaults.max_jitter, defaults.observation_ttl), (3, 1, 30_000, 300));
    let config = syncweb_core::resilience::ResilienceConfig::new(budget).with_max_failures_per_provider(7);
    assert_eq!(config.max_failures_per_provider, 7);
    assert_eq!(syncweb_core::resilience::ResilienceConfig::default().max_failures_per_provider, 128);
}

#[test]
fn replication_steps_try_providers_in_turn_and_pin() {
    let hash = [30_u8; 32];
    let mut service = ResilienceService::new(ResilienceConfig::new(ReplicationBudget::new(3).with_responsible_peers(2)));
    for seed in [1_u8, 2] {
        let (lease, provider) = signed_lease(seed, hash, 1);
        let unsigned = unsigned_bytes(&lease);
        service.record_lease_at(lease, Some(TicketInfo { hash, provider }), &unsigned, 5).unwrap();
    }
    let mut progress = ReplicationProgress::new();
    assert!(matches!(service.replication_step(hash, &mut progress, ReplicationEvent::Start, 5), ReplicationAction::CheckLocalCopy));
    assert_eq!(progress.selected.len(), 2);
    let first = progress.selected[0];
    assert!(matches!(
        service.replication_step(hash, &mut progress, ReplicationEvent::LocalCopy(false), 5),
        ReplicationAction::WaitForSlot { provider } if provider == first
    ));
    assert!(matches!(
        service.replication_step(hash, &mut progress, ReplicationEvent::SlotReady, 5),
        ReplicationAction::Fetch { provider, ref ticket } if provider == first && ticket == "blob-ticket"
    ));
    let failure = FetchFailure::new_at(FetchFailureKind::Timeout, first, hash, 5, "timed out");
    let second = progress.selected[1];
    assert!(matches!(
        service.replication_step(hash, &mut progress, ReplicationEvent::FetchFailed(failure), 5),
        ReplicationAction::WaitForSlot { provider } if provider == second
    ));
    assert_eq!(progress.failed_from, vec![(first, FetchFailureKind::Timeout)]);
    service.replication_step(hash, &mut progress, ReplicationEvent::SlotReady, 5);
    assert!(matches!(service.replication_step(hash, &mut progress, ReplicationEvent::Fetched, 5), ReplicationAction::Pin));
    assert_eq!(progress.fetched_from, Some(second));
    let local = ed25519_public_key(&[9_u8; 32]);
    assert!(matches!(
        service.replication_step(hash, &mut progress, ReplicationEvent::Pinned { local }, 6),
        ReplicationAction::Finish
    ));
    assert!(progress.pinned);
}

#[test]
fn replication_leaves_well_provided_blobs_alone() {
    let hash = [31_u8; 32];
    let mut service = ResilienceService::new(ResilienceConfig::new(ReplicationBudget::new(1)));
    let (lease, provider) = signed_lease(3, hash, 1);
    let unsigned = unsigned_bytes(&lease);
    service.record_lease_at(lease, Some(TicketInfo { hash, provider }), &unsigned, 5).unwrap();
    let mut progress = ReplicationProgress::new();
    assert!(matches!(service.replication_step(hash, &mut progress, ReplicationEvent::Start, 5), ReplicationAction::Finish));
    assert!(progress.selected.is_empty());
}
