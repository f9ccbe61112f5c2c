use syncweb_core::crypto::ed25519_public_key;
use syncweb_core::reputation::{
    ProviderReputation, ProviderTrustSignal, ReputationLedger, TrustSignalKind, AUTO_BAN_FAILURE_THRESHOLD,
};
use syncweb_core::resilience::FetchFailureKind;
use syncweb_core::wot::TrustPolicy;

fn key(seed: u8) -> [u8; 32] {
    ed25519_public_key(&[seed; 32])
}

#[test]
fn reputation_counts_outcomes_and_streaks() {
    let mut r = ProviderReputation::new(key(1));
    assert_eq!(r.last_activity(), None);
    r.record_failure(FetchFailureKind::Timeout, 10);
    r.record_failure(FetchFailureKind::Timeout, 20);
    assert_eq!(r.consecutive_failures, 2);
    assert!(!r.should_auto_ban(3));
    r.record_failure(FetchFailureKind::Timeout, 30);
    assert!(r.should_auto_ban(3));
    r.record_success(40);
    assert_eq!(r.consecutive_failures, 0);
    assert_eq!((r.total_fetches, r.successful_fetches, r.failed_fetches), (4, 1, 3));
    assert_eq!(r.last_activity(), Some(40));
}

#[test]
fn ledger_reports_a_due_ban_once_the_streak_reaches_the_threshold() {
    let mut ledger = ReputationLedger::new();
    let p = key(2);
    let mut due = false;
    for i in 0..AUTO_BAN_FAILURE_THRESHOLD {
        due = ledger.record_outcome(p, false, FetchFailureKind::Timeout, 100 + u64::from(i));
    }
    assert!(due);
    ledger.apply_auto_ban(p, 200, 60);
    assert!(ledger.is_banned(p, 250));
    assert!(!ledger.is_banned(p, 260));
    assert_eq!(ledger.auto_ban_until(p), Some(260));
    assert_eq!(ledger.auto_ban_count(p), 1);
    assert!(!ledger.record_outcome(p, false, FetchFailureKind::Timeout, 210));
    assert!(ledger.record_outcome(p, true, FetchFailureKind::Timeout, 300) == false);
    assert_eq!(ledger.reputation(p).consecutive_failures, 0);
}

#[test]
fn signal_sequences_only_move_forward() {
    let mut ledger = ReputationLedger::new();
    assert!(ledger.accept_signal_sequence(key(1), key(2), 5));
    assert!(!ledger.accept_signal_sequence(key(1), key(2), 5));
    assert!(!ledger.accept_signal_sequence(key(1), key(2), 4));
    assert!(ledger.accept_signal_sequence(key(1), key(2), 6));
    assert!(ledger.accept_signal_sequence(key(3), key(2), 1));
}

#[test]
fn trust_signals_are_validated_signed_and_queued() {
    let reporter = key(1);
    let signal = ProviderTrustSignal::new(key(2), TrustSignalKind::ObservedFailure, None, reporter, 1_000, 1)
        .expect("valid signal");
    assert!(ProviderTrustSignal::new(key(2), TrustSignalKind::ObservedFailure, None, reporter, 1_000, 0).is_err());
    let mut signed = ProviderTrustSignal::new(key(2), TrustSignalKind::ObservedSuccess, None, reporter, 1_000, 2)
        .expect("valid signal");
    assert!(signed.sign(&[1; 32], b"signal").is_ok());
    assert!(signed.verify_at(b"signal", 1_100).is_ok());
    assert!(signed.verify_at(b"tampered", 1_100).is_err());

    let mut ledger = ReputationLedger::new();
    assert!(ledger.queue_trust_signal(signal).expect("valid signals queue"));
    assert_eq!(ledger.pending_trust_signals().len(), 1);
    let taken = ledger.take_pending_trust_signals();
    assert_eq!(taken.len(), 1);
    assert!(ledger.pending_trust_signals().is_empty());
}

#[test]
fn transitions_queue_own_signals_only_with_a_reporter() {
    let mut ledger = ReputationLedger::new();
    assert!(!ledger.note_transition(key(2), false, 10));
    assert!(ledger.pending_trust_signals().is_empty());
    ledger.set_reporter(key(1));
    assert!(ledger.note_transition(key(2), false, 10));
    let pending = ledger.pending_trust_signals();
    assert_eq!(pending.len(), 1);
    assert_eq!(pending[0].provider, key(2));
    assert_eq!(pending[0].reporter, key(1));
}

#[test]
fn bounded_signal_batches_drop_the_oldest() {
    let mut ledger = ReputationLedger::new();
    ledger.set_max_signal_batch(2);
    for seq in 1..=3_u64 {
        let s = ProviderTrustSignal::new(key(seq as u8 + 1), TrustSignalKind::ObservedFailure, None, key(1), 5, seq)
            .expect("valid signal");
        ledger.queue_trust_signal(s).expect("queued");
    }
    let pending = ledger.pending_trust_signals();
    assert_eq!(pending.len(), 2);
    assert_eq!(pending[0].sequence, 2);
    assert_eq!(pending[1].sequence, 3);
}

#[test]
fn stale_reputations_are_purged() {
    let mut ledger = ReputationLedger::new();
    ledger.record_outcome(key(1), true, FetchFailureKind::Timeout, 10);
    ledger.record_outcome(key(2), true, FetchFailureKind::Timeout, 1_000);
    ledger.purge_stale(1_000, 100);
    assert_eq!(ledger.reputation(key(1)).total_fetches, 0);
    assert_eq!(ledger.reputation(key(2)).total_fetches, 1);
}

#[test]
fn trusted_fresh_signals_are_admitted_once() {
    let reporter_secret = [1_u8; 32];
    let mut signal = ProviderTrustSignal::new(key(2), TrustSignalKind::ObservedCorruption, None, key(1), 1_000, 4)
        .expect("valid signal");
    signal.sign(&reporter_secret, b"sig").expect("reporter signs");
    let mut ledger = ReputationLedger::new();
    let untrusting = TrustPolicy::new();
    assert_eq!(ledger.admit_trust_signal_at(&signal, b"sig", &untrusting, 1_010).unwrap(), None);
    let policy = TrustPolicy::with_root(&reporter_secret);
    assert_eq!(
        ledger.admit_trust_signal_at(&signal, b"sig", &policy, 1_010).unwrap(),
        Some((false, FetchFailureKind::Corruption))
    );
    assert_eq!(ledger.admit_trust_signal_at(&signal, b"sig", &policy, 1_010).unwrap(), None);
    assert!(ledger.admit_trust_signal_at(&signal, b"other", &policy, 1_010).is_err());
    assert!(ledger.admit_trust_signal_at(&signal, b"sig", &policy, 999).is_err());
    assert!(ledger.admit_trust_signal_at(&signal, b"sig", &policy, 1_000 + 7 * 24 * 3600 + 1).is_err());
}
