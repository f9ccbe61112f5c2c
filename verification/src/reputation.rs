//! Historical provider reputation and signed trust observations: fetch
//! counters per provider, automatic bans, and the bounded batch of trust
//! signals to publish. Reliability scores are real numbers and are computed
//! by the caller from these counters.
use vstd::prelude::*;

use crate::crypto::{ed25519_key_is_valid, ed25519_key_valid, ed25519_public_key, ed25519_public_of, hex_text};
use crate::error::{Result, SyncwebError};
use crate::links::{first_match, is_first_match, lemma_first_match_is, lemma_first_match_none, lemma_first_match_push, lemma_first_match_update};
use crate::pairmap::PairMap;
use crate::resilience::{bytes_eq, FetchFailureKind};
use crate::wot::{sign_text, signed_payload, text_signature_valid, verify_text, TrustPolicy};
use crate::crypto::ed25519_signature_of;

verus! {

/// Consecutive failures that make a provider due for an automatic ban.
pub const AUTO_BAN_FAILURE_THRESHOLD: u32 = 3;

/// Signals at most this old, in seconds (seven days), are accepted.
pub const SIGNAL_TTL_SECS: u64 = 604800;

/// The default bound of the pending signal batch.
pub const DEFAULT_SIGNAL_BATCH_SIZE: usize = 64;

/// `a + 1`, saturating.
pub open spec fn bump64(a: u64) -> u64 {
    if a == u64::MAX {
        a
    } else {
        (a + 1) as u64
    }
}

/// `a + 1`, saturating.
pub open spec fn bump32(a: u32) -> u32 {
    if a == u32::MAX {
        a
    } else {
        (a + 1) as u32
    }
}

/// Historical fetch outcomes for one provider.
#[derive(Clone, Copy, Debug)]
pub struct ProviderReputation {
    pub provider: [u8; 32],
    pub total_fetches: u64,
    pub successful_fetches: u64,
    pub failed_fetches: u64,
    pub consecutive_failures: u32,
    pub last_success_at: Option<u64>,
    pub last_failure_at: Option<u64>,
}

impl ProviderReputation {
    /// No fetch observed yet.
    pub fn new(provider: [u8; 32]) -> (r: Self)
        ensures
            r == (ProviderReputation {
                provider,
                total_fetches: 0,
                successful_fetches: 0,
                failed_fetches: 0,
                consecutive_failures: 0,
                last_success_at: None,
                last_failure_at: None,
            }),
    {
        ProviderReputation {
            provider,
            total_fetches: 0,
            successful_fetches: 0,
            failed_fetches: 0,
            consecutive_failures: 0,
            last_success_at: None,
            last_failure_at: None,
        }
    }

    /// Count a successful fetch at `now`; the failure streak ends.
    pub fn record_success(&mut self, now: u64)
        ensures
            *final(self) == (ProviderReputation {
                total_fetches: bump64(old(self).total_fetches),
                successful_fetches: bump64(old(self).successful_fetches),
                consecutive_failures: 0,
                last_success_at: Some(now),
                ..*old(self)
            }),
    {
        self.total_fetches = self.total_fetches.saturating_add(1);
        self.successful_fetches = self.successful_fetches.saturating_add(1);
        self.consecutive_failures = 0;
        self.last_success_at = Some(now);
    }

    /// Count a failed fetch at `now`; the failure streak grows.
    pub fn record_failure(&mut self, kind: FetchFailureKind, now: u64)
        ensures
            *final(self) == (ProviderReputation {
                total_fetches: bump64(old(self).total_fetches),
                failed_fetches: bump64(old(self).failed_fetches),
                consecutive_failures: bump32(old(self).consecutive_failures),
                last_failure_at: Some(now),
                ..*old(self)
            }),
    {
        self.total_fetches = self.total_fetches.saturating_add(1);
        self.failed_fetches = self.failed_fetches.saturating_add(1);
        self.consecutive_failures = self.consecutive_failures.saturating_add(1);
        self.last_failure_at = Some(now);
    }

    /// The failure streak reached the threshold.
    pub fn should_auto_ban(&self, consecutive_threshold: u32) -> (b: bool)
        ensures
            b == (self.consecutive_failures >= consecutive_threshold),
    {
        self.consecutive_failures >= consecutive_threshold
    }

    /// The time of the latest observation, if any.
    pub fn last_activity(&self) -> (t: Option<u64>)
        ensures
            t == last_activity_spec(*self),
    {
        match (self.last_success_at, self.last_failure_at) {
            (Some(a), Some(b)) => Some(if a >= b {
                a
            } else {
                b
            }),
            (Some(a), None) => Some(a),
            (None, b) => b,
        }
    }
}

/// The later of the last success and the last failure.
pub open spec fn last_activity_spec(r: ProviderReputation) -> Option<u64> {
    match (r.last_success_at, r.last_failure_at) {
        (Some(a), Some(b)) => Some(if a >= b {
            a
        } else {
            b
        }),
        (Some(a), None) => Some(a),
        (None, b) => b,
    }
}

/// Kinds of automated provider observations.
#[derive(Clone, Copy, Debug, PartialEq, Eq, Structural)]
pub enum TrustSignalKind {
    ObservedSuccess,
    ObservedFailure,
    ObservedCorruption,
}

/// A fetch or integrity observation published by a reporter.
#[derive(Debug)]
pub struct ProviderTrustSignal {
    pub provider: [u8; 32],
    pub signal: TrustSignalKind,
    pub hash: Option<[u8; 32]>,
    pub reporter: [u8; 32],
    pub timestamp: u64,
    pub sequence: u64,
    pub signature: Option<String>,
}

/// The signal's fields are valid: a positive sequence and two usable keys.
pub open spec fn signal_fields_ok(s: ProviderTrustSignal) -> bool {
    s.sequence != 0 && ed25519_key_valid(s.provider@) && ed25519_key_valid(s.reporter@)
}

/// The signal context text.
pub open spec fn signal_context() -> Seq<char> {
    "syncweb/provider-trust/v1"@
}

impl ProviderTrustSignal {
    /// An unsigned signal with valid fields.
    pub fn new(
        provider: [u8; 32],
        kind: TrustSignalKind,
        hash: Option<[u8; 32]>,
        reporter: [u8; 32],
        timestamp: u64,
        sequence: u64,
    ) -> (r: Result<Self>)
        ensures
            r is Ok <==> sequence != 0 && ed25519_key_valid(provider@) && ed25519_key_valid(reporter@),
            r matches Ok(s) ==> s.provider == provider && s.signal == kind && s.hash == hash && s.reporter == reporter
                && s.timestamp == timestamp && s.sequence == sequence && s.signature is None,
            r is Err && sequence == 0 ==> r->Err_0 is InvalidConfig,
            r is Err && sequence != 0 ==> r->Err_0 is InvalidIdentity,
    {
        let s = ProviderTrustSignal { provider, signal: kind, hash, reporter, timestamp, sequence, signature: None };
        s.validate()?;
        Ok(s)
    }

    /// Validate the sequence and identities.
    pub fn validate(&self) -> (r: Result<()>)
        ensures
            r is Ok <==> signal_fields_ok(*self),
            r is Err && self.sequence == 0 ==> r->Err_0 is InvalidConfig,
            r is Err && self.sequence != 0 ==> r->Err_0 is InvalidIdentity,
    {
        if self.sequence == 0 {
            return Err(
                SyncwebError::InvalidConfig("provider trust signal sequence must be greater than zero".to_string()),
            );
        }
        if !ed25519_key_is_valid(&self.provider) {
            return Err(SyncwebError::InvalidIdentity("invalid provider identity".to_string()));
        }
        if !ed25519_key_is_valid(&self.reporter) {
            return Err(SyncwebError::InvalidIdentity("invalid reporter identity".to_string()));
        }
        Ok(())
    }

    /// Sign with the reporter's secret key over `unsigned`, the signal
    /// encoded without its signature.
    pub fn sign(&mut self, secret: &[u8; 32], unsigned: &[u8]) -> (r: Result<()>)
        ensures
            r is Ok <==> old(self).reporter@ == ed25519_public_of(secret@),
            r is Err ==> r->Err_0 is InvalidIdentity && *final(self) == *old(self),
            r is Ok ==> (final(self).signature matches Some(s) && s@ == hex_text(
                ed25519_signature_of(secret@, signed_payload(signal_context(), unsigned@)),
            )),
            final(self).provider == old(self).provider && final(self).signal == old(self).signal
                && final(self).hash == old(self).hash && final(self).reporter == old(self).reporter
                && final(self).timestamp == old(self).timestamp && final(self).sequence == old(self).sequence,
    {
        let public = ed25519_public_key(secret);
        if !bytes_eq(&public, &self.reporter) {
            return Err(
                SyncwebError::InvalidIdentity("provider trust signal signer does not match reporter".to_string()),
            );
        }
        self.signature = Some(sign_text("syncweb/provider-trust/v1", unsigned, secret));
        Ok(())
    }

    /// Verify at `now`: valid fields, not from the future, at most seven
    /// days old, and signed by the reporter over `unsigned`.
    pub fn verify_at(&self, unsigned: &[u8], now: u64) -> (r: Result<()>)
        ensures
            r is Ok <==> signal_fields_ok(*self) && self.timestamp <= now && now - self.timestamp <= SIGNAL_TTL_SECS
                && text_signature_valid(signal_context(), unsigned@, hex_text(self.reporter@), self.signature),
    {
        self.validate()?;
        if self.timestamp > now {
            return Err(SyncwebError::InvalidConfig("provider trust signal is from the future".to_string()));
        }
        if now - self.timestamp > SIGNAL_TTL_SECS {
            return Err(SyncwebError::InvalidConfig("provider trust signal has expired".to_string()));
        }
        let reporter = crate::wot::author_id(&self.reporter);
        verify_text("syncweb/provider-trust/v1", unsigned, reporter.as_str(), &self.signature)
    }
}

/// Two signals report the same observation: same provider, reporter, kind
/// and blob.
pub open spec fn same_observation(a: ProviderTrustSignal, b: ProviderTrustSignal) -> bool {
    a.provider == b.provider && a.reporter == b.reporter && a.signal == b.signal && a.hash == b.hash
}

/// An automatic ban of a provider: active until `until`, the `count`-th.
#[derive(Clone, Copy, Debug)]
pub struct AutoBan {
    pub provider: [u8; 32],
    pub until: u64,
    pub count: u32,
}

pub open spec fn rep_key(p: Seq<u8>) -> spec_fn(ProviderReputation) -> bool {
    |r: ProviderReputation| r.provider@ == p
}

pub open spec fn ban_key(p: Seq<u8>) -> spec_fn(AutoBan) -> bool {
    |b: AutoBan| b.provider@ == p
}

/// The reputation of a provider never observed.
pub open spec fn fresh_reputation(provider: [u8; 32]) -> ProviderReputation {
    ProviderReputation {
        provider,
        total_fetches: 0,
        successful_fetches: 0,
        failed_fetches: 0,
        consecutive_failures: 0,
        last_success_at: None,
        last_failure_at: None,
    }
}

/// A reputation after one more observation.
pub open spec fn observed(r: ProviderReputation, success: bool, now: u64) -> ProviderReputation {
    if success {
        ProviderReputation {
            total_fetches: bump64(r.total_fetches),
            successful_fetches: bump64(r.successful_fetches),
            consecutive_failures: 0,
            last_success_at: Some(now),
            ..r
        }
    } else {
        ProviderReputation {
            total_fetches: bump64(r.total_fetches),
            failed_fetches: bump64(r.failed_fetches),
            consecutive_failures: bump32(r.consecutive_failures),
            last_failure_at: Some(now),
            ..r
        }
    }
}

/// The integer state of a provider reputation store: reputations, bans,
/// the last accepted signal sequence of each reporter and provider, and the
/// bounded batch of signals to publish.
#[derive(Debug)]
pub struct ReputationLedger {
    reputations: Vec<ProviderReputation>,
    auto_bans: Vec<AutoBan>,
    signal_sequences: PairMap<u64>,
    pending_signals: Vec<ProviderTrustSignal>,
    max_signal_batch: usize,
    reporter: Option<[u8; 32]>,
    next_signal_sequence: u64,
}

impl ReputationLedger {
    /// The ledger's invariant: the batch is within its bound, which is at
    /// least one, and holds each observation once.
    pub closed spec fn wf(&self) -> bool {
        &&& self.signal_sequences.wf()
        &&& self.max_signal_batch >= 1
        &&& self.pending_signals@.len() <= self.max_signal_batch
        &&& forall|i: int, j: int|
            0 <= i < j < self.pending_signals@.len() ==> !same_observation(
                #[trigger] self.pending_signals@[i],
                #[trigger] self.pending_signals@[j],
            )
    }

    /// The stored reputation of a provider.
    pub closed spec fn stored(&self, p: Seq<u8>) -> Option<ProviderReputation> {
        match first_match(self.reputations@, rep_key(p)) {
            Some(i) => Some(self.reputations@[i]),
            None => None,
        }
    }

    /// The ban of a provider.
    pub closed spec fn ban(&self, p: Seq<u8>) -> Option<AutoBan> {
        match first_match(self.auto_bans@, ban_key(p)) {
            Some(i) => Some(self.auto_bans@[i]),
            None => None,
        }
    }

    /// The last accepted signal sequence of each reporter and provider.
    pub closed spec fn sequences(&self) -> Map<(Seq<u8>, Seq<u8>), u64> {
        self.signal_sequences@
    }

    /// The signals waiting to be published, oldest first.
    pub closed spec fn pending(&self) -> Seq<ProviderTrustSignal> {
        self.pending_signals@
    }

    /// The bound of the pending batch.
    pub closed spec fn batch_limit(&self) -> usize {
        self.max_signal_batch
    }

    /// The identity that reports this node's own observations.
    pub closed spec fn reporter_id(&self) -> Option<[u8; 32]> {
        self.reporter
    }

    /// The sequence the next own signal gets.
    pub closed spec fn next_sequence(&self) -> u64 {
        self.next_signal_sequence
    }

    /// An empty ledger with a batch of 64 signals.
    pub fn new() -> (l: Self)
        ensures
            l.wf(),
            forall|p: Seq<u8>| #[trigger] l.stored(p) is None && l.ban(p) is None,
            l.sequences() == Map::<(Seq<u8>, Seq<u8>), u64>::empty(),
            l.pending() == Seq::<ProviderTrustSignal>::empty(),
            l.batch_limit() == DEFAULT_SIGNAL_BATCH_SIZE,
            l.reporter_id() is None,
            l.next_sequence() == 1,
    {
        let l = ReputationLedger {
            reputations: Vec::new(),
            auto_bans: Vec::new(),
            signal_sequences: PairMap::new(),
            pending_signals: Vec::new(),
            max_signal_batch: DEFAULT_SIGNAL_BATCH_SIZE,
            reporter: None,
            next_signal_sequence: 1,
        };
        proof {
            assert forall|p: Seq<u8>| #[trigger] l.stored(p) is None && l.ban(p) is None by {
                lemma_first_match_none(l.reputations@, rep_key(p));
                lemma_first_match_none(l.auto_bans@, ban_key(p));
            }
        }
        l
    }

    fn find_rep(&self, p: &[u8; 32]) -> (r: Option<usize>)
        ensures
            match r {
                Some(i) => is_first_match(self.reputations@, rep_key(p@), i as int),
                None => first_match(self.reputations@, rep_key(p@)) is None,
            },
    {
        let mut i: usize = 0;
        while i < self.reputations.len()
            invariant
                i <= self.reputations@.len(),
                forall|j: int| 0 <= j < i ==> !rep_key(p@)(#[trigger] self.reputations@[j]),
            decreases self.reputations.len() - i,
        {
            if bytes_eq(&self.reputations[i].provider, p) {
                return Some(i);
            }
            i += 1;
        }
        proof {
            lemma_first_match_none(self.reputations@, rep_key(p@));
        }
        None
    }

    fn find_ban(&self, p: &[u8; 32]) -> (r: Option<usize>)
        ensures
            match r {
                Some(i) => is_first_match(self.auto_bans@, ban_key(p@), i as int),
                None => first_match(self.auto_bans@, ban_key(p@)) is None,
            },
    {
        let mut i: usize = 0;
        while i < self.auto_bans.len()
            invariant
                i <= self.auto_bans@.len(),
                forall|j: int| 0 <= j < i ==> !ban_key(p@)(#[trigger] self.auto_bans@[j]),
            decreases self.auto_bans.len() - i,
        {
            if bytes_eq(&self.auto_bans[i].provider, p) {
                return Some(i);
            }
            i += 1;
        }
        proof {
            lemma_first_match_none(self.auto_bans@, ban_key(p@));
        }
        None
    }

    /// The reputation of a provider: stored, or a fresh one.
    pub fn reputation(&self, provider: [u8; 32]) -> (r: ProviderReputation)
        ensures
            r == match self.stored(provider@) {
                Some(x) => x,
                None => fresh_reputation(provider),
            },
    {
        match self.find_rep(&provider) {
            Some(i) => {
                proof {
                    lemma_first_match_is(self.reputations@, rep_key(provider@), i as int);
                }
                self.reputations[i]
            },
            None => ProviderReputation::new(provider),
        }
    }

    /// Whether the provider is banned at `now`.
    pub fn is_banned(&self, provider: [u8; 32], now: u64) -> (b: bool)
        ensures
            b == (self.ban(provider@) matches Some(x) && x.until > now),
    {
        match self.find_ban(&provider) {
            Some(i) => {
                proof {
                    lemma_first_match_is(self.auto_bans@, ban_key(provider@), i as int);
                }
                self.auto_bans[i].until > now
            },
            None => false,
        }
    }

    /// The end of the provider's latest ban.
    pub fn auto_ban_until(&self, provider: [u8; 32]) -> (u: Option<u64>)
        ensures
            u == match self.ban(provider@) {
                Some(x) => Some(x.until),
                None => None,
            },
    {
        match self.find_ban(&provider) {
            Some(i) => {
                proof {
                    lemma_first_match_is(self.auto_bans@, ban_key(provider@), i as int);
                }
                Some(self.auto_bans[i].until)
            },
            None => None,
        }
    }

    /// How many times the provider was banned.
    pub fn auto_ban_count(&self, provider: [u8; 32]) -> (n: u32)
        ensures
            n == match self.ban(provider@) {
                Some(x) => x.count,
                None => 0,
            },
    {
        match self.find_ban(&provider) {
            Some(i) => {
                proof {
                    lemma_first_match_is(self.auto_bans@, ban_key(provider@), i as int);
                }
                self.auto_bans[i].count
            },
            None => 0,
        }
    }

    /// Whether a banned provider may rejoin at `now`: its ban has ended.
    /// The ban stays on record, so later bans back off further.
    pub fn rejoin(&mut self, provider: [u8; 32], now: u64) -> (b: bool)
        ensures
            b == (old(self).ban(provider@) matches Some(x) && x.until <= now),
            *final(self) == *old(self),
    {
        match self.find_ban(&provider) {
            Some(i) => {
                proof {
                    lemma_first_match_is(self.auto_bans@, ban_key(provider@), i as int);
                }
                self.auto_bans[i].until <= now
            },
            None => false,
        }
    }

    /// Count one fetch outcome of `provider` at `now`. Returns whether an
    /// automatic ban is due: the fetch failed, the failure streak reached
    /// the threshold, and no ban is active.
    pub fn record_outcome(&mut self, provider: [u8; 32], success: bool, kind: FetchFailureKind, now: u64) -> (due: bool)
        requires
            old(self).wf(),
        ensures
            final(self).wf(),
            final(self).stored(provider@) == Some(observed(old(self).reputation_spec(provider), success, now)),
            forall|p: Seq<u8>| p != provider@ ==> #[trigger] final(self).stored(p) == old(self).stored(p),
            forall|p: Seq<u8>| #[trigger] final(self).ban(p) == old(self).ban(p),
            final(self).sequences() == old(self).sequences(),
            final(self).pending() == old(self).pending(),
            final(self).batch_limit() == old(self).batch_limit(),
            final(self).reporter_id() == old(self).reporter_id(),
            final(self).next_sequence() == old(self).next_sequence(),
            due == (!success && observed(old(self).reputation_spec(provider), success, now).consecutive_failures
                >= AUTO_BAN_FAILURE_THRESHOLD && !(old(self).ban(provider@) matches Some(x) && x.until > now)),
    {
        let banned = self.is_banned(provider, now);
        let ghost before = self.reputations@;
        match self.find_rep(&provider) {
            Some(i) => {
                proof {
                    lemma_first_match_is(before, rep_key(provider@), i as int);
                }
                let mut r = self.reputations.remove(i);
                if success {
                    r.record_success(now);
                } else {
                    r.record_failure(kind, now);
                }
                let streak = r.consecutive_failures;
                self.reputations.insert(i, r);
                proof {
                    let after = self.reputations@;
                    assert(after =~= before.update(i as int, r));
                    assert forall|p: Seq<u8>| true implies #[trigger] first_match(after, rep_key(p)) == first_match(
                        before,
                        rep_key(p),
                    ) by {
                        lemma_first_match_update(before, rep_key(p), i as int, r);
                    }
                    assert forall|p: Seq<u8>| p != provider@ implies #[trigger] self.stored(p) == old(self).stored(p) by {
                        if first_match(before, rep_key(p)) is Some {
                            let k = first_match(before, rep_key(p))->0;
                            assert(is_first_match(before, rep_key(p), k)) by {
                                let kk = choose|kk: int| is_first_match(before, rep_key(p), kk);
                            }
                            assert(k != i);
                        }
                    }
                }
                !success && streak >= AUTO_BAN_FAILURE_THRESHOLD && !banned
            },
            None => {
                let mut r = ProviderReputation::new(provider);
                if success {
                    r.record_success(now);
                } else {
                    r.record_failure(kind, now);
                }
                let streak = r.consecutive_failures;
                self.reputations.push(r);
                proof {
                    let after = self.reputations@;
                    assert(after == before.push(r));
                    assert forall|p: Seq<u8>| p != provider@ implies #[trigger] self.stored(p) == old(self).stored(p) by {
                        lemma_first_match_push(before, rep_key(p), r);
                        if first_match(before, rep_key(p)) is Some {
                            let k = first_match(before, rep_key(p))->0;
                            assert(after[k] == before[k]);
                        }
                    }
                    lemma_first_match_push(before, rep_key(provider@), r);
                }
                !success && streak >= AUTO_BAN_FAILURE_THRESHOLD && !banned
            },
        }
    }

    /// The reputation of a provider: stored, or a fresh one.
    pub open spec fn reputation_spec(&self, provider: [u8; 32]) -> ProviderReputation {
        match self.stored(provider@) {
            Some(x) => x,
            None => fresh_reputation(provider),
        }
    }
}

fn same_observation_exec(a: &ProviderTrustSignal, b: &ProviderTrustSignal) -> (r: bool)
    ensures
        r == same_observation(*a, *b),
{
    let hash_eq = match (&a.hash, &b.hash) {
        (None, None) => true,
        (Some(x), Some(y)) => {
            let e = bytes_eq(x, y);
            if e {
                assert(x@ =~= y@);
                assert(*x == *y);
            }
            e
        },
        _ => false,
    };
    let pe = bytes_eq(&a.provider, &b.provider);
    let re = bytes_eq(&a.reporter, &b.reporter);
    if pe {
        assert(a.provider@ =~= b.provider@);
        assert(a.provider == b.provider);
    }
    if re {
        assert(a.reporter@ =~= b.reporter@);
        assert(a.reporter == b.reporter);
    }
    pe && re && a.signal == b.signal && hash_eq
}

/// The batch after queueing `s`: unchanged where it holds the same
/// observation; else with `s` appended, dropping the oldest when full.
pub open spec fn queued(pending: Seq<ProviderTrustSignal>, limit: usize, s: ProviderTrustSignal) -> Seq<ProviderTrustSignal> {
    if exists|i: int| 0 <= i < pending.len() && same_observation(#[trigger] pending[i], s) {
        pending
    } else if pending.len() >= limit {
        pending.drop_first().push(s)
    } else {
        pending.push(s)
    }
}

impl Default for ReputationLedger {
    fn default() -> (l: Self)
        ensures
            l.wf(),
            l.pending() == Seq::<ProviderTrustSignal>::empty(),
            l.batch_limit() == DEFAULT_SIGNAL_BATCH_SIZE,
    {
        Self::new()
    }
}

impl ReputationLedger {
    /// Ban `provider` from `now` for `duration_secs` seconds, counting one
    /// more ban.
    pub fn apply_auto_ban(&mut self, provider: [u8; 32], now: u64, duration_secs: u64)
        requires
            old(self).wf(),
        ensures
            final(self).wf(),
            final(self).ban(provider@) matches Some(b) && b.provider == provider && b.until == crate::resilience::sat_add_u64(
                now,
                duration_secs,
            ) && b.count == bump32(old(self).auto_ban_count_spec(provider@)),
            forall|p: Seq<u8>| p != provider@ ==> #[trigger] final(self).ban(p) == old(self).ban(p),
            forall|p: Seq<u8>| #[trigger] final(self).stored(p) == old(self).stored(p),
            final(self).sequences() == old(self).sequences(),
            final(self).pending() == old(self).pending(),
            final(self).batch_limit() == old(self).batch_limit(),
            final(self).reporter_id() == old(self).reporter_id(),
            final(self).next_sequence() == old(self).next_sequence(),
    {
        let previous = self.auto_ban_count(provider);
        let b = AutoBan { provider, until: now.saturating_add(duration_secs), count: previous.saturating_add(1) };
        let ghost before = self.auto_bans@;
        match self.find_ban(&provider) {
            Some(i) => {
                proof {
                    lemma_first_match_is(before, ban_key(provider@), i as int);
                }
                self.auto_bans.set(i, b);
                proof {
                    let after = self.auto_bans@;
                    assert(after =~= before.update(i as int, b));
                    assert forall|p: Seq<u8>| p != provider@ implies #[trigger] self.ban(p) == old(self).ban(p) by {
                        lemma_first_match_update(before, ban_key(p), i as int, b);
                        if first_match(before, ban_key(p)) is Some {
                            let k = first_match(before, ban_key(p))->0;
                            assert(is_first_match(before, ban_key(p), k)) by {
                                let kk = choose|kk: int| is_first_match(before, ban_key(p), kk);
                            }
                            assert(k != i);
                        }
                    }
                    lemma_first_match_update(before, ban_key(provider@), i as int, b);
                }
            },
            None => {
                self.auto_bans.push(b);
                proof {
                    let after = self.auto_bans@;
                    assert(after == before.push(b));
                    assert forall|p: Seq<u8>| p != provider@ implies #[trigger] self.ban(p) == old(self).ban(p) by {
                        lemma_first_match_push(before, ban_key(p), b);
                        if first_match(before, ban_key(p)) is Some {
                            let k = first_match(before, ban_key(p))->0;
                            assert(after[k] == before[k]);
                        }
                    }
                    lemma_first_match_push(before, ban_key(provider@), b);
                }
            },
        }
    }

    /// How many times the provider was banned.
    pub open spec fn auto_ban_count_spec(&self, p: Seq<u8>) -> u32 {
        match self.ban(p) {
            Some(x) => x.count,
            None => 0,
        }
    }

    /// Use `reporter` for this node's own signals.
    pub fn set_reporter(&mut self, reporter: [u8; 32])
        ensures
            final(self).reporter_id() == Some(reporter),
            final(self).wf() == old(self).wf(),
            final(self).pending() == old(self).pending(),
            final(self).batch_limit() == old(self).batch_limit(),
            final(self).next_sequence() == old(self).next_sequence(),
            final(self).sequences() == old(self).sequences(),
            forall|p: Seq<u8>| #[trigger] final(self).stored(p) == old(self).stored(p) && final(self).ban(p) == old(self).ban(p),
    {
        self.reporter = Some(reporter);
    }

    fn enqueue(&mut self, signal: ProviderTrustSignal) -> (added: bool)
        requires
            old(self).wf(),
        ensures
            final(self).wf(),
            final(self).pending() == queued(old(self).pending(), old(self).batch_limit(), signal),
            added == !(exists|i: int|
                0 <= i < old(self).pending().len() && same_observation(#[trigger] old(self).pending()[i], signal)),
            final(self).batch_limit() == old(self).batch_limit(),
            final(self).reporter_id() == old(self).reporter_id(),
            final(self).next_sequence() == old(self).next_sequence(),
            final(self).sequences() == old(self).sequences(),
            forall|p: Seq<u8>| #[trigger] final(self).stored(p) == old(self).stored(p) && final(self).ban(p) == old(self).ban(p),
    {
        let mut i: usize = 0;
        while i < self.pending_signals.len()
            invariant
                i <= self.pending_signals@.len(),
                self.wf(),
                *self == *old(self),
                forall|j: int| 0 <= j < i ==> !same_observation(#[trigger] self.pending_signals@[j], signal),
            decreases self.pending_signals.len() - i,
        {
            if same_observation_exec(&self.pending_signals[i], &signal) {
                return false;
            }
            i += 1;
        }
        let ghost before = self.pending_signals@;
        if self.pending_signals.len() >= self.max_signal_batch {
            self.pending_signals.remove(0);
            assert(self.pending_signals@ =~= before.drop_first());
        }
        let ghost mid = self.pending_signals@;
        self.pending_signals.push(signal);
        proof {
            assert forall|a: int, b: int| 0 <= a < b < self.pending_signals@.len() implies !same_observation(
                #[trigger] self.pending_signals@[a],
                #[trigger] self.pending_signals@[b],
            ) by {
                if b == mid.len() {
                    if before.len() >= self.max_signal_batch {
                        assert(self.pending_signals@[a] == before[a + 1]);
                    } else {
                        assert(self.pending_signals@[a] == before[a]);
                    }
                } else if before.len() >= self.max_signal_batch {
                    assert(self.pending_signals@[a] == before[a + 1]);
                    assert(self.pending_signals@[b] == before[b + 1]);
                }
            }
        }
        true
    }

    /// Queue a valid signal, coalescing with a pending one of the same
    /// observation; the batch keeps its bound by dropping the oldest.
    pub fn queue_trust_signal(&mut self, signal: ProviderTrustSignal) -> (r: Result<bool>)
        requires
            old(self).wf(),
        ensures
            final(self).wf(),
            r is Ok <==> signal_fields_ok(signal),
            r is Err ==> final(self).pending() == old(self).pending(),
            r matches Ok(added) ==> final(self).pending() == queued(old(self).pending(), old(self).batch_limit(), signal)
                && added == !(exists|i: int|
                0 <= i < old(self).pending().len() && same_observation(#[trigger] old(self).pending()[i], signal)),
            final(self).batch_limit() == old(self).batch_limit(),
    {
        signal.validate()?;
        Ok(self.enqueue(signal))
    }

    /// Queue this node's own signal that `provider` turned reliable or
    /// unreliable at `now`, when a reporter is set; the signal takes the next
    /// own sequence.
    pub fn note_transition(&mut self, provider: [u8; 32], to_reliable: bool, now: u64) -> (queued_now: bool)
        requires
            old(self).wf(),
        ensures
            final(self).wf(),
            old(self).reporter_id() is None ==> !queued_now && final(self).pending() == old(self).pending()
                && final(self).next_sequence() == old(self).next_sequence(),
            old(self).reporter_id() matches Some(rep) ==> final(self).next_sequence() == bump64(old(self).next_sequence())
                && final(self).pending() == queued(
                old(self).pending(),
                old(self).batch_limit(),
                ProviderTrustSignal {
                    provider,
                    signal: if to_reliable {
                        TrustSignalKind::ObservedSuccess
                    } else {
                        TrustSignalKind::ObservedFailure
                    },
                    hash: None,
                    reporter: rep,
                    timestamp: now,
                    sequence: old(self).next_sequence(),
                    signature: None,
                },
            ),
            final(self).batch_limit() == old(self).batch_limit(),
            final(self).reporter_id() == old(self).reporter_id(),
            final(self).sequences() == old(self).sequences(),
    {
        match self.reporter {
            Some(reporter) => {
                let kind = if to_reliable {
                    TrustSignalKind::ObservedSuccess
                } else {
                    TrustSignalKind::ObservedFailure
                };
                let signal = ProviderTrustSignal {
                    provider,
                    signal: kind,
                    hash: None,
                    reporter,
                    timestamp: now,
                    sequence: self.next_signal_sequence,
                    signature: None,
                };
                self.next_signal_sequence = self.next_signal_sequence.saturating_add(1);
                self.enqueue(signal)
            },
            None => false,
        }
    }

    /// The signals waiting to be published, oldest first.
    pub fn pending_trust_signals(&self) -> (s: &[ProviderTrustSignal])
        ensures
            s@ == self.pending(),
    {
        self.pending_signals.as_slice()
    }

    /// Take the pending signals, leaving the batch empty.
    pub fn take_pending_trust_signals(&mut self) -> (v: Vec<ProviderTrustSignal>)
        requires
            old(self).wf(),
        ensures
            final(self).wf(),
            v@ == old(self).pending(),
            final(self).pending() == Seq::<ProviderTrustSignal>::empty(),
            final(self).batch_limit() == old(self).batch_limit(),
    {
        let mut taken: Vec<ProviderTrustSignal> = Vec::new();
        std::mem::swap(&mut taken, &mut self.pending_signals);
        taken
    }

    /// Bound the batch to `max_signal_batch` signals (at least one),
    /// dropping the oldest beyond it.
    pub fn set_max_signal_batch(&mut self, max_signal_batch: usize)
        requires
            old(self).wf(),
        ensures
            final(self).wf(),
            final(self).batch_limit() == if max_signal_batch < 1 {
                1
            } else {
                max_signal_batch
            },
            final(self).pending() == if old(self).pending().len() > final(self).batch_limit() {
                old(self).pending().subrange(
                    old(self).pending().len() - final(self).batch_limit(),
                    old(self).pending().len() as int,
                )
            } else {
                old(self).pending()
            },
    {
        self.max_signal_batch = if max_signal_batch < 1 {
            1
        } else {
            max_signal_batch
        };
        let len = self.pending_signals.len();
        let m = self.max_signal_batch;
        if len > m {
            let keep_from = len - m;
            let ghost before = self.pending_signals@;
            let mut k: usize = 0;
            while k < keep_from
                invariant
                    k <= keep_from,
                    keep_from < before.len(),
                    before.len() == len,
                    keep_from == len - m,
                    m >= 1,
                    self.pending_signals@ == before.subrange(k as int, before.len() as int),
                    self.max_signal_batch == m,
                    self.signal_sequences == old(self).signal_sequences,
                    old(self).wf(),
                    before == old(self).pending_signals@,
                decreases keep_from - k,
            {
                self.pending_signals.remove(0);
                k += 1;
                assert(self.pending_signals@ =~= before.subrange(k as int, before.len() as int));
            }
            proof {
                assert forall|a: int, b: int| 0 <= a < b < self.pending_signals@.len() implies !same_observation(
                    #[trigger] self.pending_signals@[a],
                    #[trigger] self.pending_signals@[b],
                ) by {
                    assert(self.pending_signals@[a] == before[a + keep_from]);
                    assert(self.pending_signals@[b] == before[b + keep_from]);
                }
            }
        }
    }

    /// Accept a signal's sequence for its reporter and provider when it is
    /// greater than the last accepted one.
    pub fn accept_signal_sequence(&mut self, reporter: [u8; 32], provider: [u8; 32], sequence: u64) -> (accepted: bool)
        requires
            old(self).wf(),
        ensures
            final(self).wf(),
            accepted == !(old(self).sequences().contains_key((reporter@, provider@)) && old(self).sequences()[(
                reporter@,
                provider@,
            )] >= sequence),
            accepted ==> final(self).sequences() == old(self).sequences().insert((reporter@, provider@), sequence),
            !accepted ==> final(self).sequences() == old(self).sequences(),
            final(self).pending() == old(self).pending(),
            final(self).batch_limit() == old(self).batch_limit(),
            forall|p: Seq<u8>| #[trigger] final(self).stored(p) == old(self).stored(p) && final(self).ban(p) == old(self).ban(p),
    {
        match self.signal_sequences.get(&reporter, &provider) {
            Some(last) => {
                if *last >= sequence {
                    return false;
                }
            },
            None => {},
        }
        self.signal_sequences.insert(reporter, provider, sequence);
        true
    }
}

/// The fetch outcome a trust signal reports: a success, or a failure of a
/// kind.
pub open spec fn signal_outcome(kind: TrustSignalKind) -> (bool, FetchFailureKind) {
    match kind {
        TrustSignalKind::ObservedSuccess => (true, FetchFailureKind::Unknown),
        TrustSignalKind::ObservedFailure => (false, FetchFailureKind::Unknown),
        TrustSignalKind::ObservedCorruption => (false, FetchFailureKind::Corruption),
    }
}

/// The reporter of the signal is trusted for its blob at its time.
pub open spec fn reporter_trusted(policy: TrustPolicy, s: ProviderTrustSignal) -> bool {
    policy.decision(
        hex_text(s.reporter@),
        match s.hash {
            Some(h) => Some(h@),
            None => None,
        },
        s.timestamp,
    ).is_trusted_spec()
}

impl ReputationLedger {
    /// Admit a signal received at `now`: it must verify; one from a reporter
    /// not trusted for its blob at its time, or whose sequence is not above
    /// the last accepted one of its reporter and provider, is ignored
    /// (`Ok(None)`); otherwise its sequence is accepted and the fetch
    /// outcome it reports is handed back, to be recorded.
    pub fn admit_trust_signal_at(
        &mut self,
        signal: &ProviderTrustSignal,
        unsigned: &[u8],
        policy: &TrustPolicy,
        now: u64,
    ) -> (r: Result<Option<(bool, FetchFailureKind)>>)
        requires
            old(self).wf(),
        ensures
            final(self).wf(),
            r is Ok <==> signal_fields_ok(*signal) && signal.timestamp <= now && now - signal.timestamp
                <= SIGNAL_TTL_SECS && text_signature_valid(
                signal_context(),
                unsigned@,
                hex_text(signal.reporter@),
                signal.signature,
            ),
            r matches Ok(Some(o)) ==> o == signal_outcome(signal.signal) && reporter_trusted(*policy, *signal)
                && final(self).sequences() == old(self).sequences().insert(
                (signal.reporter@, signal.provider@),
                signal.sequence,
            ),
            r matches Ok(o) ==> (o is Some <==> reporter_trusted(*policy, *signal) && !(old(
                self,
            ).sequences().contains_key((signal.reporter@, signal.provider@)) && old(self).sequences()[(
                signal.reporter@,
                signal.provider@,
            )] >= signal.sequence)),
            !(r matches Ok(Some(_))) ==> final(self).sequences() == old(self).sequences(),
            final(self).pending() == old(self).pending(),
            final(self).batch_limit() == old(self).batch_limit(),
            forall|p: Seq<u8>| #[trigger] final(self).stored(p) == old(self).stored(p) && final(self).ban(p) == old(self).ban(p),
    {
        signal.verify_at(unsigned, now)?;
        let reporter = crate::wot::author_id(&signal.reporter);
        let scope: Option<&[u8; 32]> = match &signal.hash {
            Some(h) => Some(h),
            None => None,
        };
        if !policy.is_trusted_for_at(reporter.as_str(), scope, signal.timestamp) {
            return Ok(None);
        }
        if !self.accept_signal_sequence(signal.reporter, signal.provider, signal.sequence) {
            return Ok(None);
        }
        let outcome = match signal.signal {
            TrustSignalKind::ObservedSuccess => (true, FetchFailureKind::Unknown),
            TrustSignalKind::ObservedFailure => (false, FetchFailureKind::Unknown),
            TrustSignalKind::ObservedCorruption => (false, FetchFailureKind::Corruption),
        };
        Ok(Some(outcome))
    }
}

/// Accepted signal sequences strictly increase: after an accepted sequence,
/// the same sequence or any lower one of the same reporter and provider is
/// refused.
pub proof fn law_signal_sequences_increase(
    before: Map<(Seq<u8>, Seq<u8>), u64>,
    reporter: Seq<u8>,
    provider: Seq<u8>,
    accepted: u64,
    later: u64,
)
    requires
        later <= accepted,
    ensures
        ({
            let after = before.insert((reporter, provider), accepted);
            after.contains_key((reporter, provider)) && after[(reporter, provider)] >= later
        }),
{
}

/// Queueing never grows the batch beyond its bound, and a queued
/// observation is pending afterwards.
pub proof fn law_queue_bounded(pending: Seq<ProviderTrustSignal>, limit: usize, s: ProviderTrustSignal)
    requires
        limit >= 1,
        pending.len() <= limit,
    ensures
        queued(pending, limit, s).len() <= limit,
        exists|i: int| 0 <= i < queued(pending, limit, s).len() && same_observation(#[trigger] queued(pending, limit, s)[i], s),
{
    let q = queued(pending, limit, s);
    if exists|i: int| 0 <= i < pending.len() && same_observation(#[trigger] pending[i], s) {
    } else {
        assert(q[q.len() - 1] == s);
        assert(same_observation(q[q.len() - 1], s));
    }
}

/// A reputation observed within `ttl` seconds of `now`.
pub open spec fn reputation_fresh(r: ProviderReputation, now: u64, ttl: u64) -> bool {
    last_activity_spec(r) matches Some(t) && crate::resilience::sat_sub_u64(now, t) <= ttl
}

/// A ban that is kept: still active, or counted.
pub open spec fn ban_kept(b: AutoBan, now: u64) -> bool {
    b.until > now || b.count > 0
}

impl ReputationLedger {
    /// The stored reputations, in insertion order.
    pub closed spec fn reputation_list(&self) -> Seq<ProviderReputation> {
        self.reputations@
    }

    /// The stored bans, in insertion order.
    pub closed spec fn ban_list(&self) -> Seq<AutoBan> {
        self.auto_bans@
    }

    /// Drop reputations not observed within `ttl_secs` of `now`, and bans
    /// that are neither active nor counted.
    pub fn purge_stale(&mut self, now: u64, ttl_secs: u64)
        requires
            old(self).wf(),
        ensures
            final(self).wf(),
            forall|r: ProviderReputation| #[trigger] final(self).reputation_list().contains(r) <==> old(
                self,
            ).reputation_list().contains(r) && reputation_fresh(r, now, ttl_secs),
            forall|b: AutoBan| #[trigger] final(self).ban_list().contains(b) <==> old(self).ban_list().contains(b)
                && ban_kept(b, now),
            final(self).sequences() == old(self).sequences(),
            final(self).pending() == old(self).pending(),
            final(self).batch_limit() == old(self).batch_limit(),
    {
        let mut kept: Vec<ProviderReputation> = Vec::new();
        let mut i: usize = 0;
        while i < self.reputations.len()
            invariant
                i <= self.reputations@.len(),
                forall|r: ProviderReputation| #[trigger] kept@.contains(r) <==> self.reputations@.take(i as int).contains(r)
                    && reputation_fresh(r, now, ttl_secs),
            decreases self.reputations.len() - i,
        {
            let r = self.reputations[i];
            let fresh = match r.last_activity() {
                Some(t) => now.saturating_sub(t) <= ttl_secs,
                None => false,
            };
            let ghost before = kept@;
            if fresh {
                kept.push(r);
            }
            proof {
                let pre = self.reputations@.take(i as int);
                assert(self.reputations@.take(i + 1) =~= pre.push(r));
                crate::resilience::lemma_push_contains(pre, r);
                crate::resilience::lemma_push_contains(before, r);
            }
            i += 1;
        }
        assert(self.reputations@.take(self.reputations@.len() as int) =~= self.reputations@);
        let mut bans: Vec<AutoBan> = Vec::new();
        let mut j: usize = 0;
        while j < self.auto_bans.len()
            invariant
                j <= self.auto_bans@.len(),
                forall|b: AutoBan| #[trigger] bans@.contains(b) <==> self.auto_bans@.take(j as int).contains(b) && ban_kept(
                    b,
                    now,
                ),
            decreases self.auto_bans.len() - j,
        {
            let b = self.auto_bans[j];
            let ghost before = bans@;
            if b.until > now || b.count > 0 {
                bans.push(b);
            }
            proof {
                let pre = self.auto_bans@.take(j as int);
                assert(self.auto_bans@.take(j + 1) =~= pre.push(b));
                crate::resilience::lemma_push_contains(pre, b);
                crate::resilience::lemma_push_contains(before, b);
            }
            j += 1;
        }
        assert(self.auto_bans@.take(self.auto_bans@.len() as int) =~= self.auto_bans@);
        self.reputations = kept;
        self.auto_bans = bans;
    }
}

/// The last activity of a reputation is its latest observation: none when
/// it has neither a success nor a failure, else one of the two times and
/// no earlier than either.
pub proof fn law_last_activity_is_latest(r: ProviderReputation)
    ensures
        last_activity_spec(r) is None <==> (r.last_success_at is None && r.last_failure_at is None),
        last_activity_spec(r) matches Some(t) ==> {
            &&& (r.last_success_at matches Some(a) ==> a <= t)
            &&& (r.last_failure_at matches Some(b) ==> b <= t)
            &&& (r.last_success_at == Some(t) || r.last_failure_at == Some(t))
        },
{
}

/// A reputation survives a purge at `now` with `ttl` exactly when it was
/// observed, by a success or by a failure, at most `ttl` seconds before
/// `now` (or later than `now`).
pub proof fn law_purge_keeps_recently_observed(r: ProviderReputation, now: u64, ttl: u64)
    ensures
        reputation_fresh(r, now, ttl) <==> ((r.last_success_at matches Some(a) && now <= a + ttl) || (
        r.last_failure_at matches Some(b) && now <= b + ttl)),
{
}

} // verus!
