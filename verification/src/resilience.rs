//! Provider failure classification, signed provider leases, the tracker of
//! leases, observations and failures, consistent-hash provider selection and
//! deterministic fetch jitter.
//!
//! Blob hashes and provider identities are 32-byte strings.
use vstd::prelude::*;

use crate::crypto::{
    blake3_digest, blake3_hash, ed25519_accepts, ed25519_key_is_valid, ed25519_key_valid,
    ed25519_public_key, ed25519_public_of, ed25519_sign, ed25519_signature_of, ed25519_verify,
    hex_bytes, hex_decode, hex_encode, hex_text,
};
use crate::pairmap::PairMap;
use crate::error::{error_text, Result, SyncwebError};
use crate::text::{chars_of, contains_chars, contains_seq, lower, lower_chars};

verus! {

/// Seconds that a failure record is kept after its last failure.
pub const DEFAULT_FAILURE_TTL_SECS: u64 = 86400;

/// Failure details kept per blob and provider unless configured otherwise.
pub const DEFAULT_MAX_FAILURES_PER_PROVIDER: usize = 128;

/// Consecutive definitive failures after which a provider is written off.
pub const DEFINITIVE_FAILURE_THRESHOLD: u32 = 3;

/// Bytes read from a provider stream at a time.
pub const STREAM_VALIDATION_CHUNK_SIZE: usize = 65536;

/// The broad cause of a failed provider fetch.
#[derive(Clone, Copy, Debug, PartialEq, Eq, Structural, Hash)]
pub enum FetchFailureKind {
    NotFound,
    ConnectionRefused,
    Timeout,
    Corruption,
    Unknown,
}

/// The kind a lower-cased error message names, by the first group of
/// phrases it contains.
pub open spec fn classify_text(t: Seq<char>) -> FetchFailureKind {
    if contains_seq(t, "not found"@) || contains_seq(t, "does not exist"@) || contains_seq(
        t,
        "no such file"@,
    ) || contains_seq(t, "missing blob"@) || contains_seq(t, "unknown hash"@) || contains_seq(
        t,
        "404"@,
    ) {
        FetchFailureKind::NotFound
    } else if contains_seq(t, "hash mismatch"@) || contains_seq(t, "checksum mismatch"@)
        || contains_seq(t, "integrity"@) || contains_seq(t, "corrupt"@) || contains_seq(
        t,
        "invalid data"@,
    ) {
        FetchFailureKind::Corruption
    } else if contains_seq(t, "connection refused"@) || contains_seq(t, "connection reset"@)
        || contains_seq(t, "network is unreachable"@) || contains_seq(t, "no route to host"@)
        || contains_seq(t, "unreachable"@) {
        FetchFailureKind::ConnectionRefused
    } else if contains_seq(t, "timed out"@) || contains_seq(t, "timeout"@) || contains_seq(
        t,
        "deadline exceeded"@,
    ) {
        FetchFailureKind::Timeout
    } else {
        FetchFailureKind::Unknown
    }
}

/// The kind an error's text names.
pub open spec fn classify_error(e: SyncwebError) -> FetchFailureKind {
    classify_text(lower(error_text(e)))
}

pub open spec fn kind_definitive(k: FetchFailureKind) -> bool {
    k is NotFound || k is Corruption
}

/// An error message that contains, in any ASCII case, one of the phrases
/// naming missing content ("not found", "does not exist", "no such file",
/// "missing blob", "unknown hash", "404") is a not-found failure, which is
/// definitive, whatever else the message says; a message that contains
/// none of them is never classified as not found.
pub proof fn law_not_found_phrases_are_not_found(message: Seq<char>)
    ensures
        ({
            let t = lower(message);
            contains_seq(t, "not found"@) || contains_seq(t, "does not exist"@) || contains_seq(t, "no such file"@)
                || contains_seq(t, "missing blob"@) || contains_seq(t, "unknown hash"@) || contains_seq(t, "404"@)
        }) <==> classify_text(lower(message)) == FetchFailureKind::NotFound,
        contains_seq(lower(message), "does not exist"@) ==> kind_definitive(classify_text(lower(message))),
{
}

/// An error message that names no missing content but contains, in any
/// ASCII case, a phrase of damaged data ("hash mismatch", "checksum
/// mismatch", "integrity", "corrupt", "invalid data") is a corruption
/// failure, which is definitive.
pub proof fn law_corruption_phrases_are_corruption(message: Seq<char>)
    requires
        classify_text(lower(message)) != FetchFailureKind::NotFound,
        ({
            let t = lower(message);
            contains_seq(t, "hash mismatch"@) || contains_seq(t, "checksum mismatch"@) || contains_seq(t, "integrity"@)
                || contains_seq(t, "corrupt"@) || contains_seq(t, "invalid data"@)
        }),
    ensures
        classify_text(lower(message)) == FetchFailureKind::Corruption,
        kind_definitive(classify_text(lower(message))),
{
}

/// A message that names neither missing content nor damaged data is a
/// connection failure when it contains "connection refused", "connection
/// reset", "network is unreachable", "no route to host" or "unreachable";
/// failing those, a timeout when it contains "timed out", "timeout" or
/// "deadline exceeded"; and otherwise of unknown kind. None of these is
/// definitive.
pub proof fn law_transient_phrases(message: Seq<char>)
    requires
        classify_text(lower(message)) != FetchFailureKind::NotFound,
        classify_text(lower(message)) != FetchFailureKind::Corruption,
    ensures
        ({
            let t = lower(message);
            contains_seq(t, "connection refused"@) || contains_seq(t, "connection reset"@) || contains_seq(
                t,
                "network is unreachable"@,
            ) || contains_seq(t, "no route to host"@) || contains_seq(t, "unreachable"@)
        }) <==> classify_text(lower(message)) == FetchFailureKind::ConnectionRefused,
        classify_text(lower(message)) != FetchFailureKind::ConnectionRefused ==> (({
            let t = lower(message);
            contains_seq(t, "timed out"@) || contains_seq(t, "timeout"@) || contains_seq(t, "deadline exceeded"@)
        }) <==> classify_text(lower(message)) == FetchFailureKind::Timeout),
        !kind_definitive(classify_text(lower(message))),
{
}

fn has(t: &[char], phrase: &str) -> (b: bool)
    ensures
        b == contains_seq(t@, phrase@),
{
    contains_chars(t, &chars_of(phrase))
}

fn classify_chars(t: &[char]) -> (k: FetchFailureKind)
    ensures
        k == classify_text(t@),
{
    if has(t, "not found") || has(t, "does not exist") || has(t, "no such file") || has(
        t,
        "missing blob",
    ) || has(t, "unknown hash") || has(t, "404") {
        return FetchFailureKind::NotFound;
    }
    if has(t, "hash mismatch") || has(t, "checksum mismatch") || has(t, "integrity") || has(
        t,
        "corrupt",
    ) || has(t, "invalid data") {
        return FetchFailureKind::Corruption;
    }
    if has(t, "connection refused") || has(t, "connection reset") || has(
        t,
        "network is unreachable",
    ) || has(t, "no route to host") || has(t, "unreachable") {
        return FetchFailureKind::ConnectionRefused;
    }
    if has(t, "timed out") || has(t, "timeout") || has(t, "deadline exceeded") {
        return FetchFailureKind::Timeout;
    }
    FetchFailureKind::Unknown
}

impl FetchFailureKind {
    /// Classify an error by the phrases of its text.
    pub fn from_syncweb_error(error: &SyncwebError) -> (k: FetchFailureKind)
        ensures
            k == classify_error(*error),
    {
        let text = error.to_string();
        Self::from_message(text.as_str())
    }

    /// Same as [`Self::from_syncweb_error`].
    pub fn classify(error: &SyncwebError) -> (k: FetchFailureKind)
        ensures
            k == classify_error(*error),
    {
        Self::from_syncweb_error(error)
    }

    /// Same as [`Self::from_syncweb_error`].
    pub fn from_error(error: &SyncwebError) -> (k: FetchFailureKind)
        ensures
            k == classify_error(*error),
    {
        Self::from_syncweb_error(error)
    }

    /// Classify an error message, ignoring ASCII case: not-found phrases
    /// first, then corruption, then connection, then timeout phrases.
    pub fn from_message(message: &str) -> (k: FetchFailureKind)
        ensures
            k == classify_text(lower(message@)),
    {
        let t = lower_chars(&chars_of(message));
        classify_chars(&t)
    }

    /// A failure that retrying the same provider will not mend.
    pub fn is_definitive(self) -> (b: bool)
        ensures
            b == kind_definitive(self),
    {
        match self {
            FetchFailureKind::NotFound | FetchFailureKind::Corruption => true,
            _ => false,
        }
    }

    pub fn is_transient(self) -> (b: bool)
        ensures
            b == !kind_definitive(self),
    {
        !self.is_definitive()
    }
}

/// A provider-specific failure observed while fetching one blob.
#[derive(Debug)]
pub struct FetchFailure {
    pub kind: FetchFailureKind,
    pub provider: [u8; 32],
    pub hash: [u8; 32],
    pub timestamp: u64,
    pub error_detail: String,
}

impl Clone for FetchFailure {
    fn clone(&self) -> (r: Self)
        ensures
            r == *self,
    {
        FetchFailure {
            kind: self.kind,
            provider: self.provider,
            hash: self.hash,
            timestamp: self.timestamp,
            error_detail: self.error_detail.clone(),
        }
    }
}

impl FetchFailure {
    /// A failure with an explicit timestamp.
    pub fn new_at(
        kind: FetchFailureKind,
        provider: [u8; 32],
        hash: [u8; 32],
        timestamp: u64,
        error_detail: &str,
    ) -> (f: FetchFailure)
        ensures
            f.kind == kind,
            f.provider == provider,
            f.hash == hash,
            f.timestamp == timestamp,
            f.error_detail@ == error_detail@,
    {
        FetchFailure { kind, provider, hash, timestamp, error_detail: error_detail.to_string() }
    }

    /// A failure timestamped with the current epoch time.
    pub fn new(kind: FetchFailureKind, provider: [u8; 32], hash: [u8; 32], error_detail: &str) -> (f:
        FetchFailure)
        ensures
            f.kind == kind,
            f.provider == provider,
            f.hash == hash,
            f.error_detail@ == error_detail@,
    {
        Self::new_at(kind, provider, hash, crate::clock::current_epoch_seconds(), error_detail)
    }

    /// A failure classified from an error, timestamped now.
    pub fn from_syncweb_error(provider: [u8; 32], hash: [u8; 32], error: &SyncwebError) -> (f:
        FetchFailure)
        ensures
            f.kind == classify_error(*error),
            f.provider == provider,
            f.hash == hash,
            f.error_detail@ == error_text(*error),
    {
        let text = error.to_string();
        Self::new(FetchFailureKind::from_syncweb_error(error), provider, hash, text.as_str())
    }

    /// Same as [`Self::from_syncweb_error`].
    pub fn from_error(provider: [u8; 32], hash: [u8; 32], error: &SyncwebError) -> (f: FetchFailure)
        ensures
            f.kind == classify_error(*error),
            f.provider == provider,
            f.hash == hash,
            f.error_detail@ == error_text(*error),
    {
        Self::from_syncweb_error(provider, hash, error)
    }
}

/// The checks of a bounded fetch: a provider stream must deliver exactly
/// `expected_size` bytes, read in chunks of at most
/// [`STREAM_VALIDATION_CHUNK_SIZE`], whose BLAKE3 digest is the expected
/// hash.
///
/// The reader drives it: it asks [`Self::next_read_len`] how much to read,
/// hands each chunk read to [`Self::record_read`], which hashes it, then
/// reads one more byte and reports it with [`Self::check_trailing`], and
/// finally asks [`Self::check_digest`].
pub struct BoundedFetch {
    pub remaining: u64,
    pub expected_hash: [u8; 32],
    pub hasher: blake3::Hasher,
}

impl BoundedFetch {
    /// The bytes read so far, in order.
    pub open spec fn data_read(&self) -> Seq<u8> {
        crate::crypto::hasher_input(self.hasher)
    }

    pub fn new(expected_size: u64, expected_hash: [u8; 32]) -> (b: BoundedFetch)
        ensures
            b.remaining == expected_size,
            b.expected_hash == expected_hash,
            b.data_read() == Seq::<u8>::empty(),
    {
        BoundedFetch { remaining: expected_size, expected_hash, hasher: crate::crypto::blake3_hasher_new() }
    }

    /// Whether the expected bytes have all been read.
    pub fn is_complete(&self) -> (b: bool)
        ensures
            b == (self.remaining == 0),
    {
        self.remaining == 0
    }

    /// How many bytes to read next: the rest, up to one chunk.
    pub fn next_read_len(&self) -> (n: usize)
        ensures
            n as int == if self.remaining < STREAM_VALIDATION_CHUNK_SIZE as u64 {
                self.remaining as int
            } else {
                STREAM_VALIDATION_CHUNK_SIZE as int
            },
    {
        if self.remaining < STREAM_VALIDATION_CHUNK_SIZE as u64 {
            self.remaining as usize
        } else {
            STREAM_VALIDATION_CHUNK_SIZE
        }
    }

    /// Account for the bytes `data` just read and hash them; reading
    /// nothing before the expected size is reached means the stream is
    /// truncated.
    pub fn record_read(&mut self, data: &[u8]) -> (r: Result<()>)
        ensures
            r is Err <==> (data@.len() == 0 && old(self).remaining > 0),
            r is Err ==> r->Err_0 is Operation && *final(self) == *old(self),
            r is Ok ==> final(self).remaining == (if old(self).remaining < data@.len() {
                0
            } else {
                old(self).remaining - data@.len()
            }),
            r is Ok ==> final(self).data_read() == old(self).data_read() + data@,
            final(self).expected_hash == old(self).expected_hash,
    {
        let read = data.len();
        if read == 0 && self.remaining > 0 {
            return Err(
                SyncwebError::operation(
                    "fetched blob validation failed",
                    "provider stream is truncated",
                ),
            );
        }
        let n = read as u64;
        self.remaining = if self.remaining < n {
            0
        } else {
            self.remaining - n
        };
        crate::crypto::blake3_hasher_update(&mut self.hasher, data);
        Ok(())
    }

    /// After the expected bytes, a read of one more byte must find nothing.
    pub fn check_trailing(&self, read: usize) -> (r: Result<()>)
        ensures
            r is Ok <==> read == 0,
            r is Err ==> r->Err_0 is Operation,
    {
        if read != 0 {
            return Err(
                SyncwebError::operation(
                    "fetched blob validation failed",
                    "provider stream exceeds expected size",
                ),
            );
        }
        Ok(())
    }

    /// The digest of the data read must be the expected hash.
    pub fn check_digest(&self) -> (r: Result<()>)
        ensures
            r is Ok <==> blake3_digest(self.data_read()) == self.expected_hash@,
            r is Err ==> r->Err_0 is Operation,
    {
        let actual = crate::crypto::blake3_hasher_finalize(&self.hasher);
        if !bytes_eq(&actual, &self.expected_hash) {
            return Err(
                SyncwebError::operation(
                    "fetched blob validation failed",
                    "provider stream hash mismatch",
                ),
            );
        }
        Ok(())
    }
}

/// Equality of two byte strings.
pub fn bytes_eq(a: &[u8], b: &[u8]) -> (r: bool)
    ensures
        r == (a@ == b@),
{
    if a.len() != b.len() {
        return false;
    }
    let mut i: usize = 0;
    while i < a.len()
        invariant
            i <= a.len(),
            a.len() == b.len(),
            forall|k: int| 0 <= k < i ==> a@[k] == b@[k],
        decreases a.len() - i,
    {
        if a[i] != b[i] {
            return false;
        }
        i += 1;
    }
    assert(a@ =~= b@);
    true
}

/// Byte-wise exclusive or of two equally long strings.
pub open spec fn xor_bytes(a: Seq<u8>, b: Seq<u8>) -> Seq<u8> {
    Seq::new(a.len(), |i: int| a[i] ^ b[i])
}

/// The XOR distance between a blob hash and a provider identity.
pub fn xor_distance(hash: &[u8; 32], provider: &[u8; 32]) -> (d: [u8; 32])
    ensures
        d@ == xor_bytes(hash@, provider@),
{
    let mut d: [u8; 32] = [0u8; 32];
    let mut i: usize = 0;
    while i < 32
        invariant
            i <= 32,
            d@.len() == 32,
            forall|k: int| 0 <= k < i ==> d@[k] == hash@[k] ^ provider@[k],
        decreases 32 - i,
    {
        d[i] = hash[i] ^ provider[i];
        i += 1;
    }
    assert(d@ =~= xor_bytes(hash@, provider@));
    d
}

/// `a` is below `b` at index `i`: equal before it, smaller at it.
pub open spec fn bytes_lt_at(a: Seq<u8>, b: Seq<u8>, i: int) -> bool {
    0 <= i < a.len() && i < b.len() && a.subrange(0, i) == b.subrange(0, i) && a[i] < b[i]
}

/// Lexicographic order of equally long byte strings.
pub open spec fn bytes_lt(a: Seq<u8>, b: Seq<u8>) -> bool {
    exists|i: int| #[trigger] bytes_lt_at(a, b, i)
}

/// Whether `a` sorts before `b` (both of the same length).
pub fn bytes_less(a: &[u8], b: &[u8]) -> (r: bool)
    requires
        a.len() == b.len(),
    ensures
        r == bytes_lt(a@, b@),
{
    let mut i: usize = 0;
    while i < a.len()
        invariant
            i <= a.len(),
            a.len() == b.len(),
            a@.subrange(0, i as int) == b@.subrange(0, i as int),
        decreases a.len() - i,
    {
        if a[i] != b[i] {
            if a[i] < b[i] {
                assert(bytes_lt_at(a@, b@, i as int));
                return true;
            }
            assert forall|k: int| !bytes_lt_at(a@, b@, k) by {
                if bytes_lt_at(a@, b@, k) {
                    if k < i {
                        assert(a@.subrange(0, i as int)[k] == b@.subrange(0, i as int)[k]);
                    } else if k > i {
                        assert(a@.subrange(0, k)[i as int] == b@.subrange(0, k)[i as int]);
                    }
                }
            }
            return false;
        }
        assert(a@.subrange(0, i + 1) =~= a@.subrange(0, i as int).push(a@[i as int]));
        assert(b@.subrange(0, i + 1) =~= b@.subrange(0, i as int).push(b@[i as int]));
        i += 1;
    }
    assert forall|k: int| !bytes_lt_at(a@, b@, k) by {
        if bytes_lt_at(a@, b@, k) {
            assert(a@.subrange(0, i as int)[k] == b@.subrange(0, i as int)[k]);
        }
    }
    false
}

/// Lexicographic order is transitive.
pub proof fn lemma_bytes_lt_transitive(a: Seq<u8>, b: Seq<u8>, c: Seq<u8>)
    requires
        a.len() == b.len() == c.len(),
        bytes_lt(a, b),
        bytes_lt(b, c),
    ensures
        bytes_lt(a, c),
{
    let i = choose|i: int| bytes_lt_at(a, b, i);
    let j = choose|j: int| bytes_lt_at(b, c, j);
    if i < j {
        assert(b.subrange(0, j)[i] == c.subrange(0, j)[i]);
        assert(a.subrange(0, i) =~= c.subrange(0, i)) by {
            assert forall|k: int| 0 <= k < i implies a.subrange(0, i)[k] == c.subrange(0, i)[k] by {
                assert(a.subrange(0, i)[k] == b.subrange(0, i)[k]);
                assert(b.subrange(0, j)[k] == c.subrange(0, j)[k]);
            }
        }
        assert(bytes_lt_at(a, c, i));
    } else if j < i {
        assert(a.subrange(0, i)[j] == b.subrange(0, i)[j]);
        assert(a.subrange(0, j) =~= c.subrange(0, j)) by {
            assert forall|k: int| 0 <= k < j implies a.subrange(0, j)[k] == c.subrange(0, j)[k] by {
                assert(a.subrange(0, i)[k] == b.subrange(0, i)[k]);
                assert(b.subrange(0, j)[k] == c.subrange(0, j)[k]);
            }
        }
        assert(bytes_lt_at(a, c, j));
    } else {
        assert(a.subrange(0, i) =~= c.subrange(0, i));
        assert(bytes_lt_at(a, c, i));
    }
}

proof fn lemma_bytes_lt_total_from(a: Seq<u8>, b: Seq<u8>, k: int)
    requires
        a.len() == b.len(),
        0 <= k <= a.len(),
        a.subrange(0, k) == b.subrange(0, k),
        a != b,
    ensures
        bytes_lt(a, b) || bytes_lt(b, a),
    decreases a.len() - k,
{
    if k == a.len() {
        assert(a =~= a.subrange(0, k));
        assert(b =~= b.subrange(0, k));
    } else if a[k] == b[k] {
        assert(a.subrange(0, k + 1) =~= a.subrange(0, k).push(a[k]));
        assert(b.subrange(0, k + 1) =~= b.subrange(0, k).push(b[k]));
        lemma_bytes_lt_total_from(a, b, k + 1);
    } else if a[k] < b[k] {
        assert(bytes_lt_at(a, b, k));
    } else {
        assert(bytes_lt_at(b, a, k));
    }
}

/// Lexicographic order is total on distinct strings of one length.
pub proof fn lemma_bytes_lt_total(a: Seq<u8>, b: Seq<u8>)
    requires
        a.len() == b.len(),
        a != b,
    ensures
        bytes_lt(a, b) || bytes_lt(b, a),
{
    assert(a.subrange(0, 0) =~= b.subrange(0, 0));
    lemma_bytes_lt_total_from(a, b, 0);
}

/// Lexicographic order is irreflexive.
pub proof fn lemma_bytes_lt_irreflexive(a: Seq<u8>)
    ensures
        !bytes_lt(a, a),
{
}

/// The order in which providers are chosen for a blob: by XOR distance to
/// the hash, then by identity.
pub open spec fn selection_key(hash: Seq<u8>, p: Seq<u8>) -> Seq<u8> {
    xor_bytes(hash, p) + p
}

/// The views of a list of identities.
pub open spec fn views32(s: Seq<[u8; 32]>) -> Seq<Seq<u8>> {
    s.map_values(|p: [u8; 32]| p@)
}

/// The list without repeats, each kept at its first occurrence.
pub open spec fn dedup(s: Seq<Seq<u8>>) -> Seq<Seq<u8>>
    decreases s.len(),
{
    if s.len() == 0 {
        seq![]
    } else {
        let d = dedup(s.drop_last());
        if d.contains(s.last()) {
            d
        } else {
            d.push(s.last())
        }
    }
}

proof fn lemma_dedup(s: Seq<Seq<u8>>)
    ensures
        dedup(s).no_duplicates(),
        forall|x: Seq<u8>| dedup(s).contains(x) <==> s.contains(x),
        dedup(s).len() <= s.len(),
    decreases s.len(),
{
    if s.len() > 0 {
        let t = s.drop_last();
        let l = s.last();
        lemma_dedup(t);
        let d = dedup(t);
        assert forall|x: Seq<u8>| s.contains(x) <==> (t.contains(x) || x == l) by {
            if s.contains(x) {
                let i = choose|i: int| 0 <= i < s.len() && s[i] == x;
                if i < t.len() {
                    assert(t[i] == x);
                }
            }
            if t.contains(x) {
                let i = choose|i: int| 0 <= i < t.len() && t[i] == x;
                assert(s[i] == x);
            }
            if x == l {
                assert(s[s.len() - 1] == x);
            }
        }
        if !d.contains(l) {
            let e = d.push(l);
            assert forall|x: Seq<u8>| e.contains(x) <==> (d.contains(x) || x == l) by {
                if e.contains(x) {
                    let i = choose|i: int| 0 <= i < e.len() && e[i] == x;
                    if i < d.len() {
                        assert(d[i] == x);
                    }
                }
                if d.contains(x) {
                    let i = choose|i: int| 0 <= i < d.len() && d[i] == x;
                    assert(e[i] == x);
                }
                if x == l {
                    assert(e[d.len() as int] == x);
                }
            }
            assert forall|a: int, b: int| 0 <= a < b < e.len() implies e[a] != e[b] by {
                if b == d.len() {
                    assert(d.contains(e[a]));
                }
            }
        }
    }
}

/// The list without repeats holds each element of the list once.
pub proof fn lemma_dedup_props(s: Seq<Seq<u8>>)
    ensures
        dedup(s).no_duplicates(),
        forall|x: Seq<u8>| dedup(s).contains(x) <==> s.contains(x),
{
    lemma_dedup(s);
}

pub(crate) fn contains_id(v: &Vec<[u8; 32]>, p: &[u8; 32]) -> (b: bool)
    ensures
        b == views32(v@).contains(p@),
{
    let mut i: usize = 0;
    while i < v.len()
        invariant
            i <= v.len(),
            forall|k: int| 0 <= k < i ==> v@[k]@ != p@,
        decreases v.len() - i,
    {
        if bytes_eq(&v[i], p) {
            assert(views32(v@)[i as int] == p@);
            return true;
        }
        i += 1;
    }
    assert forall|k: int| 0 <= k < views32(v@).len() implies views32(v@)[k] != p@ by {
        assert(views32(v@)[k] == v@[k]@);
    }
    false
}

pub fn dedup_ids(providers: &[[u8; 32]]) -> (r: Vec<[u8; 32]>)
    ensures
        views32(r@) == dedup(views32(providers@)),
{
    let ghost ps = views32(providers@);
    let mut r: Vec<[u8; 32]> = Vec::new();
    let mut i: usize = 0;
    while i < providers.len()
        invariant
            i <= providers.len(),
            ps == views32(providers@),
            views32(r@) == dedup(ps.subrange(0, i as int)),
        decreases providers.len() - i,
    {
        let p = providers[i];
        proof {
            assert(ps.subrange(0, i + 1).drop_last() =~= ps.subrange(0, i as int));
            assert(ps.subrange(0, i + 1).last() == p@);
        }
        if !contains_id(&r, &p) {
            r.push(p);
            assert(views32(r@) =~= views32(r@.drop_last()).push(p@));
        }
        i += 1;
    }
    assert(ps.subrange(0, ps.len() as int) =~= ps);
    r
}

pub open spec fn opt_id(base: Option<&[u8; 32]>) -> Option<Seq<u8>> {
    match base {
        Some(h) => Some(h@),
        None => None,
    }
}

/// The sort key of an identity: its selection key for a blob, or itself.
pub open spec fn order_key(base: Option<Seq<u8>>, p: Seq<u8>) -> Seq<u8> {
    match base {
        Some(h) => selection_key(h, p),
        None => p,
    }
}

fn key_of(base: Option<&[u8; 32]>, p: &[u8; 32]) -> (k: Vec<u8>)
    ensures
        k@ == order_key(opt_id(base), p@),
{
    let hash = match base {
        Some(h) => h,
        None => {
            let mut k: Vec<u8> = Vec::new();
            let mut i: usize = 0;
            while i < 32
                invariant
                    i <= 32,
                    k@ == p@.subrange(0, i as int),
                decreases 32 - i,
            {
                k.push(p[i]);
                i += 1;
                assert(k@ =~= p@.subrange(0, i as int));
            }
            assert(p@.subrange(0, 32) =~= p@);
            return k;
        },
    };
    let d = xor_distance(hash, p);
    let mut k: Vec<u8> = Vec::new();
    let mut i: usize = 0;
    while i < 32
        invariant
            i <= 32,
            k@ == d@.subrange(0, i as int),
        decreases 32 - i,
    {
        k.push(d[i]);
        i += 1;
        assert(k@ =~= d@.subrange(0, i as int));
    }
    let mut j: usize = 0;
    while j < 32
        invariant
            j <= 32,
            k@ == d@ + p@.subrange(0, j as int),
        decreases 32 - j,
    {
        k.push(p[j]);
        j += 1;
        assert(k@ =~= d@ + p@.subrange(0, j as int));
    }
    assert(p@.subrange(0, 32) =~= p@);
    k
}

/// Identities sort apart by their keys, since a key ends with the
/// identity itself.
proof fn lemma_keys_distinct(base: Option<Seq<u8>>, a: Seq<u8>, b: Seq<u8>)
    requires
        base matches Some(h) ==> h.len() == 32,
        a.len() == 32,
        b.len() == 32,
        a != b,
    ensures
        order_key(base, a) != order_key(base, b),
        order_key(base, a).len() == order_key(base, b).len(),
{
    if let Some(hash) = base {
        let ka = selection_key(hash, a);
        let kb = selection_key(hash, b);
        assert(ka.subrange(32, 64) =~= a);
        assert(kb.subrange(32, 64) =~= b);
    }
}

/// A duplicate-free list of the same length as another duplicate-free
/// list, and holding only its elements, holds all of them.
proof fn lemma_missing_means_shorter(ps: Seq<Seq<u8>>, rs: Seq<Seq<u8>>, x: Seq<u8>)
    requires
        ps.no_duplicates(),
        rs.no_duplicates(),
        forall|i: int| 0 <= i < rs.len() ==> ps.contains(#[trigger] rs[i]),
        ps.contains(x),
        !rs.contains(x),
    ensures
        rs.len() < ps.len(),
{
    assert(rs.to_set().subset_of(ps.to_set().remove(x))) by {
        assert forall|y: Seq<u8>| rs.to_set().contains(y) implies ps.to_set().remove(x).contains(y) by {
            let i = choose|i: int| 0 <= i < rs.len() && rs[i] == y;
            assert(ps.contains(rs[i]));
        }
    }
    rs.unique_seq_to_set();
    ps.unique_seq_to_set();
    vstd::set_lib::lemma_len_subset(rs.to_set(), ps.to_set().remove(x));
}

/// `rs` holds the `count` candidates of `ps` with the smallest selection
/// keys for `hash`, smallest first; repeats in `ps` count once.
pub open spec fn selection_spec(hash: Seq<u8>, ps: Seq<Seq<u8>>, count: usize, rs: Seq<Seq<u8>>) -> bool {
    let n = dedup(ps).len();
    &&& rs.len() == if count < n {
        count as nat
    } else {
        n
    }
    &&& rs.no_duplicates()
    &&& forall|i: int| 0 <= i < rs.len() ==> ps.contains(#[trigger] rs[i])
    &&& forall|i: int, j: int|
        0 <= i < j < rs.len() ==> bytes_lt(
            selection_key(hash, #[trigger] rs[i]),
            selection_key(hash, #[trigger] rs[j]),
        )
    &&& forall|u: Seq<u8>, i: int|
        #![trigger ps.contains(u), rs[i]]
        ps.contains(u) && !rs.contains(u) && 0 <= i < rs.len() ==> bytes_lt(
            selection_key(hash, rs[i]),
            selection_key(hash, u),
        )
}

/// The `count` providers closest to a blob's hash, closest first.
///
/// Providers are ordered by the XOR distance between hash and identity,
/// compared as bytes, then by identity; repeats count once.
pub fn consistent_hashing_selection(hash: &[u8; 32], providers: &[[u8; 32]], count: usize) -> (r:
    Vec<[u8; 32]>)
    ensures
        selection_spec(hash@, views32(providers@), count, views32(r@)),
{
    let unique = dedup_ids(providers);
    proof {
        lemma_dedup(views32(providers@));
    }
    let r = select_smallest(Some(hash), unique, count);
    proof {
        let ps = views32(providers@);
        let us = dedup(ps);
        let rs = views32(r@);
        assert forall|u: Seq<u8>, i: int|
            #![trigger ps.contains(u), rs[i]]
            ps.contains(u) && !rs.contains(u) && 0 <= i < rs.len() implies bytes_lt(
            selection_key(hash@, rs[i]),
            selection_key(hash@, u),
        ) by {
            assert(us.contains(u));
        }
        assert forall|i: int| 0 <= i < rs.len() implies ps.contains(#[trigger] rs[i]) by {
            assert(us.contains(rs[i]));
        }
    }
    r
}

/// Identities in ascending byte order.
pub fn sort_ids(ids: Vec<[u8; 32]>) -> (r: Vec<[u8; 32]>)
    requires
        views32(ids@).no_duplicates(),
    ensures
        views32(r@).len() == views32(ids@).len(),
        views32(r@).no_duplicates(),
        forall|x: Seq<u8>| views32(r@).contains(x) <==> views32(ids@).contains(x),
        forall|i: int, j: int|
            0 <= i < j < r@.len() ==> bytes_lt(#[trigger] views32(r@)[i], #[trigger] views32(r@)[j]),
{
    let ghost ps = views32(ids@);
    let n = ids.len();
    let r = select_smallest(None, ids, n);
    proof {
        let rs = views32(r@);
        assert forall|x: Seq<u8>| rs.contains(x) <==> ps.contains(x) by {
            if ps.contains(x) && !rs.contains(x) {
                assert(rs.len() == ps.len());
                lemma_missing_means_shorter(ps, rs, x);
            }
            if rs.contains(x) {
                let i = choose|i: int| 0 <= i < rs.len() && rs[i] == x;
                assert(ps.contains(rs[i]));
            }
        }
    }
    r
}

/// The `count` smallest identities by their order keys, smallest first.
fn select_smallest(base: Option<&[u8; 32]>, candidates: Vec<[u8; 32]>, count: usize) -> (r: Vec<
    [u8; 32],
>)
    requires
        views32(candidates@).no_duplicates(),
    ensures
        ({
            let bv = opt_id(base);
            let ps = views32(candidates@);
            let rs = views32(r@);
            let n = ps.len();
            &&& rs.len() == if count < n {
                count as nat
            } else {
                n
            }
            &&& rs.no_duplicates()
            &&& forall|i: int| 0 <= i < rs.len() ==> ps.contains(#[trigger] rs[i])
            &&& forall|i: int, j: int|
                0 <= i < j < rs.len() ==> bytes_lt(
                    order_key(bv, #[trigger] rs[i]),
                    order_key(bv, #[trigger] rs[j]),
                )
            &&& forall|u: Seq<u8>, i: int|
                #![trigger ps.contains(u), rs[i]]
                ps.contains(u) && !rs.contains(u) && 0 <= i < rs.len() ==> bytes_lt(
                    order_key(bv, rs[i]),
                    order_key(bv, u),
                )
        }),
{
    let ghost bv = opt_id(base);
    let ghost ps = views32(candidates@);
    let mut remaining = candidates;
    let ghost u = views32(remaining@);
    let mut result: Vec<[u8; 32]> = Vec::new();
    while result.len() < count && remaining.len() > 0
        invariant
            bv == opt_id(base),
            u == ps,
            u.no_duplicates(),
            forall|x: Seq<u8>| u.contains(x) <==> ps.contains(x),
            views32(result@).len() + views32(remaining@).len() == u.len(),
            result@.len() <= count,
            views32(result@).no_duplicates(),
            views32(remaining@).no_duplicates(),
            forall|x: Seq<u8>|
                u.contains(x) <==> (views32(result@).contains(x) || views32(
                    remaining@,
                ).contains(x)),
            forall|x: Seq<u8>|
                !(views32(result@).contains(x) && views32(remaining@).contains(x)),
            forall|x: Seq<u8>| #[trigger] views32(remaining@).contains(x) ==> x.len() == 32,
            forall|i: int, j: int|
                0 <= i < j < result@.len() ==> bytes_lt(
                    order_key(bv, #[trigger] views32(result@)[i]),
                    order_key(bv, #[trigger] views32(result@)[j]),
                ),
            forall|x: Seq<u8>, i: int|
                #![trigger views32(remaining@).contains(x), views32(result@)[i]]
                views32(remaining@).contains(x) && 0 <= i < result@.len() ==> bytes_lt(
                    order_key(bv, views32(result@)[i]),
                    order_key(bv, x),
                ),
        decreases remaining.len(),
    {
        let ghost rem = views32(remaining@);
        let ghost res = views32(result@);
        // The remaining identity with the smallest key.
        let mut m: usize = 0;
        let mut mk = key_of(base, &remaining[0]);
        let mut i: usize = 1;
        while i < remaining.len()
            invariant
                rem == views32(remaining@),
                bv == opt_id(base),
                1 <= i <= remaining.len(),
                m < i,
                mk@ == order_key(bv, rem[m as int]),
                forall|x: Seq<u8>| #[trigger] rem.contains(x) ==> x.len() == 32,
                rem.no_duplicates(),
                forall|k: int|
                    0 <= k < i && k != m ==> bytes_lt(
                        order_key(bv, rem[m as int]),
                        order_key(bv, #[trigger] rem[k]),
                    ),
            decreases remaining.len() - i,
        {
            let ki = key_of(base, &remaining[i]);
            proof {
                assert(rem.contains(rem[i as int]));
                assert(rem.contains(rem[m as int]));
                assert(rem[i as int] != rem[m as int]);
                lemma_keys_distinct(bv, rem[i as int], rem[m as int]);
                lemma_bytes_lt_total(
                    order_key(bv, rem[i as int]),
                    order_key(bv, rem[m as int]),
                );
            }
            if bytes_less(&ki, &mk) {
                proof {
                    assert forall|k: int|
                        0 <= k < i + 1 && k != i implies bytes_lt(
                        order_key(bv, rem[i as int]),
                        order_key(bv, #[trigger] rem[k]),
                    ) by {
                        if k != m {
                            assert(rem.contains(rem[k]));
                            lemma_bytes_lt_transitive(
                                order_key(bv, rem[i as int]),
                                order_key(bv, rem[m as int]),
                                order_key(bv, rem[k]),
                            );
                        }
                    }
                }
                m = i;
                mk = ki;
            }
            i += 1;
        }
        let x = remaining.remove(m);
        proof {
            let rem2 = views32(remaining@);
            assert(rem2 =~= rem.remove(m as int));
            assert(x@ == rem[m as int]);
            assert forall|y: Seq<u8>| rem2.contains(y) <==> (rem.contains(y) && y != x@) by {
                if rem2.contains(y) {
                    let k = choose|k: int| 0 <= k < rem2.len() && rem2[k] == y;
                    if k < m {
                        assert(rem[k] == y);
                    } else {
                        assert(rem[k + 1] == y);
                    }
                }
                if rem.contains(y) && y != x@ {
                    let k = choose|k: int| 0 <= k < rem.len() && rem[k] == y;
                    if k < m {
                        assert(rem2[k] == y);
                    } else {
                        assert(k != m);
                        assert(rem2[k - 1] == y);
                    }
                }
            }
            assert forall|a: int, b: int| 0 <= a < b < rem2.len() implies rem2[a] != rem2[b] by {
                let a2 = if a < m {
                    a
                } else {
                    a + 1
                };
                let b2 = if b < m {
                    b
                } else {
                    b + 1
                };
                assert(rem2[a] == rem[a2]);
                assert(rem2[b] == rem[b2]);
            }
            assert forall|y: Seq<u8>| rem.contains(y) && y != x@ implies bytes_lt(
                order_key(bv, x@),
                order_key(bv, y),
            ) by {
                let k = choose|k: int| 0 <= k < rem.len() && rem[k] == y;
                assert(k != m);
            }
        }
        result.push(x);
        proof {
            let res2 = views32(result@);
            assert(res2 =~= res.push(x@));
            assert forall|y: Seq<u8>| res2.contains(y) <==> (res.contains(y) || y == x@) by {
                if res2.contains(y) {
                    let k = choose|k: int| 0 <= k < res2.len() && res2[k] == y;
                    if k < res.len() {
                        assert(res[k] == y);
                    }
                }
                if res.contains(y) {
                    let k = choose|k: int| 0 <= k < res.len() && res[k] == y;
                    assert(res2[k] == y);
                }
                if y == x@ {
                    assert(res2[res.len() as int] == y);
                }
            }
            assert(!res.contains(x@));
            assert(rem.contains(x@));
            assert forall|a: int, b: int|
                0 <= a < b < res2.len() implies bytes_lt(
                order_key(bv, res2[a]),
                order_key(bv, res2[b]),
            ) by {
                if b == res.len() {
                    assert(res2[a] == res[a]);
                } else {
                    assert(res2[a] == res[a]);
                    assert(res2[b] == res[b]);
                }
            }
            assert forall|a: int, b: int| 0 <= a < b < res2.len() implies res2[a] != res2[b] by {
                if b == res.len() {
                    assert(res.contains(res2[a]));
                }
            }
        }
    }
    proof {
        let rs = views32(result@);
        let rm = views32(remaining@);
        assert forall|i: int| 0 <= i < rs.len() implies ps.contains(#[trigger] rs[i]) by {
            assert(rs.contains(rs[i]));
        }
        assert forall|y: Seq<u8>, i: int|
            #![trigger ps.contains(y), rs[i]]
            ps.contains(y) && !rs.contains(y) && 0 <= i < rs.len() implies bytes_lt(
            order_key(bv, rs[i]),
            order_key(bv, y),
        ) by {
            assert(rm.contains(y));
        }
    }
    result
}


/// What a blob ticket names: the blob and the provider that serves it.
#[derive(Clone, Copy, Debug)]
pub struct TicketInfo {
    pub hash: [u8; 32],
    pub provider: [u8; 32],
}

/// A signed claim that a provider currently serves a blob.
///
/// The ticket is part of the signed payload, so a lease cannot be
/// redirected to another blob or provider after it is published.
#[derive(Debug)]
pub struct ProviderLease {
    pub hash: [u8; 32],
    pub provider: [u8; 32],
    pub ticket: String,
    pub sequence: u64,
    pub issued_at: u64,
    pub expires_at: u64,
    pub signature: Option<String>,
}

pub(crate) fn clone_opt_string(o: &Option<String>) -> (r: Option<String>)
    ensures
        r == *o,
{
    match o {
        Some(s) => Some(s.clone()),
        None => None,
    }
}

impl Clone for ProviderLease {
    fn clone(&self) -> (r: Self)
        ensures
            r == *self,
    {
        ProviderLease {
            hash: self.hash,
            provider: self.provider,
            ticket: self.ticket.clone(),
            sequence: self.sequence,
            issued_at: self.issued_at,
            expires_at: self.expires_at,
            signature: clone_opt_string(&self.signature),
        }
    }
}

/// The key under which a lease is tracked.
pub open spec fn lease_key(l: ProviderLease) -> (Seq<u8>, Seq<u8>) {
    (l.hash@, l.provider@)
}

/// The fields that need no cryptography are consistent: a positive
/// sequence, an expiry after issue, and a ticket naming this blob and this
/// provider.
pub open spec fn lease_fields_valid(l: ProviderLease, t: Option<TicketInfo>) -> bool {
    &&& l.sequence != 0
    &&& l.expires_at > l.issued_at
    &&& t matches Some(ti) && ti.hash@ == l.hash@ && ti.provider@ == l.provider@
}

/// The error kind that field validation reports, where it fails.
pub open spec fn lease_fields_error(l: ProviderLease, t: Option<TicketInfo>, e: SyncwebError) -> bool {
    if l.sequence == 0 || l.expires_at <= l.issued_at {
        e is InvalidConfig
    } else if t is None || t->0.hash@ != l.hash@ {
        e is InvalidTicket
    } else {
        e is InvalidIdentity
    }
}

/// The bytes the signature domain begins with.
pub open spec fn lease_context() -> Seq<u8> {
    "syncweb/provider-lease/v1"@.map_values(|c: char| c as u8).push(0u8)
}

/// The signed payload: the domain context, then the lease encoded
/// without its signature.
pub open spec fn lease_payload(unsigned: Seq<u8>) -> Seq<u8> {
    lease_context() + unsigned
}

/// The lease's signature text decodes to 64 bytes.
pub open spec fn lease_signature_bytes(l: ProviderLease) -> Option<Seq<u8>> {
    match l.signature {
        Some(s) => match hex_bytes(s@) {
            Some(b) => if b.len() == 64 {
                Some(b)
            } else {
                None
            },
            None => None,
        },
        None => None,
    }
}

/// The provider's key accepts the lease's signature over the payload.
pub open spec fn lease_signature_valid(l: ProviderLease, unsigned: Seq<u8>) -> bool {
    &&& lease_signature_bytes(l) matches Some(b)
    &&& ed25519_key_valid(l.provider@)
    &&& ed25519_accepts(l.provider@, lease_payload(unsigned), b)
}

fn lease_payload_bytes(unsigned: &[u8]) -> (r: Vec<u8>)
    ensures
        r@ == lease_payload(unsigned@),
{
    let seed = chars_of("syncweb/provider-lease/v1");
    let mut bytes: Vec<u8> = Vec::new();
    let mut i: usize = 0;
    while i < seed.len()
        invariant
            i <= seed.len(),
            bytes@ == seed@.subrange(0, i as int).map_values(|c: char| c as u8),
        decreases seed.len() - i,
    {
        bytes.push(seed[i] as u8);
        i += 1;
        assert(bytes@ =~= seed@.subrange(0, i as int).map_values(|c: char| c as u8));
    }
    assert(seed@.subrange(0, seed@.len() as int) =~= seed@);
    bytes.push(0u8);
    let ghost ctx = bytes@;
    let mut j: usize = 0;
    while j < unsigned.len()
        invariant
            j <= unsigned.len(),
            bytes@ == ctx + unsigned@.subrange(0, j as int),
        decreases unsigned.len() - j,
    {
        bytes.push(unsigned[j]);
        j += 1;
        assert(bytes@ =~= ctx + unsigned@.subrange(0, j as int));
    }
    assert(unsigned@.subrange(0, unsigned@.len() as int) =~= unsigned@);
    bytes
}

/// Hex text decodes back to the bytes it was made from.
pub proof fn lemma_hex_round_trip(b: Seq<u8>)
    ensures
        hex_bytes(hex_text(b)) == Some(b),
        hex_text(b).len() == 2 * b.len(),
    decreases b.len(),
{
    if b.len() > 0 {
        lemma_hex_round_trip(b.drop_last());
        let t = hex_text(b);
        let p = hex_text(b.drop_last());
        assert(t.subrange(0, t.len() - 2) =~= p);
        let hi = b.last() / 16;
        let lo = b.last() % 16;
        assert(crate::crypto::hex_value(crate::crypto::hex_digit(hi)) == Some(hi));
        assert(crate::crypto::hex_value(crate::crypto::hex_digit(lo)) == Some(lo));
        assert(b.drop_last().push(b.last()) =~= b);
    }
}

impl ProviderLease {
    /// Validate the fields that need no cryptography against the ticket's
    /// contents (`None` when the ticket text does not parse).
    pub fn validate(&self, ticket: Option<TicketInfo>) -> (r: Result<()>)
        ensures
            r is Ok <==> lease_fields_valid(*self, ticket),
            r is Err ==> lease_fields_error(*self, ticket, r->Err_0),
    {
        if self.sequence == 0 {
            return Err(
                SyncwebError::InvalidConfig(
                    "provider lease sequence must be greater than zero".to_string(),
                ),
            );
        }
        if self.expires_at <= self.issued_at {
            return Err(
                SyncwebError::InvalidConfig(
                    "provider lease expiration must be after its issue time".to_string(),
                ),
            );
        }
        let t = match ticket {
            Some(t) => t,
            None => {
                return Err(
                    SyncwebError::InvalidTicket("provider lease ticket does not parse".to_string()),
                )
            },
        };
        if !bytes_eq(&t.hash, &self.hash) {
            return Err(
                SyncwebError::InvalidTicket(
                    "provider lease ticket does not match its blob hash".to_string(),
                ),
            );
        }
        if !bytes_eq(&t.provider, &self.provider) {
            return Err(
                SyncwebError::InvalidIdentity(
                    "provider lease provider does not match its ticket".to_string(),
                ),
            );
        }
        Ok(())
    }

    /// An unsigned lease for the ticket's provider, with explicit times.
    pub fn new_with_times(
        hash: [u8; 32],
        ticket: &str,
        ticket_info: Option<TicketInfo>,
        sequence: u64,
        issued_at: u64,
        expires_at: u64,
    ) -> (r: Result<ProviderLease>)
        ensures
            r is Ok <==> (ticket_info matches Some(ti) && ti.hash@ == hash@ && sequence != 0
                && expires_at > issued_at),
            r is Ok ==> ({
                let l = r->Ok_0;
                &&& l.hash == hash
                &&& l.provider == ticket_info->0.provider
                &&& l.ticket@ == ticket@
                &&& l.sequence == sequence
                &&& l.issued_at == issued_at
                &&& l.expires_at == expires_at
                &&& l.signature is None
            }),
            r is Err ==> (if ticket_info is None || ticket_info->0.hash@ != hash@ {
                r->Err_0 is InvalidTicket
            } else {
                r->Err_0 is InvalidConfig
            }),
    {
        let info = match ticket_info {
            Some(t) => t,
            None => {
                return Err(
                    SyncwebError::InvalidTicket("provider lease ticket does not parse".to_string()),
                )
            },
        };
        if !bytes_eq(&info.hash, &hash) {
            return Err(
                SyncwebError::InvalidTicket(
                    "provider lease ticket does not match its blob hash".to_string(),
                ),
            );
        }
        let lease = ProviderLease {
            hash,
            provider: info.provider,
            ticket: ticket.to_string(),
            sequence,
            issued_at,
            expires_at,
            signature: None,
        };
        lease.validate(ticket_info)?;
        Ok(lease)
    }

    /// An unsigned lease issued now.
    pub fn new(
        hash: [u8; 32],
        ticket: &str,
        ticket_info: Option<TicketInfo>,
        sequence: u64,
        expires_at: u64,
    ) -> (r: Result<ProviderLease>)
        ensures
            r is Ok ==> ({
                let l = r->Ok_0;
                &&& l.hash == hash
                &&& l.provider == ticket_info->0.provider
                &&& l.ticket@ == ticket@
                &&& l.sequence == sequence
                &&& l.expires_at == expires_at
                &&& l.expires_at > l.issued_at
                &&& l.signature is None
            }),
            (ticket_info is None || ticket_info->0.hash@ != hash@ || sequence == 0) ==> r is Err,
    {
        Self::new_with_times(
            hash,
            ticket,
            ticket_info,
            sequence,
            crate::clock::current_epoch_seconds(),
            expires_at,
        )
    }

    /// Sign the lease with the provider's 32-byte secret key; `unsigned` is
    /// the lease's encoding without its signature.
    pub fn sign(&mut self, secret: &[u8; 32], unsigned: &[u8]) -> (r: Result<()>)
        ensures
            r is Ok <==> ed25519_public_of(secret@) == old(self).provider@,
            r is Err ==> r->Err_0 is InvalidIdentity && *final(self) == *old(self),
            r is Ok ==> final(self).signature is Some && final(self).signature->0@ == hex_text(
                ed25519_signature_of(secret@, lease_payload(unsigned@)),
            ),
            r is Ok ==> lease_signature_valid(*final(self), unsigned@),
            final(self).hash == old(self).hash,
            final(self).provider == old(self).provider,
            final(self).ticket == old(self).ticket,
            final(self).sequence == old(self).sequence,
            final(self).issued_at == old(self).issued_at,
            final(self).expires_at == old(self).expires_at,
    {
        let public = ed25519_public_key(secret);
        if !bytes_eq(&public, &self.provider) {
            return Err(
                SyncwebError::InvalidIdentity(
                    "provider lease signer does not match the ticket provider".to_string(),
                ),
            );
        }
        let payload = lease_payload_bytes(unsigned);
        let sig = ed25519_sign(secret, &payload);
        let text = hex_encode(&sig);
        proof {
            lemma_hex_round_trip(sig@);
        }
        self.signature = Some(text);
        Ok(())
    }

    /// Same as [`Self::sign`].
    pub fn sign_with_secret_key(&mut self, secret: &[u8; 32], unsigned: &[u8]) -> (r: Result<()>)
        ensures
            r is Ok <==> ed25519_public_of(secret@) == old(self).provider@,
            r is Err ==> *final(self) == *old(self),
            r is Ok ==> lease_signature_valid(*final(self), unsigned@),
            final(self).hash == old(self).hash,
            final(self).provider == old(self).provider,
            final(self).ticket == old(self).ticket,
            final(self).sequence == old(self).sequence,
            final(self).issued_at == old(self).issued_at,
            final(self).expires_at == old(self).expires_at,
    {
        self.sign(secret, unsigned)
    }

    pub fn is_signed(&self) -> (b: bool)
        ensures
            b == self.signature is Some,
    {
        self.signature.is_some()
    }

    /// Verify the fields and the signature, without looking at expiry.
    pub fn verify_signature(&self, ticket: Option<TicketInfo>, unsigned: &[u8]) -> (r: Result<()>)
        ensures
            r is Ok <==> lease_fields_valid(*self, ticket) && lease_signature_valid(*self, unsigned@),
            r is Err && !lease_fields_valid(*self, ticket) ==> lease_fields_error(
                *self,
                ticket,
                r->Err_0,
            ),
            r is Err && lease_fields_valid(*self, ticket) ==> (if lease_signature_bytes(
                *self,
            ) is Some && !ed25519_key_valid(self.provider@) {
                r->Err_0 is InvalidIdentity
            } else {
                r->Err_0 is InvalidConfig
            }),
    {
        self.validate(ticket)?;
        let text = match &self.signature {
            Some(t) => t,
            None => {
                return Err(
                    SyncwebError::InvalidConfig(
                        "provider lease must contain a signature".to_string(),
                    ),
                )
            },
        };
        let bytes = match hex_decode(text.as_str()) {
            Ok(b) => b,
            Err(_) => {
                return Err(
                    SyncwebError::InvalidConfig(
                        "invalid provider lease signature encoding".to_string(),
                    ),
                )
            },
        };
        if bytes.len() != 64 {
            return Err(SyncwebError::InvalidConfig("invalid provider lease signature".to_string()));
        }
        let mut sig: [u8; 64] = [0u8; 64];
        let mut i: usize = 0;
        while i < 64
            invariant
                i <= 64,
                bytes@.len() == 64,
                sig@.len() == 64,
                forall|k: int| 0 <= k < i ==> sig@[k] == bytes@[k],
            decreases 64 - i,
        {
            sig[i] = bytes[i];
            i += 1;
        }
        assert(sig@ =~= bytes@);
        if !ed25519_key_is_valid(&self.provider) {
            return Err(
                SyncwebError::InvalidIdentity("invalid provider lease identity".to_string()),
            );
        }
        let payload = lease_payload_bytes(unsigned);
        if !ed25519_verify(&self.provider, &payload, &sig) {
            return Err(
                SyncwebError::InvalidConfig("provider lease signature is invalid".to_string()),
            );
        }
        Ok(())
    }

    /// Verify the signature and require the lease to be active at `now`.
    pub fn verify_at(&self, ticket: Option<TicketInfo>, unsigned: &[u8], now: u64) -> (r: Result<()>)
        ensures
            r is Ok <==> lease_fields_valid(*self, ticket) && lease_signature_valid(*self, unsigned@)
                && self.expires_at > now,
            r is Err && lease_fields_valid(*self, ticket) && lease_signature_valid(
                *self,
                unsigned@,
            ) ==> r->Err_0 is InvalidConfig,
    {
        self.verify_signature(ticket, unsigned)?;
        if self.expires_at <= now {
            return Err(SyncwebError::InvalidConfig("provider lease has expired".to_string()));
        }
        Ok(())
    }

    pub fn is_expired_at(&self, now: u64) -> (b: bool)
        ensures
            b == (self.expires_at <= now),
    {
        self.expires_at <= now
    }
}

/// What tracking a lease did.
#[derive(Clone, Copy, Debug, PartialEq, Eq, Structural)]
pub enum LeaseUpdate {
    Inserted,
    Replaced,
    IgnoredOlder,
}

impl LeaseUpdate {
    pub open spec fn changed_spec(self) -> bool {
        self is Inserted || self is Replaced
    }

    /// The tracker's leases changed.
    pub fn changed(self) -> (b: bool)
        ensures
            b == (self is Inserted || self is Replaced),
    {
        match self {
            LeaseUpdate::Inserted | LeaseUpdate::Replaced => true,
            LeaseUpdate::IgnoredOlder => false,
        }
    }
}

/// Verified and locally observed providers for one blob.
#[derive(Debug)]
pub struct AvailabilityHealth {
    pub verified: usize,
    pub local: usize,
    pub verified_providers: Vec<[u8; 32]>,
    pub local_providers: Vec<[u8; 32]>,
}

impl AvailabilityHealth {
    pub fn verified_count(&self) -> (n: usize)
        ensures
            n == self.verified,
    {
        self.verified
    }

    pub fn verified_lease_count(&self) -> (n: usize)
        ensures
            n == self.verified,
    {
        self.verified
    }

    pub fn local_count(&self) -> (n: usize)
        ensures
            n == self.local,
    {
        self.local
    }

    pub fn local_observation_count(&self) -> (n: usize)
        ensures
            n == self.local,
    {
        self.local
    }
}

/// Bounded failure history and counters for one blob and provider.
#[derive(Debug)]
pub struct FailureRecord {
    pub failures: Vec<FetchFailure>,
    pub consecutive_failures: u32,
    pub last_failure_at: u64,
    pub first_failure_at: u64,
}


/// The model of a tracker: leases, local observations, failure records,
/// failure totals and definitive-failure streaks, each by blob and provider.
pub struct TrackerModel {
    pub leases: Map<(Seq<u8>, Seq<u8>), ProviderLease>,
    pub observations: Map<(Seq<u8>, Seq<u8>), u64>,
    pub failures: Map<(Seq<u8>, Seq<u8>), FailureRecord>,
    pub totals: Map<(Seq<u8>, Seq<u8>), u64>,
    pub streaks: Map<(Seq<u8>, Seq<u8>), u32>,
    pub max_failures: usize,
}

/// In-memory tracker of signed provider leases, local observations and
/// fetch failures.
pub struct ProviderLeaseTracker {
    leases: PairMap<ProviderLease>,
    observations: PairMap<u64>,
    failures: PairMap<FailureRecord>,
    failure_totals: PairMap<u64>,
    definitive_streaks: PairMap<u32>,
    max_failures_per_provider: usize,
}

impl View for ProviderLeaseTracker {
    type V = TrackerModel;

    closed spec fn view(&self) -> TrackerModel {
        TrackerModel {
            leases: self.leases@,
            observations: self.observations@,
            failures: self.failures@,
            totals: self.failure_totals@,
            streaks: self.definitive_streaks@,
            max_failures: self.max_failures_per_provider,
        }
    }
}

pub open spec fn sat_sub_u64(a: u64, b: u64) -> u64 {
    if a < b {
        0
    } else {
        (a - b) as u64
    }
}

pub open spec fn sat_add_u64(a: u64, b: u64) -> u64 {
    if a + b > u64::MAX {
        u64::MAX
    } else {
        (a + b) as u64
    }
}

pub open spec fn sat_add_u32(a: u32, b: u32) -> u32 {
    if a + b > u32::MAX {
        u32::MAX
    } else {
        (a + b) as u32
    }
}

/// The failure record at `k` was last updated more than `ttl` seconds
/// before `now`.
pub open spec fn failure_stale(m: TrackerModel, k: (Seq<u8>, Seq<u8>), now: u64, ttl: u64) -> bool {
    m.failures.contains_key(k) && sat_sub_u64(now, m.failures[k].last_failure_at) > ttl
}

pub open spec fn stale_keys(m: TrackerModel, now: u64, ttl: u64) -> Set<(Seq<u8>, Seq<u8>)> {
    Set::new(|k: (Seq<u8>, Seq<u8>)| failure_stale(m, k, now, ttl))
}

/// `m` without its stale failure records and their counters.
pub open spec fn purged_failures(m: TrackerModel, now: u64, ttl: u64) -> TrackerModel {
    TrackerModel {
        leases: m.leases,
        observations: m.observations,
        failures: m.failures.remove_keys(stale_keys(m, now, ttl)),
        totals: m.totals.remove_keys(stale_keys(m, now, ttl)),
        streaks: m.streaks.remove_keys(stale_keys(m, now, ttl)),
        max_failures: m.max_failures,
    }
}

/// The aggregate failure count at `k`.
pub open spec fn total_at(m: TrackerModel, k: (Seq<u8>, Seq<u8>)) -> u64 {
    if m.totals.contains_key(k) {
        m.totals[k]
    } else {
        0
    }
}

pub open spec fn streak_at(m: TrackerModel, k: (Seq<u8>, Seq<u8>)) -> u32 {
    if m.streaks.contains_key(k) {
        m.streaks[k]
    } else {
        0
    }
}

/// The failure details kept at `k`.
pub open spec fn details_at(m: TrackerModel, k: (Seq<u8>, Seq<u8>)) -> Seq<FetchFailure> {
    if m.failures.contains_key(k) {
        m.failures[k].failures@
    } else {
        seq![]
    }
}

pub open spec fn consecutive_at(m: TrackerModel, k: (Seq<u8>, Seq<u8>)) -> u32 {
    if m.failures.contains_key(k) {
        m.failures[k].consecutive_failures
    } else {
        0
    }
}

/// The last `max` details of a list.
pub open spec fn keep_last(s: Seq<FetchFailure>, max: usize) -> Seq<FetchFailure> {
    if s.len() <= max {
        s
    } else {
        s.subrange(s.len() - max, s.len() as int)
    }
}

/// The definitive-failure streak after a failure of `kind` at `k`: one more
/// than before when this and the previous kept failure are definitive, one
/// when only this one is, zero for a transient failure.
pub open spec fn next_streak(m: TrackerModel, k: (Seq<u8>, Seq<u8>), kind: FetchFailureKind) -> u32 {
    let prev = details_at(m, k);
    if kind_definitive(kind) {
        if prev.len() > 0 && kind_definitive(prev.last().kind) {
            sat_add_u32(streak_at(m, k), 1)
        } else {
            1
        }
    } else {
        0
    }
}

/// `n` is `m` after recording `failure` at `k` at time `now` (stale records
/// already purged from `m`).
pub open spec fn failure_recorded(
    m: TrackerModel,
    n: TrackerModel,
    k: (Seq<u8>, Seq<u8>),
    failure: FetchFailure,
    now: u64,
) -> bool {
    &&& n.leases == m.leases
    &&& n.observations == m.observations
    &&& n.max_failures == m.max_failures
    &&& n.totals == m.totals.insert(k, sat_add_u64(total_at(m, k), 1))
    &&& n.streaks == m.streaks.insert(k, next_streak(m, k, failure.kind))
    &&& n.failures.remove(k) == m.failures.remove(k)
    &&& n.failures.contains_key(k)
    &&& n.failures[k].failures@ == keep_last(details_at(m, k).push(failure), m.max_failures)
    &&& n.failures[k].consecutive_failures == sat_add_u32(consecutive_at(m, k), 1)
    &&& n.failures[k].last_failure_at == now
    &&& n.failures[k].first_failure_at == if total_at(m, k) == 0 || !m.failures.contains_key(k) {
        now
    } else {
        m.failures[k].first_failure_at
    }
}

/// The views of a list of key pairs.
pub open spec fn pair_views(s: Seq<([u8; 32], [u8; 32])>) -> Seq<(Seq<u8>, Seq<u8>)> {
    s.map_values(|p: ([u8; 32], [u8; 32])| (p.0@, p.1@))
}

/// A lease at `k` is active at `now` for blob `hash`.
pub open spec fn lease_active(m: TrackerModel, hash: Seq<u8>, k: (Seq<u8>, Seq<u8>), now: u64) -> bool {
    m.leases.contains_key(k) && k.0 == hash && m.leases[k].expires_at > now
}

/// `r` lists exactly the leases active for `hash` at `now`, by ascending
/// provider.
pub open spec fn active_leases_listed(m: TrackerModel, hash: Seq<u8>, now: u64, r: Seq<ProviderLease>) -> bool {
    &&& forall|i: int|
        0 <= i < r.len() ==> lease_active(m, hash, lease_key(#[trigger] r[i]), now) && m.leases[lease_key(r[i])] == r[i]
    &&& forall|k: (Seq<u8>, Seq<u8>)|
        #[trigger] lease_active(m, hash, k, now) ==> exists|i: int| 0 <= i < r.len() && lease_key(#[trigger] r[i]) == k
    &&& forall|i: int, j: int|
        0 <= i < j < r.len() ==> bytes_lt((#[trigger] r[i]).provider@, (#[trigger] r[j]).provider@)
}

/// An observation at `k` of blob `hash` is fresh at `now`.
pub open spec fn observation_fresh(m: TrackerModel, hash: Seq<u8>, k: (Seq<u8>, Seq<u8>), now: u64, ttl: u64) -> bool {
    m.observations.contains_key(k) && k.0 == hash && sat_sub_u64(now, m.observations[k]) <= ttl
}

/// `r` lists exactly the providers for which `present` holds, ascending.
pub open spec fn providers_listed(hash: Seq<u8>, present: spec_fn((Seq<u8>, Seq<u8>)) -> bool, r: Seq<Seq<u8>>) -> bool {
    &&& forall|i: int| 0 <= i < r.len() ==> present((hash, #[trigger] r[i]))
    &&& forall|p: Seq<u8>| #[trigger] present((hash, p)) ==> r.contains(p)
    &&& forall|i: int, j: int| 0 <= i < j < r.len() ==> bytes_lt(#[trigger] r[i], #[trigger] r[j])
}

/// `r` lists, ascending, the providers with a lease on `hash` active at
/// `now`.
pub open spec fn verified_listed(m: TrackerModel, hash: Seq<u8>, now: u64, r: Seq<Seq<u8>>) -> bool {
    providers_listed(hash, |k: (Seq<u8>, Seq<u8>)| lease_active(m, hash, k, now), r)
}

/// `r` lists, ascending, the providers observed serving `hash` within
/// `ttl` seconds of `now`.
pub open spec fn local_listed(m: TrackerModel, hash: Seq<u8>, now: u64, ttl: u64, r: Seq<Seq<u8>>) -> bool {
    providers_listed(hash, |k: (Seq<u8>, Seq<u8>)| observation_fresh(m, hash, k, now, ttl), r)
}

/// `r` lists, ascending and each once, the blobs for which `provider` holds
/// a lease.
pub open spec fn provider_blobs_listed(m: TrackerModel, provider: Seq<u8>, r: Seq<Seq<u8>>) -> bool {
    &&& forall|x: Seq<u8>| #[trigger] r.contains(x) <==> m.leases.contains_key((x, provider))
    &&& forall|i: int, j: int| 0 <= i < j < r.len() ==> bytes_lt(#[trigger] r[i], #[trigger] r[j])
}

impl ProviderLeaseTracker {
    /// The tracker's maps are well formed and each lease is kept under its
    /// own blob and provider.
    pub closed spec fn wf(&self) -> bool {
        &&& self.leases.wf()
        &&& self.observations.wf()
        &&& self.failures.wf()
        &&& self.failure_totals.wf()
        &&& self.definitive_streaks.wf()
        &&& forall|k: (Seq<u8>, Seq<u8>)| #[trigger] self.leases@.contains_key(k) ==> lease_key(self.leases@[k]) == k
    }

    /// An empty tracker keeping at most `max_failures_per_provider` failure
    /// details per blob and provider.
    pub fn with_max_failures_per_provider(max_failures_per_provider: usize) -> (t: ProviderLeaseTracker)
        ensures
            t.wf(),
            t@.leases == Map::<(Seq<u8>, Seq<u8>), ProviderLease>::empty(),
            t@.observations == Map::<(Seq<u8>, Seq<u8>), u64>::empty(),
            t@.failures == Map::<(Seq<u8>, Seq<u8>), FailureRecord>::empty(),
            t@.totals == Map::<(Seq<u8>, Seq<u8>), u64>::empty(),
            t@.streaks == Map::<(Seq<u8>, Seq<u8>), u32>::empty(),
            t@.max_failures == max_failures_per_provider,
    {
        ProviderLeaseTracker {
            leases: PairMap::new(),
            observations: PairMap::new(),
            failures: PairMap::new(),
            failure_totals: PairMap::new(),
            definitive_streaks: PairMap::new(),
            max_failures_per_provider,
        }
    }

    pub fn max_failures_per_provider(&self) -> (n: usize)
        ensures
            n == self@.max_failures,
    {
        self.max_failures_per_provider
    }

    /// Track a lease that verifies at `now`: a first lease of a provider is
    /// inserted, a higher sequence replaces the provider's lease, anything
    /// else is ignored.
    pub fn track_at(
        &mut self,
        lease: ProviderLease,
        ticket: Option<TicketInfo>,
        unsigned: &[u8],
        now: u64,
    ) -> (r: Result<LeaseUpdate>)
        requires
            old(self).wf(),
        ensures
            final(self).wf(),
            r is Ok <==> lease_fields_valid(lease, ticket) && lease_signature_valid(lease, unsigned@)
                && lease.expires_at > now,
            r is Ok ==> r->Ok_0 == (if !old(self)@.leases.contains_key(lease_key(lease)) {
                LeaseUpdate::Inserted
            } else if lease.sequence > old(self)@.leases[lease_key(lease)].sequence {
                LeaseUpdate::Replaced
            } else {
                LeaseUpdate::IgnoredOlder
            }),
            r is Ok ==> final(self)@.leases == tracked_leases(old(self)@.leases, lease),
            r is Err ==> final(self)@.leases == old(self)@.leases,
            final(self)@.observations == old(self)@.observations,
            final(self)@.failures == old(self)@.failures,
            final(self)@.totals == old(self)@.totals,
            final(self)@.streaks == old(self)@.streaks,
            final(self)@.max_failures == old(self)@.max_failures,
    {
        lease.verify_at(ticket, unsigned, now)?;
        let update = match self.leases.get(&lease.hash, &lease.provider) {
            None => LeaseUpdate::Inserted,
            Some(existing) => if lease.sequence > existing.sequence {
                LeaseUpdate::Replaced
            } else {
                LeaseUpdate::IgnoredOlder
            },
        };
        if update.changed() {
            let h = lease.hash;
            let p = lease.provider;
            self.leases.insert(h, p, lease);
        }
        Ok(update)
    }

    /// Record a failure at `now` after purging stale failure records: the
    /// details are capped per blob and provider while the aggregate count
    /// keeps growing.
    pub fn record_failure_at(&mut self, hash: [u8; 32], provider: [u8; 32], failure: FetchFailure, now: u64)
        requires
            old(self).wf(),
        ensures
            final(self).wf(),
            failure_recorded(
                purged_failures(old(self)@, now, DEFAULT_FAILURE_TTL_SECS),
                final(self)@,
                (hash@, provider@),
                failure,
                now,
            ),
    {
        self.purge_stale_failures(now, DEFAULT_FAILURE_TTL_SECS);
        let ghost m = self@;
        let ghost k = (hash@, provider@);
        let existing_total: u64 = match self.failure_totals.get(&hash, &provider) {
            Some(t) => *t,
            None => 0,
        };
        let old_streak: u32 = match self.definitive_streaks.get(&hash, &provider) {
            Some(t) => *t,
            None => 0,
        };
        let old_record = self.failures.remove(&hash, &provider);
        let (previous_definitive, previous_consecutive, mut record) = match old_record {
            Some(r) => {
                let n = r.failures.len();
                let d = n > 0 && r.failures[n - 1].kind.is_definitive();
                let c = r.consecutive_failures;
                (d, c, r)
            },
            None => (
                false,
                0u32,
                FailureRecord {
                    failures: Vec::new(),
                    consecutive_failures: 0,
                    last_failure_at: now,
                    first_failure_at: now,
                },
            ),
        };
        assert(record.failures@ == details_at(m, k));
        if existing_total == 0 {
            record.first_failure_at = now;
        }
        record.last_failure_at = now;
        record.consecutive_failures = previous_consecutive.saturating_add(1);
        let streak: u32 = if failure.kind.is_definitive() {
            if previous_definitive {
                old_streak.saturating_add(1)
            } else {
                1
            }
        } else {
            0
        };
        self.definitive_streaks.insert(hash, provider, streak);
        record.failures.push(failure);
        let len = record.failures.len();
        if len > self.max_failures_per_provider {
            let keep_from = len - self.max_failures_per_provider;
            let kept = record.failures.split_off(keep_from);
            record.failures = kept;
        }
        self.failures.insert(hash, provider, record);
        self.failure_totals.insert(hash, provider, existing_total.saturating_add(1));
        proof {
            assert(self@.failures.remove(k) =~= m.failures.remove(k));
        }
    }

    /// The failure details kept for a blob and provider.
    pub fn failure_record(&self, hash: &[u8; 32], provider: &[u8; 32]) -> (r: Option<&FailureRecord>)
        requires
            self.wf(),
        ensures
            match r {
                Some(rec) => self@.failures.contains_key((hash@, provider@)) && *rec == self@.failures[(hash@, provider@)],
                None => !self@.failures.contains_key((hash@, provider@)),
            },
    {
        self.failures.get(hash, provider)
    }

    /// The aggregate failure count for a blob and provider.
    pub fn failure_count(&self, hash: &[u8; 32], provider: &[u8; 32]) -> (n: usize)
        requires
            self.wf(),
        ensures
            n == (if total_at(self@, (hash@, provider@)) > usize::MAX {
                usize::MAX as u64
            } else {
                total_at(self@, (hash@, provider@))
            }),
    {
        match self.failure_totals.get(hash, provider) {
            Some(t) => if *t > usize::MAX as u64 {
                usize::MAX
            } else {
                *t as usize
            },
            None => 0,
        }
    }

    /// The consecutive failures recorded for a blob and provider.
    pub fn consecutive_failures(&self, hash: &[u8; 32], provider: &[u8; 32]) -> (n: u32)
        requires
            self.wf(),
        ensures
            n == consecutive_at(self@, (hash@, provider@)),
    {
        match self.failures.get(hash, provider) {
            Some(r) => r.consecutive_failures,
            None => 0,
        }
    }

    /// Whether the provider's definitive failures for the blob reached the
    /// threshold.
    pub fn is_definitively_failed(&self, hash: &[u8; 32], provider: &[u8; 32]) -> (b: bool)
        requires
            self.wf(),
        ensures
            b == (streak_at(self@, (hash@, provider@)) >= DEFINITIVE_FAILURE_THRESHOLD),
    {
        match self.definitive_streaks.get(hash, provider) {
            Some(s) => *s >= DEFINITIVE_FAILURE_THRESHOLD,
            None => false,
        }
    }

    /// Forget a provider's failures for a blob after a successful fetch.
    pub fn clear_failures_for_provider(&mut self, hash: &[u8; 32], provider: &[u8; 32])
        requires
            old(self).wf(),
        ensures
            final(self).wf(),
            final(self)@.failures == old(self)@.failures.remove((hash@, provider@)),
            final(self)@.totals == old(self)@.totals.remove((hash@, provider@)),
            final(self)@.streaks == old(self)@.streaks.remove((hash@, provider@)),
            final(self)@.leases == old(self)@.leases,
            final(self)@.observations == old(self)@.observations,
            final(self)@.max_failures == old(self)@.max_failures,
    {
        self.failures.remove(hash, provider);
        self.failure_totals.remove(hash, provider);
        self.definitive_streaks.remove(hash, provider);
    }

    /// Remove the failure records last updated more than `ttl_secs` seconds
    /// before `now`, with their counters.
    pub fn purge_stale_failures(&mut self, now: u64, ttl_secs: u64)
        requires
            old(self).wf(),
        ensures
            final(self).wf(),
            final(self)@ == purged_failures(old(self)@, now, ttl_secs),
    {
        let ghost m = self@;
        let ghost ks = self.failures.key_seq();
        proof {
            self.failures.lemma_key_seq();
        }
        let mut stale: Vec<([u8; 32], [u8; 32])> = Vec::new();
        let n = self.failures.entry_count();
        let mut i: usize = 0;
        while i < n
            invariant
                self.wf(),
                self@ == m,
                ks == self.failures.key_seq(),
                n == ks.len(),
                i <= n,
                forall|x: (Seq<u8>, Seq<u8>)|
                    #[trigger] pair_views(stale@).contains(x) <==> (exists|j: int|
                        0 <= j < i && ks[j] == x) && failure_stale(m, x, now, ttl_secs),
            decreases n - i,
        {
            let (a, b, rec) = self.failures.entry(i);
            let ghost old_stale = stale@;
            if now.saturating_sub(rec.last_failure_at) > ttl_secs {
                stale.push((*a, *b));
                proof {
                    assert(stale@.drop_last() =~= old_stale);
                    assert(pair_views(stale@) =~= pair_views(old_stale).push((a@, b@)));
                    assert forall|x: (Seq<u8>, Seq<u8>)|
                        #[trigger] pair_views(stale@).contains(x) <==> (exists|j: int|
                            0 <= j < i + 1 && ks[j] == x) && failure_stale(m, x, now, ttl_secs) by {
                        let old_v = pair_views(old_stale);
                        if pair_views(stale@).contains(x) {
                            let q = choose|q: int| 0 <= q < pair_views(stale@).len() && pair_views(stale@)[q] == x;
                            if q < old_v.len() {
                                assert(old_v[q] == x);
                                assert(old_v.contains(x));
                            } else {
                                assert(ks[i as int] == x);
                            }
                        }
                        if (exists|j: int| 0 <= j < i + 1 && ks[j] == x) && failure_stale(m, x, now, ttl_secs) {
                            let j = choose|j: int| 0 <= j < i + 1 && ks[j] == x;
                            if j < i {
                                assert(exists|jj: int| 0 <= jj < i && ks[jj] == x);
                                assert(old_v.contains(x));
                                let q = choose|q: int| 0 <= q < old_v.len() && old_v[q] == x;
                                assert(pair_views(stale@)[q] == x);
                            } else {
                                assert(pair_views(stale@)[old_v.len() as int] == x);
                            }
                        }
                    }
                }
            } else {
                proof {
                    assert forall|x: (Seq<u8>, Seq<u8>)|
                        #[trigger] pair_views(stale@).contains(x) <==> (exists|j: int|
                            0 <= j < i + 1 && ks[j] == x) && failure_stale(m, x, now, ttl_secs) by {
                        if (exists|j: int| 0 <= j < i + 1 && ks[j] == x) && failure_stale(m, x, now, ttl_secs) {
                            let j = choose|j: int| 0 <= j < i + 1 && ks[j] == x;
                            if j == i {
                                assert(ks[i as int] == (a@, b@));
                                assert(!failure_stale(m, x, now, ttl_secs));
                            }
                        }
                    }
                }
            }
            i += 1;
        }
        proof {
            assert forall|x: (Seq<u8>, Seq<u8>)|
                #[trigger] pair_views(stale@).contains(x) <==> stale_keys(m, now, ttl_secs).contains(x) by {
                if failure_stale(m, x, now, ttl_secs) {
                    assert(ks.contains(x));
                    let j = choose|j: int| 0 <= j < ks.len() && ks[j] == x;
                }
            }
        }
        let mut j: usize = 0;
        while j < stale.len()
            invariant
                j <= stale.len(),
                self.leases.wf(),
                self.observations.wf(),
                self.failures.wf(),
                self.failure_totals.wf(),
                self.definitive_streaks.wf(),
                self@.leases == m.leases,
                self@.observations == m.observations,
                self@.max_failures == m.max_failures,
                forall|k: (Seq<u8>, Seq<u8>)| #[trigger] m.leases.contains_key(k) ==> lease_key(m.leases[k]) == k,
                self@.failures == m.failures.remove_keys(pair_views(stale@).subrange(0, j as int).to_set()),
                self@.totals == m.totals.remove_keys(pair_views(stale@).subrange(0, j as int).to_set()),
                self@.streaks == m.streaks.remove_keys(pair_views(stale@).subrange(0, j as int).to_set()),
            decreases stale.len() - j,
        {
            let (a, b) = stale[j];
            let ghost before = pair_views(stale@).subrange(0, j as int).to_set();
            let ghost after = pair_views(stale@).subrange(0, j + 1).to_set();
            proof {
                assert(pair_views(stale@).subrange(0, j + 1) =~= pair_views(stale@).subrange(0, j as int).push((a@, b@)));
                let pv = pair_views(stale@);
                assert forall|y: (Seq<u8>, Seq<u8>)| after.contains(y) <==> before.insert((a@, b@)).contains(y) by {
                    let s1 = pv.subrange(0, j + 1);
                    let s0 = pv.subrange(0, j as int);
                    if s1.contains(y) {
                        let q = choose|q: int| 0 <= q < s1.len() && s1[q] == y;
                        if q < j {
                            assert(s0[q] == y);
                        }
                    }
                    if s0.contains(y) {
                        let q = choose|q: int| 0 <= q < s0.len() && s0[q] == y;
                        assert(s1[q] == y);
                    }
                    if y == (a@, b@) {
                        assert(pv.subrange(0, j + 1)[j as int] == y);
                    }
                }
                assert(after =~= before.insert((a@, b@)));
            }
            self.failures.remove(&a, &b);
            self.failure_totals.remove(&a, &b);
            self.definitive_streaks.remove(&a, &b);
            proof {
                assert(self@.failures =~= m.failures.remove_keys(after));
                assert(self@.totals =~= m.totals.remove_keys(after));
                assert(self@.streaks =~= m.streaks.remove_keys(after));
            }
            j += 1;
        }
        proof {
            assert(pair_views(stale@).subrange(0, stale@.len() as int) =~= pair_views(stale@));
            assert(pair_views(stale@).to_set() =~= stale_keys(m, now, ttl_secs));
            assert(self@.failures =~= purged_failures(m, now, ttl_secs).failures);
            assert(self@.totals =~= purged_failures(m, now, ttl_secs).totals);
            assert(self@.streaks =~= purged_failures(m, now, ttl_secs).streaks);
        }
    }

    /// Record that a provider was seen serving a blob at `observed_at`.
    pub fn observe_provider_at(&mut self, hash: [u8; 32], provider: [u8; 32], observed_at: u64)
        requires
            old(self).wf(),
        ensures
            final(self).wf(),
            final(self)@.observations == old(self)@.observations.insert((hash@, provider@), observed_at),
            final(self)@.leases == old(self)@.leases,
            final(self)@.failures == old(self)@.failures,
            final(self)@.totals == old(self)@.totals,
            final(self)@.streaks == old(self)@.streaks,
            final(self)@.max_failures == old(self)@.max_failures,
    {
        self.observations.insert(hash, provider, observed_at);
    }
}


pub(crate) proof fn lemma_push_contains<A>(s: Seq<A>, a: A)
    ensures
        forall|x: A| #[trigger] s.push(a).contains(x) <==> (s.contains(x) || x == a),
        s.no_duplicates() && !s.contains(a) ==> s.push(a).no_duplicates(),
{
    let t = s.push(a);
    assert forall|x: A| #[trigger] t.contains(x) <==> (s.contains(x) || x == a) by {
        if t.contains(x) {
            let q = choose|q: int| 0 <= q < t.len() && t[q] == x;
            if q < s.len() {
                assert(s[q] == x);
            }
        }
        if s.contains(x) {
            let q = choose|q: int| 0 <= q < s.len() && s[q] == x;
            assert(t[q] == x);
        }
        if x == a {
            assert(t[s.len() as int] == x);
        }
    }
    if s.no_duplicates() && !s.contains(a) {
        assert forall|i: int, j: int| 0 <= i < j < t.len() implies t[i] != t[j] by {
            if j == s.len() {
                assert(s.contains(t[i]));
            }
        }
    }
}

impl ProviderLeaseTracker {
    fn active_lease_ids(&self, hash: &[u8; 32], now: u64) -> (ids: Vec<[u8; 32]>)
        requires
            self.wf(),
        ensures
            views32(ids@).no_duplicates(),
            forall|x: Seq<u8>| #[trigger] views32(ids@).contains(x) <==> lease_active(self@, hash@, (hash@, x), now),
    {
        let ghost ks = self.leases.key_seq();
        proof {
            self.leases.lemma_key_seq();
        }
        let n = self.leases.entry_count();
        let mut ids: Vec<[u8; 32]> = Vec::new();
        let mut i: usize = 0;
        while i < n
            invariant
                self.wf(),
                ks == self.leases.key_seq(),
                n == ks.len(),
                i <= n,
                ks.no_duplicates(),
                forall|k: (Seq<u8>, Seq<u8>)| self@.leases.contains_key(k) <==> ks.contains(k),
                views32(ids@).no_duplicates(),
                forall|x: Seq<u8>|
                    #[trigger] views32(ids@).contains(x) <==> (exists|j: int| 0 <= j < i && ks[j] == (hash@, x))
                        && lease_active(self@, hash@, (hash@, x), now),
            decreases n - i,
        {
            let (a, b, l) = self.leases.entry(i);
            let ghost old_ids = views32(ids@);
            proof {
                assert(ks[i as int] == (a@, b@));
            }
            if bytes_eq(a, hash) && l.expires_at > now {
                let id = *b;
                ids.push(id);
                proof {
                    assert(views32(ids@) =~= old_ids.push(b@));
                    if old_ids.contains(b@) {
                        let j = choose|j: int| 0 <= j < i && ks[j] == (hash@, b@);
                        assert(ks[j] == ks[i as int]);
                    }
                    lemma_push_contains(old_ids, b@);
                    assert forall|x: Seq<u8>|
                        #[trigger] views32(ids@).contains(x) <==> (exists|j: int| 0 <= j < i + 1 && ks[j] == (hash@, x))
                            && lease_active(self@, hash@, (hash@, x), now) by {
                        if old_ids.contains(x) {
                            let j = choose|j: int| 0 <= j < i && ks[j] == (hash@, x);
                            assert(0 <= j < i + 1 && ks[j] == (hash@, x));
                        }
                        if x == b@ {
                            assert(ks[i as int] == (hash@, x));
                        }
                        if (exists|j: int| 0 <= j < i + 1 && ks[j] == (hash@, x)) && lease_active(self@, hash@, (hash@, x), now) {
                            let j = choose|j: int| 0 <= j < i + 1 && ks[j] == (hash@, x);
                            if j < i {
                                assert(old_ids.contains(x));
                            }
                        }
                    }
                }
            } else {
                proof {
                    assert forall|x: Seq<u8>|
                        #[trigger] views32(ids@).contains(x) <==> (exists|j: int| 0 <= j < i + 1 && ks[j] == (hash@, x))
                            && lease_active(self@, hash@, (hash@, x), now) by {
                        if (exists|j: int| 0 <= j < i + 1 && ks[j] == (hash@, x)) && lease_active(self@, hash@, (hash@, x), now) {
                            let j = choose|j: int| 0 <= j < i + 1 && ks[j] == (hash@, x);
                            if j == i {
                                assert((a@, b@) == (hash@, x));
                            } else {
                                assert(exists|jj: int| 0 <= jj < i && ks[jj] == (hash@, x));
                            }
                        }
                    }
                }
            }
            i += 1;
        }
        proof {
            assert forall|x: Seq<u8>| #[trigger] views32(ids@).contains(x) <==> lease_active(self@, hash@, (hash@, x), now) by {
                if lease_active(self@, hash@, (hash@, x), now) {
                    assert(ks.contains((hash@, x)));
                    let j = choose|j: int| 0 <= j < ks.len() && ks[j] == (hash@, x);
                }
            }
        }
        ids
    }

    fn fresh_observation_ids(&self, hash: &[u8; 32], now: u64, ttl: u64) -> (ids: Vec<[u8; 32]>)
        requires
            self.wf(),
        ensures
            views32(ids@).no_duplicates(),
            forall|x: Seq<u8>| #[trigger] views32(ids@).contains(x) <==> observation_fresh(self@, hash@, (hash@, x), now, ttl),
    {
        let ghost ks = self.observations.key_seq();
        proof {
            self.observations.lemma_key_seq();
        }
        let n = self.observations.entry_count();
        let mut ids: Vec<[u8; 32]> = Vec::new();
        let mut i: usize = 0;
        while i < n
            invariant
                self.wf(),
                ks == self.observations.key_seq(),
                n == ks.len(),
                i <= n,
                ks.no_duplicates(),
                forall|k: (Seq<u8>, Seq<u8>)| self@.observations.contains_key(k) <==> ks.contains(k),
                views32(ids@).no_duplicates(),
                forall|x: Seq<u8>|
                    #[trigger] views32(ids@).contains(x) <==> (exists|j: int| 0 <= j < i && ks[j] == (hash@, x))
                        && observation_fresh(self@, hash@, (hash@, x), now, ttl),
            decreases n - i,
        {
            let (a, b, t) = self.observations.entry(i);
            let ghost old_ids = views32(ids@);
            proof {
                assert(ks[i as int] == (a@, b@));
            }
            if bytes_eq(a, hash) && now.saturating_sub(*t) <= ttl {
                let id = *b;
                ids.push(id);
                proof {
                    assert(views32(ids@) =~= old_ids.push(b@));
                    if old_ids.contains(b@) {
                        let j = choose|j: int| 0 <= j < i && ks[j] == (hash@, b@);
                        assert(ks[j] == ks[i as int]);
                    }
                    lemma_push_contains(old_ids, b@);
                    assert forall|x: Seq<u8>|
                        #[trigger] views32(ids@).contains(x) <==> (exists|j: int| 0 <= j < i + 1 && ks[j] == (hash@, x))
                            && observation_fresh(self@, hash@, (hash@, x), now, ttl) by {
                        if old_ids.contains(x) {
                            let j = choose|j: int| 0 <= j < i && ks[j] == (hash@, x);
                            assert(0 <= j < i + 1 && ks[j] == (hash@, x));
                        }
                        if x == b@ {
                            assert(ks[i as int] == (hash@, x));
                        }
                        if (exists|j: int| 0 <= j < i + 1 && ks[j] == (hash@, x)) && observation_fresh(self@, hash@, (hash@, x), now, ttl) {
                            let j = choose|j: int| 0 <= j < i + 1 && ks[j] == (hash@, x);
                            if j < i {
                                assert(old_ids.contains(x));
                            }
                        }
                    }
                }
            } else {
                proof {
                    assert forall|x: Seq<u8>|
                        #[trigger] views32(ids@).contains(x) <==> (exists|j: int| 0 <= j < i + 1 && ks[j] == (hash@, x))
                            && observation_fresh(self@, hash@, (hash@, x), now, ttl) by {
                        if (exists|j: int| 0 <= j < i + 1 && ks[j] == (hash@, x)) && observation_fresh(self@, hash@, (hash@, x), now, ttl) {
                            let j = choose|j: int| 0 <= j < i + 1 && ks[j] == (hash@, x);
                            if j == i {
                                assert((a@, b@) == (hash@, x));
                            } else {
                                assert(exists|jj: int| 0 <= jj < i && ks[jj] == (hash@, x));
                            }
                        }
                    }
                }
            }
            i += 1;
        }
        proof {
            assert forall|x: Seq<u8>| #[trigger] views32(ids@).contains(x) <==> observation_fresh(self@, hash@, (hash@, x), now, ttl) by {
                if observation_fresh(self@, hash@, (hash@, x), now, ttl) {
                    assert(ks.contains((hash@, x)));
                    let j = choose|j: int| 0 <= j < ks.len() && ks[j] == (hash@, x);
                }
            }
        }
        ids
    }

    /// The leases active for a blob at `now`, by ascending provider.
    pub fn leases_at(&self, hash: &[u8; 32], now: u64) -> (r: Vec<ProviderLease>)
        requires
            self.wf(),
        ensures
            active_leases_listed(self@, hash@, now, r@),
    {
        let ids = self.active_lease_ids(hash, now);
        let sorted = sort_ids(ids);
        let ghost sv = views32(sorted@);
        let mut r: Vec<ProviderLease> = Vec::new();
        let mut i: usize = 0;
        while i < sorted.len()
            invariant
                self.wf(),
                sv == views32(sorted@),
                i <= sorted@.len(),
                r@.len() == i,
                forall|x: Seq<u8>| #[trigger] sv.contains(x) <==> lease_active(self@, hash@, (hash@, x), now),
                forall|q: int| 0 <= q < i ==> lease_key(#[trigger] r@[q]) == (hash@, sv[q]) && self@.leases[(hash@, sv[q])] == r@[q],
            decreases sorted.len() - i,
        {
            proof {
                assert(sv.contains(sv[i as int]));
            }
            let l = self.leases.get(hash, &sorted[i]);
            match l {
                Some(l) => {
                    let c = l.clone();
                    r.push(c);
                },
                None => {
                    assert(false);
                },
            }
            i += 1;
        }
        proof {
            assert forall|q: int| 0 <= q < r@.len() implies lease_active(self@, hash@, lease_key(#[trigger] r@[q]), now)
                && self@.leases[lease_key(r@[q])] == r@[q] by {
                assert(sv.contains(sv[q]));
            }
            assert forall|k: (Seq<u8>, Seq<u8>)| #[trigger] lease_active(self@, hash@, k, now) implies exists|q: int|
                0 <= q < r@.len() && lease_key(#[trigger] r@[q]) == k by {
                assert(k == (hash@, k.1));
                assert(sv.contains(k.1));
                let q = choose|q: int| 0 <= q < sv.len() && sv[q] == k.1;
                assert(lease_key(r@[q]) == k);
            }
            assert forall|a: int, b: int| 0 <= a < b < r@.len() implies bytes_lt((#[trigger] r@[a]).provider@, (#[trigger] r@[b]).provider@) by {
                assert(lease_key(r@[a]) == (hash@, sv[a]));
                assert(lease_key(r@[b]) == (hash@, sv[b]));
            }
        }
        r
    }

    /// The providers with an active lease for a blob at `now`, ascending.
    pub fn providers_at(&self, hash: &[u8; 32], now: u64) -> (r: Vec<[u8; 32]>)
        requires
            self.wf(),
        ensures
            verified_listed(self@, hash@, now, views32(r@)),
    {
        let ids = self.active_lease_ids(hash, now);
        let r = sort_ids(ids);
        proof {
            let rv = views32(r@);
            assert forall|i: int| 0 <= i < rv.len() implies lease_active(self@, hash@, (hash@, #[trigger] rv[i]), now) by {
                assert(rv.contains(rv[i]));
            }
        }
        r
    }

    /// The blobs for which `provider` holds a lease, each once.
    fn lease_hashes_of(&self, provider: &[u8; 32]) -> (ids: Vec<[u8; 32]>)
        requires
            self.wf(),
        ensures
            views32(ids@).no_duplicates(),
            forall|x: Seq<u8>| #[trigger] views32(ids@).contains(x) <==> self@.leases.contains_key((x, provider@)),
    {
        let ghost ks = self.leases.key_seq();
        proof {
            self.leases.lemma_key_seq();
        }
        let n = self.leases.entry_count();
        let mut ids: Vec<[u8; 32]> = Vec::new();
        let mut i: usize = 0;
        while i < n
            invariant
                self.wf(),
                ks == self.leases.key_seq(),
                n == ks.len(),
                i <= n,
                ks.no_duplicates(),
                forall|k: (Seq<u8>, Seq<u8>)| self@.leases.contains_key(k) <==> ks.contains(k),
                views32(ids@).no_duplicates(),
                forall|x: Seq<u8>|
                    #[trigger] views32(ids@).contains(x) <==> (exists|j: int| 0 <= j < i && ks[j] == (x, provider@)),
            decreases n - i,
        {
            let (a, b, _l) = self.leases.entry(i);
            let ghost old_ids = views32(ids@);
            proof {
                assert(ks[i as int] == (a@, b@));
            }
            if bytes_eq(b, provider) {
                let id = *a;
                ids.push(id);
                proof {
                    assert(views32(ids@) =~= old_ids.push(a@));
                    if old_ids.contains(a@) {
                        let j = choose|j: int| 0 <= j < i && ks[j] == (a@, provider@);
                        assert(ks[j] == ks[i as int]);
                    }
                    lemma_push_contains(old_ids, a@);
                    assert forall|x: Seq<u8>|
                        #[trigger] views32(ids@).contains(x) <==> (exists|j: int| 0 <= j < i + 1 && ks[j] == (x, provider@)) by {
                        if old_ids.contains(x) {
                            let j = choose|j: int| 0 <= j < i && ks[j] == (x, provider@);
                            assert(0 <= j < i + 1 && ks[j] == (x, provider@));
                        }
                        if x == a@ {
                            assert(ks[i as int] == (x, provider@));
                        }
                        if exists|j: int| 0 <= j < i + 1 && ks[j] == (x, provider@) {
                            let j = choose|j: int| 0 <= j < i + 1 && ks[j] == (x, provider@);
                            if j < i {
                                assert(old_ids.contains(x));
                            }
                        }
                    }
                }
            } else {
                proof {
                    assert forall|x: Seq<u8>|
                        #[trigger] views32(ids@).contains(x) <==> (exists|j: int| 0 <= j < i + 1 && ks[j] == (x, provider@)) by {
                        if exists|j: int| 0 <= j < i + 1 && ks[j] == (x, provider@) {
                            let j = choose|j: int| 0 <= j < i + 1 && ks[j] == (x, provider@);
                            if j == i {
                                assert((a@, b@) == (x, provider@));
                            } else {
                                assert(exists|jj: int| 0 <= jj < i && ks[jj] == (x, provider@));
                            }
                        }
                    }
                }
            }
            i += 1;
        }
        proof {
            assert forall|x: Seq<u8>| #[trigger] views32(ids@).contains(x) <==> self@.leases.contains_key((x, provider@)) by {
                if self@.leases.contains_key((x, provider@)) {
                    assert(ks.contains((x, provider@)));
                    let j = choose|j: int| 0 <= j < ks.len() && ks[j] == (x, provider@);
                }
                if views32(ids@).contains(x) {
                    let j = choose|j: int| 0 <= j < n && ks[j] == (x, provider@);
                    assert(ks.contains(ks[j]));
                }
            }
        }
        ids
    }

    /// The blobs for which `provider` holds a lease, ascending.
    pub fn blobs_for_provider(&self, provider: &[u8; 32]) -> (r: Vec<[u8; 32]>)
        requires
            self.wf(),
        ensures
            provider_blobs_listed(self@, provider@, views32(r@)),
    {
        let ids = self.lease_hashes_of(provider);
        sort_ids(ids)
    }

    /// The number of active leases for a blob at `now`.
    pub fn verified_count_at(&self, hash: &[u8; 32], now: u64) -> (n: usize)
        requires
            self.wf(),
        ensures
            exists|r: Seq<Seq<u8>>| verified_listed(self@, hash@, now, r) && r.len() == n,
    {
        let r = self.providers_at(hash, now);
        assert(views32(r@).len() == r@.len());
        assert(verified_listed(self@, hash@, now, views32(r@)));
        r.len()
    }

    /// Verified leases and fresh local observations of a blob at `now`.
    pub fn health_at(&self, hash: &[u8; 32], now: u64, observation_ttl: u64) -> (h: AvailabilityHealth)
        requires
            self.wf(),
        ensures
            verified_listed(self@, hash@, now, views32(h.verified_providers@)),
            local_listed(self@, hash@, now, observation_ttl, views32(h.local_providers@),
            ),
            h.verified == h.verified_providers@.len(),
            h.local == h.local_providers@.len(),
    {
        let verified_providers = self.providers_at(hash, now);
        let ids = self.fresh_observation_ids(hash, now, observation_ttl);
        let local_providers = sort_ids(ids);
        proof {
            let rv = views32(local_providers@);
            assert forall|i: int| 0 <= i < rv.len() implies observation_fresh(self@, hash@, (hash@, #[trigger] rv[i]), now, observation_ttl) by {
                assert(rv.contains(rv[i]));
            }
        }
        AvailabilityHealth {
            verified: verified_providers.len(),
            local: local_providers.len(),
            verified_providers,
            local_providers,
        }
    }
}

/// Keys of leases expired at `now`.
pub open spec fn expired_keys(m: TrackerModel, now: u64) -> Set<(Seq<u8>, Seq<u8>)> {
    Set::new(|k: (Seq<u8>, Seq<u8>)| m.leases.contains_key(k) && m.leases[k].expires_at <= now)
}

/// Keys of observations older than `ttl` seconds at `now`.
pub open spec fn stale_observation_keys(m: TrackerModel, now: u64, ttl: u64) -> Set<(Seq<u8>, Seq<u8>)> {
    Set::new(|k: (Seq<u8>, Seq<u8>)| m.observations.contains_key(k) && sat_sub_u64(now, m.observations[k]) > ttl)
}

/// The leases after tracking a verified `lease`.
pub open spec fn tracked_leases(leases: Map<(Seq<u8>, Seq<u8>), ProviderLease>, lease: ProviderLease) -> Map<
    (Seq<u8>, Seq<u8>),
    ProviderLease,
> {
    if !leases.contains_key(lease_key(lease)) || lease.sequence > leases[lease_key(lease)].sequence {
        leases.insert(lease_key(lease), lease)
    } else {
        leases
    }
}

impl ProviderLeaseTracker {
    fn expired_lease_keys(&self, now: u64) -> (r: Vec<([u8; 32], [u8; 32])>)
        requires
            self.wf(),
        ensures
            pair_views(r@).to_set() == expired_keys(self@, now),
    {
        let ghost ks = self.leases.key_seq();
        proof {
            self.leases.lemma_key_seq();
        }
        let n = self.leases.entry_count();
        let mut r: Vec<([u8; 32], [u8; 32])> = Vec::new();
        let mut i: usize = 0;
        while i < n
            invariant
                self.wf(),
                ks == self.leases.key_seq(),
                n == ks.len(),
                i <= n,
                forall|k: (Seq<u8>, Seq<u8>)| self@.leases.contains_key(k) <==> ks.contains(k),
                forall|x: (Seq<u8>, Seq<u8>)|
                    #[trigger] pair_views(r@).contains(x) <==> (exists|j: int| 0 <= j < i && ks[j] == x)
                        && expired_keys(self@, now).contains(x),
            decreases n - i,
        {
            let (a, b, l) = self.leases.entry(i);
            let ghost old_r = pair_views(r@);
            proof {
                assert(ks[i as int] == (a@, b@));
            }
            if l.expires_at <= now {
                r.push((*a, *b));
                proof {
                    assert(pair_views(r@) =~= old_r.push((a@, b@)));
                    lemma_push_contains(old_r, (a@, b@));
                }
            }
            proof {
                assert forall|x: (Seq<u8>, Seq<u8>)|
                    #[trigger] pair_views(r@).contains(x) <==> (exists|j: int| 0 <= j < i + 1 && ks[j] == x)
                        && expired_keys(self@, now).contains(x) by {
                    if old_r.contains(x) {
                        let j = choose|j: int| 0 <= j < i && ks[j] == x;
                        assert(0 <= j < i + 1 && ks[j] == x);
                    }
                    if (exists|j: int| 0 <= j < i + 1 && ks[j] == x) && expired_keys(self@, now).contains(x) {
                        let j = choose|j: int| 0 <= j < i + 1 && ks[j] == x;
                        if j < i {
                            assert(old_r.contains(x));
                        }
                    }
                }
            }
            i += 1;
        }
        proof {
            assert forall|x: (Seq<u8>, Seq<u8>)| pair_views(r@).to_set().contains(x) <==> expired_keys(self@, now).contains(x) by {
                if expired_keys(self@, now).contains(x) {
                    assert(ks.contains(x));
                    let j = choose|j: int| 0 <= j < ks.len() && ks[j] == x;
                }
            }
            assert(pair_views(r@).to_set() =~= expired_keys(self@, now));
        }
        r
    }

    fn stale_observations(&self, now: u64, ttl: u64) -> (r: Vec<([u8; 32], [u8; 32])>)
        requires
            self.wf(),
        ensures
            pair_views(r@).to_set() == stale_observation_keys(self@, now, ttl),
    {
        let ghost ks = self.observations.key_seq();
        proof {
            self.observations.lemma_key_seq();
        }
        let n = self.observations.entry_count();
        let mut r: Vec<([u8; 32], [u8; 32])> = Vec::new();
        let mut i: usize = 0;
        while i < n
            invariant
                self.wf(),
                ks == self.observations.key_seq(),
                n == ks.len(),
                i <= n,
                forall|k: (Seq<u8>, Seq<u8>)| self@.observations.contains_key(k) <==> ks.contains(k),
                forall|x: (Seq<u8>, Seq<u8>)|
                    #[trigger] pair_views(r@).contains(x) <==> (exists|j: int| 0 <= j < i && ks[j] == x)
                        && stale_observation_keys(self@, now, ttl).contains(x),
            decreases n - i,
        {
            let (a, b, t) = self.observations.entry(i);
            let ghost old_r = pair_views(r@);
            proof {
                assert(ks[i as int] == (a@, b@));
            }
            if now.saturating_sub(*t) > ttl {
                r.push((*a, *b));
                proof {
                    assert(pair_views(r@) =~= old_r.push((a@, b@)));
                    lemma_push_contains(old_r, (a@, b@));
                }
            }
            proof {
                assert forall|x: (Seq<u8>, Seq<u8>)|
                    #[trigger] pair_views(r@).contains(x) <==> (exists|j: int| 0 <= j < i + 1 && ks[j] == x)
                        && stale_observation_keys(self@, now, ttl).contains(x) by {
                    if old_r.contains(x) {
                        let j = choose|j: int| 0 <= j < i && ks[j] == x;
                        assert(0 <= j < i + 1 && ks[j] == x);
                    }
                    if (exists|j: int| 0 <= j < i + 1 && ks[j] == x) && stale_observation_keys(self@, now, ttl).contains(x) {
                        let j = choose|j: int| 0 <= j < i + 1 && ks[j] == x;
                        if j < i {
                            assert(old_r.contains(x));
                        }
                    }
                }
            }
            i += 1;
        }
        proof {
            assert forall|x: (Seq<u8>, Seq<u8>)| pair_views(r@).to_set().contains(x) <==> stale_observation_keys(self@, now, ttl).contains(x) by {
                if stale_observation_keys(self@, now, ttl).contains(x) {
                    assert(ks.contains(x));
                    let j = choose|j: int| 0 <= j < ks.len() && ks[j] == x;
                }
            }
            assert(pair_views(r@).to_set() =~= stale_observation_keys(self@, now, ttl));
        }
        r
    }

    /// Remove expired leases, observations older than `observation_ttl`
    /// seconds, and stale failure records.
    pub fn purge(&mut self, now: u64, observation_ttl: u64)
        requires
            old(self).wf(),
        ensures
            final(self).wf(),
            final(self)@.leases == old(self)@.leases.remove_keys(expired_keys(old(self)@, now)),
            final(self)@.observations == old(self)@.observations.remove_keys(
                stale_observation_keys(old(self)@, now, observation_ttl),
            ),
            final(self)@.failures == purged_failures(old(self)@, now, DEFAULT_FAILURE_TTL_SECS).failures,
            final(self)@.totals == purged_failures(old(self)@, now, DEFAULT_FAILURE_TTL_SECS).totals,
            final(self)@.streaks == purged_failures(old(self)@, now, DEFAULT_FAILURE_TTL_SECS).streaks,
            final(self)@.max_failures == old(self)@.max_failures,
    {
        let ghost m = self@;
        let expired = self.expired_lease_keys(now);
        let stale = self.stale_observations(now, observation_ttl);
        self.leases.remove_all(&expired);
        self.observations.remove_all(&stale);
        proof {
            assert forall|k: (Seq<u8>, Seq<u8>)| #[trigger] self.leases@.contains_key(k) implies lease_key(self.leases@[k]) == k by {
                assert(m.leases.contains_key(k));
            }
            assert(purged_failures(self@, now, DEFAULT_FAILURE_TTL_SECS).failures == purged_failures(m, now, DEFAULT_FAILURE_TTL_SECS).failures);
        }
        self.purge_stale_failures(now, DEFAULT_FAILURE_TTL_SECS);
    }

    /// Change the cap on kept failure details, dropping the oldest details
    /// beyond it.
    pub fn set_max_failures_per_provider(&mut self, max_failures_per_provider: usize)
        requires
            old(self).wf(),
        ensures
            final(self).wf(),
            final(self)@.max_failures == max_failures_per_provider,
            final(self)@.failures.dom() == old(self)@.failures.dom(),
            forall|k: (Seq<u8>, Seq<u8>)| #[trigger] final(self)@.failures.contains_key(k) ==> {
                let a = final(self)@.failures[k];
                let b = old(self)@.failures[k];
                &&& a.failures@ == keep_last(b.failures@, max_failures_per_provider)
                &&& a.consecutive_failures == b.consecutive_failures
                &&& a.last_failure_at == b.last_failure_at
                &&& a.first_failure_at == b.first_failure_at
            },
            final(self)@.leases == old(self)@.leases,
            final(self)@.observations == old(self)@.observations,
            final(self)@.totals == old(self)@.totals,
            final(self)@.streaks == old(self)@.streaks,
    {
        let ghost m = self@;
        self.max_failures_per_provider = max_failures_per_provider;
        let keys = self.failures.keys();
        proof {
            self.failures.lemma_key_seq();
        }
        let ghost kv = pair_views(keys@);
        let mut j: usize = 0;
        while j < keys.len()
            invariant
                j <= keys.len(),
                kv == pair_views(keys@),
                kv.no_duplicates(),
                forall|k: (Seq<u8>, Seq<u8>)| m.failures.contains_key(k) <==> kv.contains(k),
                self.wf(),
                self@.max_failures == max_failures_per_provider,
                self@.leases == m.leases,
                self@.observations == m.observations,
                self@.totals == m.totals,
                self@.streaks == m.streaks,
                self@.failures.dom() == m.failures.dom(),
                forall|k: (Seq<u8>, Seq<u8>)| #[trigger] self@.failures.contains_key(k) ==> {
                    let a = self@.failures[k];
                    let b = m.failures[k];
                    &&& a.failures@ == (if kv.subrange(0, j as int).contains(k) {
                        keep_last(b.failures@, max_failures_per_provider)
                    } else {
                        b.failures@
                    })
                    &&& a.consecutive_failures == b.consecutive_failures
                    &&& a.last_failure_at == b.last_failure_at
                    &&& a.first_failure_at == b.first_failure_at
                },
            decreases keys.len() - j,
        {
            let (a, b) = keys[j];
            let ghost k = (a@, b@);
            proof {
                assert(kv[j as int] == k);
                assert(kv.contains(k));
                assert(!kv.subrange(0, j as int).contains(k)) by {
                    if kv.subrange(0, j as int).contains(k) {
                        let q = choose|q: int| 0 <= q < j && kv.subrange(0, j as int)[q] == k;
                        assert(kv[q] == kv[j as int]);
                    }
                }
                assert forall|y: (Seq<u8>, Seq<u8>)| kv.subrange(0, j + 1).contains(y) <==> (kv.subrange(0, j as int).contains(y) || y == k) by {
                    lemma_push_contains(kv.subrange(0, j as int), k);
                    assert(kv.subrange(0, j + 1) =~= kv.subrange(0, j as int).push(k));
                }
            }
            let ghost before = self@.failures;
            match self.failures.remove(&a, &b) {
                Some(mut rec) => {
                    let len = rec.failures.len();
                    if len > max_failures_per_provider {
                        let keep_from = len - max_failures_per_provider;
                        let kept = rec.failures.split_off(keep_from);
                        rec.failures = kept;
                    }
                    self.failures.insert(a, b, rec);
                    proof {
                        assert(self@.failures.dom() =~= before.dom());
                    }
                },
                None => {
                    assert(false);
                },
            }
            j += 1;
        }
        proof {
            assert(kv.subrange(0, kv.len() as int) =~= kv);
        }
    }
}

impl Default for ProviderLeaseTracker {
    fn default() -> (t: Self)
        ensures
            t.wf(),
            t@.leases == Map::<(Seq<u8>, Seq<u8>), ProviderLease>::empty(),
            t@.observations == Map::<(Seq<u8>, Seq<u8>), u64>::empty(),
            t@.failures == Map::<(Seq<u8>, Seq<u8>), FailureRecord>::empty(),
            t@.totals == Map::<(Seq<u8>, Seq<u8>), u64>::empty(),
            t@.streaks == Map::<(Seq<u8>, Seq<u8>), u32>::empty(),
            t@.max_failures == DEFAULT_MAX_FAILURES_PER_PROVIDER,
    {
        Self::with_max_failures_per_provider(DEFAULT_MAX_FAILURES_PER_PROVIDER)
    }
}

impl ProviderLeaseTracker {
    /// Track a lease that verifies now; see [`Self::track_at`].
    pub fn track(&mut self, lease: ProviderLease, ticket: Option<TicketInfo>, unsigned: &[u8]) -> (r:
        Result<LeaseUpdate>)
        requires
            old(self).wf(),
        ensures
            final(self).wf(),
            r is Ok ==> lease_fields_valid(lease, ticket) && lease_signature_valid(lease, unsigned@),
            r is Ok ==> final(self)@.leases == tracked_leases(old(self)@.leases, lease),
            r is Err ==> final(self)@.leases == old(self)@.leases,
            final(self)@.observations == old(self)@.observations,
            final(self)@.failures == old(self)@.failures,
            final(self)@.totals == old(self)@.totals,
            final(self)@.streaks == old(self)@.streaks,
            final(self)@.max_failures == old(self)@.max_failures,
    {
        self.track_at(lease, ticket, unsigned, crate::clock::current_epoch_seconds())
    }

    /// Same as [`Self::track`].
    pub fn record_lease(&mut self, lease: ProviderLease, ticket: Option<TicketInfo>, unsigned: &[u8]) -> (r:
        Result<LeaseUpdate>)
        requires
            old(self).wf(),
        ensures
            final(self).wf(),
            r is Ok ==> lease_fields_valid(lease, ticket) && lease_signature_valid(lease, unsigned@),
            r is Ok ==> final(self)@.leases == tracked_leases(old(self)@.leases, lease),
            r is Err ==> final(self)@.leases == old(self)@.leases,
            final(self)@.observations == old(self)@.observations,
            final(self)@.failures == old(self)@.failures,
    {
        self.track(lease, ticket, unsigned)
    }

    /// Same as [`Self::track`].
    pub fn add_lease(&mut self, lease: ProviderLease, ticket: Option<TicketInfo>, unsigned: &[u8]) -> (r:
        Result<LeaseUpdate>)
        requires
            old(self).wf(),
        ensures
            final(self).wf(),
            r is Ok ==> lease_fields_valid(lease, ticket) && lease_signature_valid(lease, unsigned@),
            r is Ok ==> final(self)@.leases == tracked_leases(old(self)@.leases, lease),
            r is Err ==> final(self)@.leases == old(self)@.leases,
            final(self)@.observations == old(self)@.observations,
            final(self)@.failures == old(self)@.failures,
    {
        self.track(lease, ticket, unsigned)
    }

    /// Record a failure now; see [`Self::record_failure_at`].
    pub fn record_failure(&mut self, hash: [u8; 32], provider: [u8; 32], failure: FetchFailure)
        requires
            old(self).wf(),
        ensures
            final(self).wf(),
            exists|now: u64|
                failure_recorded(
                    purged_failures(old(self)@, now, DEFAULT_FAILURE_TTL_SECS),
                    final(self)@,
                    (hash@, provider@),
                    failure,
                    now,
                ),
    {
        let now = crate::clock::current_epoch_seconds();
        self.record_failure_at(hash, provider, failure, now);
    }

    /// Record that a provider was seen serving a blob now.
    pub fn observe_provider(&mut self, hash: [u8; 32], provider: [u8; 32])
        requires
            old(self).wf(),
        ensures
            final(self).wf(),
            exists|t: u64| final(self)@.observations == old(self)@.observations.insert((hash@, provider@), t),
            final(self)@.leases == old(self)@.leases,
            final(self)@.failures == old(self)@.failures,
    {
        let now = crate::clock::current_epoch_seconds();
        self.observe_provider_at(hash, provider, now);
    }

    /// The leases active now for a blob.
    pub fn leases(&self, hash: &[u8; 32]) -> (r: Vec<ProviderLease>)
        requires
            self.wf(),
        ensures
            exists|now: u64| #[trigger] active_leases_listed(self@, hash@, now, r@),
    {
        let now = crate::clock::current_epoch_seconds();
        self.leases_at(hash, now)
    }

    /// The providers with a lease active now for a blob.
    pub fn providers(&self, hash: &[u8; 32]) -> (r: Vec<[u8; 32]>)
        requires
            self.wf(),
        ensures
            exists|now: u64| #[trigger] verified_listed(self@, hash@, now, views32(r@)),
    {
        let now = crate::clock::current_epoch_seconds();
        self.providers_at(hash, now)
    }

    /// The number of leases active now for a blob.
    pub fn verified_count(&self, hash: &[u8; 32]) -> (n: usize)
        requires
            self.wf(),
        ensures
            exists|now: u64, r: Seq<Seq<u8>>| #[trigger] verified_listed(self@, hash@, now, r) && r.len() == n,
    {
        let now = crate::clock::current_epoch_seconds();
        let r = self.providers_at(hash, now);
        assert(verified_listed(self@, hash@, now, views32(r@)));
        r.len()
    }

    /// The availability of a blob now.
    pub fn health(&self, hash: &[u8; 32], observation_ttl: u64) -> (h: AvailabilityHealth)
        requires
            self.wf(),
        ensures
            exists|now: u64|
                #[trigger] verified_listed(self@, hash@, now, views32(h.verified_providers@))
                    && local_listed(self@, hash@, now, observation_ttl, views32(h.local_providers@)),
            h.verified == h.verified_providers@.len(),
            h.local == h.local_providers@.len(),
    {
        let now = crate::clock::current_epoch_seconds();
        self.health_at(hash, now, observation_ttl)
    }
}

/// Default seconds that a local observation counts.
pub const DEFAULT_OBSERVATION_TTL_SECS: u64 = 300;

/// Default maximum jitter before a repair fetch, in milliseconds.
pub const DEFAULT_MAX_JITTER_MILLIS: u64 = 30000;

/// Default number of closest providers a node fetches from.
pub const DEFAULT_RESPONSIBLE_PEERS: usize = 1;

/// Replication policy: how many verified providers a blob should have, how
/// many of the closest providers to fetch from, the maximum jitter before a
/// fetch (milliseconds) and how long local observations count (seconds).
#[derive(Clone, Copy, Debug, PartialEq, Eq, Structural)]
pub struct ReplicationBudget {
    pub min_providers: usize,
    pub responsible_peers: usize,
    pub max_jitter: u64,
    pub observation_ttl: u64,
}

impl ReplicationBudget {
    /// A budget with the default responsibility and timing settings.
    pub fn new(min_providers: usize) -> (b: Self)
        ensures
            b.min_providers == min_providers,
            b.responsible_peers == DEFAULT_RESPONSIBLE_PEERS,
            b.max_jitter == DEFAULT_MAX_JITTER_MILLIS,
            b.observation_ttl == DEFAULT_OBSERVATION_TTL_SECS,
    {
        ReplicationBudget {
            min_providers,
            responsible_peers: DEFAULT_RESPONSIBLE_PEERS,
            max_jitter: DEFAULT_MAX_JITTER_MILLIS,
            observation_ttl: DEFAULT_OBSERVATION_TTL_SECS,
        }
    }

    pub fn with_responsible_peers(self, peers: usize) -> (b: Self)
        ensures
            b == (ReplicationBudget { responsible_peers: peers, ..self }),
    {
        ReplicationBudget { responsible_peers: peers, ..self }
    }

    /// Set the maximum jitter in milliseconds.
    pub fn with_max_jitter(self, jitter: u64) -> (b: Self)
        ensures
            b == (ReplicationBudget { max_jitter: jitter, ..self }),
    {
        ReplicationBudget { max_jitter: jitter, ..self }
    }

    /// Set the lifetime of local observations in seconds.
    pub fn with_observation_ttl(self, ttl: u64) -> (b: Self)
        ensures
            b == (ReplicationBudget { observation_ttl: ttl, ..self }),
    {
        ReplicationBudget { observation_ttl: ttl, ..self }
    }
}

impl Default for ReplicationBudget {
    fn default() -> (b: Self)
        ensures
            b.min_providers == 3,
            b.responsible_peers == DEFAULT_RESPONSIBLE_PEERS,
            b.max_jitter == DEFAULT_MAX_JITTER_MILLIS,
            b.observation_ttl == DEFAULT_OBSERVATION_TTL_SECS,
    {
        Self::new(3)
    }
}

/// Configuration of the resilience layer.
#[derive(Clone, Copy, Debug, PartialEq, Eq, Structural)]
pub struct ResilienceConfig {
    pub budget: ReplicationBudget,
    pub max_failures_per_provider: usize,
}

impl ResilienceConfig {
    pub fn new(budget: ReplicationBudget) -> (c: Self)
        ensures
            c.budget == budget,
            c.max_failures_per_provider == DEFAULT_MAX_FAILURES_PER_PROVIDER,
    {
        ResilienceConfig { budget, max_failures_per_provider: DEFAULT_MAX_FAILURES_PER_PROVIDER }
    }

    pub fn with_max_failures_per_provider(self, max_failures_per_provider: usize) -> (c: Self)
        ensures
            c.budget == self.budget,
            c.max_failures_per_provider == max_failures_per_provider,
    {
        ResilienceConfig { max_failures_per_provider, ..self }
    }
}

impl Default for ResilienceConfig {
    fn default() -> (c: Self)
        ensures
            c.budget.min_providers == 3,
            c.budget.responsible_peers == DEFAULT_RESPONSIBLE_PEERS,
            c.budget.max_jitter == DEFAULT_MAX_JITTER_MILLIS,
            c.budget.observation_ttl == DEFAULT_OBSERVATION_TTL_SECS,
            c.max_failures_per_provider == DEFAULT_MAX_FAILURES_PER_PROVIDER,
    {
        Self::new(ReplicationBudget::default())
    }
}

/// Result of waiting for a provider's fetch slot.
#[derive(Clone, Copy, Debug, PartialEq, Eq, Structural)]
pub enum FetchWait {
    Ready,
    ShortCircuited,
}

/// The decisions of the resilience layer over one tracker: which leases to
/// keep, whether a blob needs replication, and which providers to fetch it
/// from. The waiting, fetching and pinning around them run outside.
pub struct ResilienceService {
    config: ResilienceConfig,
    tracker: ProviderLeaseTracker,
}

/// What tracking a lease at `now` did: it was accepted exactly when its
/// fields and signature are valid and it has not expired, and only then did
/// the leases change.
pub open spec fn lease_outcome(
    before: TrackerModel,
    after: TrackerModel,
    lease: ProviderLease,
    ticket: Option<TicketInfo>,
    unsigned: Seq<u8>,
    accepted: bool,
    now: u64,
) -> bool {
    &&& (accepted <==> lease_fields_valid(lease, ticket) && lease_signature_valid(lease, unsigned) && lease.expires_at
        > now)
    &&& (accepted ==> after.leases == tracked_leases(before.leases, lease))
    &&& (!accepted ==> after.leases == before.leases)
}

impl ResilienceService {
    pub closed spec fn wf(&self) -> bool {
        self.tracker.wf()
    }

    pub closed spec fn config_spec(&self) -> ResilienceConfig {
        self.config
    }

    pub closed spec fn tracker_spec(&self) -> TrackerModel {
        self.tracker@
    }

    pub fn new(config: ResilienceConfig) -> (s: Self)
        ensures
            s.wf(),
            s.config_spec() == config,
            s.tracker_spec().leases == Map::<(Seq<u8>, Seq<u8>), ProviderLease>::empty(),
            s.tracker_spec().observations == Map::<(Seq<u8>, Seq<u8>), u64>::empty(),
            s.tracker_spec().max_failures == config.max_failures_per_provider,
    {
        ResilienceService {
            config,
            tracker: ProviderLeaseTracker::with_max_failures_per_provider(config.max_failures_per_provider),
        }
    }

    pub fn with_budget(budget: ReplicationBudget) -> (s: Self)
        ensures
            s.wf(),
            s.config_spec() == ResilienceConfig::new_spec(budget),
            s.tracker_spec().leases == Map::<(Seq<u8>, Seq<u8>), ProviderLease>::empty(),
            s.tracker_spec().observations == Map::<(Seq<u8>, Seq<u8>), u64>::empty(),
    {
        Self::new(ResilienceConfig::new(budget))
    }

    pub fn config(&self) -> (c: &ResilienceConfig)
        ensures
            *c == self.config_spec(),
    {
        &self.config
    }

    /// Track a lease that verifies at `now`.
    pub fn record_lease_at(
        &mut self,
        lease: ProviderLease,
        ticket: Option<TicketInfo>,
        unsigned: &[u8],
        now: u64,
    ) -> (r: Result<LeaseUpdate>)
        requires
            old(self).wf(),
        ensures
            final(self).wf(),
            final(self).config_spec() == old(self).config_spec(),
            r is Ok <==> lease_fields_valid(lease, ticket) && lease_signature_valid(lease, unsigned@)
                && lease.expires_at > now,
            r is Ok ==> final(self).tracker_spec().leases == tracked_leases(old(self).tracker_spec().leases, lease),
            r is Err ==> final(self).tracker_spec().leases == old(self).tracker_spec().leases,
            final(self).tracker_spec().observations == old(self).tracker_spec().observations,
    {
        self.tracker.track_at(lease, ticket, unsigned, now)
    }

    /// Record a locally observed provider at `observed_at`.
    pub fn observe_provider_at(&mut self, hash: [u8; 32], provider: [u8; 32], observed_at: u64)
        requires
            old(self).wf(),
        ensures
            final(self).wf(),
            final(self).config_spec() == old(self).config_spec(),
            final(self).tracker_spec().observations == old(self).tracker_spec().observations.insert(
                (hash@, provider@),
                observed_at,
            ),
            final(self).tracker_spec().leases == old(self).tracker_spec().leases,
    {
        self.tracker.observe_provider_at(hash, provider, observed_at)
    }

    /// The availability of a blob at `now`, with the budget's observation
    /// lifetime.
    pub fn health_at(&self, hash: &[u8; 32], now: u64) -> (h: AvailabilityHealth)
        requires
            self.wf(),
        ensures
            verified_listed(self.tracker_spec(), hash@, now, views32(h.verified_providers@)),
            local_listed(self.tracker_spec(), hash@, now, self.config_spec().budget.observation_ttl, views32(h.local_providers@)),
            h.verified == h.verified_providers@.len(),
            h.local == h.local_providers@.len(),
    {
        self.tracker.health_at(hash, now, self.config.budget.observation_ttl)
    }

    /// Whether a blob has fewer active verified leases at `now` than the
    /// budget asks for.
    pub fn needs_replication_at(&self, hash: &[u8; 32], now: u64) -> (b: bool)
        requires
            self.wf(),
        ensures
            exists|r: Seq<Seq<u8>>|
                verified_listed(self.tracker_spec(), hash@, now, r)
                    && b == (r.len() < self.config_spec().budget.min_providers),
    {
        let h = self.health_at(hash, now);
        assert(verified_listed(self.tracker_spec(), hash@, now, views32(h.verified_providers@)));
        h.verified < self.config.budget.min_providers
    }

    /// The closest providers with an active lease at `now`, by consistent
    /// hashing, as many as the budget makes responsible.
    pub fn responsible_providers_at(&self, hash: &[u8; 32], now: u64) -> (r: Vec<[u8; 32]>)
        requires
            self.wf(),
        ensures
            exists|active: Seq<[u8; 32]>| {
                &&& verified_listed(self.tracker_spec(), hash@, now, views32(active))
                &&& selection_spec(hash@, views32(active), self.config_spec().budget.responsible_peers, views32(r@))
            },
    {
        let providers = self.tracker.providers_at(hash, now);
        let r = consistent_hashing_selection(hash, &providers, self.config.budget.responsible_peers);
        assert(verified_listed(self.tracker_spec(), hash@, now, views32(providers@)));
        r
    }

    /// The blobs a provider advertises a lease for, ascending.
    pub fn blobs_for_provider(&self, provider: &[u8; 32]) -> (r: Vec<[u8; 32]>)
        requires
            self.wf(),
        ensures
            provider_blobs_listed(self.tracker_spec(), provider@, views32(r@)),
    {
        self.tracker.blobs_for_provider(provider)
    }

    /// Record a fetch failure at `now`.
    pub fn record_failure_at(&mut self, hash: [u8; 32], provider: [u8; 32], failure: FetchFailure, now: u64)
        requires
            old(self).wf(),
        ensures
            final(self).wf(),
            final(self).config_spec() == old(self).config_spec(),
            failure_recorded(
                purged_failures(old(self).tracker_spec(), now, DEFAULT_FAILURE_TTL_SECS),
                final(self).tracker_spec(),
                (hash@, provider@),
                failure,
                now,
            ),
    {
        self.tracker.record_failure_at(hash, provider, failure, now)
    }

    /// Forget a provider's failures after a successful fetch.
    pub fn clear_failures_for_provider(&mut self, hash: &[u8; 32], provider: &[u8; 32])
        requires
            old(self).wf(),
        ensures
            final(self).wf(),
            final(self).config_spec() == old(self).config_spec(),
            final(self).tracker_spec().failures == old(self).tracker_spec().failures.remove((hash@, provider@)),
            final(self).tracker_spec().totals == old(self).tracker_spec().totals.remove((hash@, provider@)),
            final(self).tracker_spec().streaks == old(self).tracker_spec().streaks.remove((hash@, provider@)),
            final(self).tracker_spec().leases == old(self).tracker_spec().leases,
    {
        self.tracker.clear_failures_for_provider(hash, provider)
    }

    /// Track a lease that verifies now, by the wall clock.
    pub fn record_lease(&mut self, lease: ProviderLease, ticket: Option<TicketInfo>, unsigned: &[u8]) -> (r: Result<
        LeaseUpdate,
    >)
        requires
            old(self).wf(),
        ensures
            final(self).wf(),
            final(self).config_spec() == old(self).config_spec(),
            final(self).tracker_spec().observations == old(self).tracker_spec().observations,
            exists|now: u64|
                #[trigger] lease_outcome(
                    old(self).tracker_spec(),
                    final(self).tracker_spec(),
                    lease,
                    ticket,
                    unsigned@,
                    r is Ok,
                    now,
                ),
    {
        let now = crate::clock::current_epoch_seconds();
        let r = self.record_lease_at(lease, ticket, unsigned, now);
        assert(lease_outcome(old(self).tracker_spec(), self.tracker_spec(), lease, ticket, unsigned@, r is Ok, now));
        r
    }

    /// Track a lease now; the same as `record_lease`.
    pub fn track_lease(&mut self, lease: ProviderLease, ticket: Option<TicketInfo>, unsigned: &[u8]) -> (r: Result<
        LeaseUpdate,
    >)
        requires
            old(self).wf(),
        ensures
            final(self).wf(),
            final(self).config_spec() == old(self).config_spec(),
            final(self).tracker_spec().observations == old(self).tracker_spec().observations,
            exists|now: u64|
                #[trigger] lease_outcome(
                    old(self).tracker_spec(),
                    final(self).tracker_spec(),
                    lease,
                    ticket,
                    unsigned@,
                    r is Ok,
                    now,
                ),
    {
        self.record_lease(lease, ticket, unsigned)
    }

    /// Track a lease now; the same as `record_lease`.
    pub fn ingest_lease(&mut self, lease: ProviderLease, ticket: Option<TicketInfo>, unsigned: &[u8]) -> (r: Result<
        LeaseUpdate,
    >)
        requires
            old(self).wf(),
        ensures
            final(self).wf(),
            final(self).config_spec() == old(self).config_spec(),
            final(self).tracker_spec().observations == old(self).tracker_spec().observations,
            exists|now: u64|
                #[trigger] lease_outcome(
                    old(self).tracker_spec(),
                    final(self).tracker_spec(),
                    lease,
                    ticket,
                    unsigned@,
                    r is Ok,
                    now,
                ),
    {
        self.record_lease(lease, ticket, unsigned)
    }

    /// Record a provider observed locally now.
    pub fn observe_provider(&mut self, hash: [u8; 32], provider: [u8; 32])
        requires
            old(self).wf(),
        ensures
            final(self).wf(),
            final(self).config_spec() == old(self).config_spec(),
            exists|now: u64|
                final(self).tracker_spec().observations == old(self).tracker_spec().observations.insert(
                    (hash@, provider@),
                    now,
                ),
            final(self).tracker_spec().leases == old(self).tracker_spec().leases,
    {
        let now = crate::clock::current_epoch_seconds();
        self.observe_provider_at(hash, provider, now)
    }

    /// The availability of a blob now.
    pub fn health(&self, hash: &[u8; 32]) -> (h: AvailabilityHealth)
        requires
            self.wf(),
        ensures
            exists|now: u64|
                {
                    &&& verified_listed(self.tracker_spec(), hash@, now, views32(h.verified_providers@))
                    &&& local_listed(
                        self.tracker_spec(),
                        hash@,
                        now,
                        self.config_spec().budget.observation_ttl,
                        views32(h.local_providers@),
                    )
                },
            h.verified == h.verified_providers@.len(),
            h.local == h.local_providers@.len(),
    {
        let now = crate::clock::current_epoch_seconds();
        self.health_at(hash, now)
    }

    /// Whether a blob now has fewer active verified leases than the budget
    /// asks for.
    pub fn needs_replication(&self, hash: &[u8; 32]) -> (b: bool)
        requires
            self.wf(),
        ensures
            exists|now: u64, r: Seq<Seq<u8>>|
                verified_listed(self.tracker_spec(), hash@, now, r) && b == (r.len()
                    < self.config_spec().budget.min_providers),
    {
        let now = crate::clock::current_epoch_seconds();
        self.needs_replication_at(hash, now)
    }

    /// The providers now responsible for a blob by consistent hashing.
    pub fn responsible_providers(&self, hash: &[u8; 32]) -> (r: Vec<[u8; 32]>)
        requires
            self.wf(),
        ensures
            exists|now: u64, active: Seq<[u8; 32]>|
                {
                    &&& verified_listed(self.tracker_spec(), hash@, now, views32(active))
                    &&& selection_spec(
                        hash@,
                        views32(active),
                        self.config_spec().budget.responsible_peers,
                        views32(r@),
                    )
                },
    {
        let now = crate::clock::current_epoch_seconds();
        self.responsible_providers_at(hash, now)
    }

    /// Record a fetch failure now.
    pub fn record_failure(&mut self, hash: [u8; 32], provider: [u8; 32], failure: FetchFailure)
        requires
            old(self).wf(),
        ensures
            final(self).wf(),
            final(self).config_spec() == old(self).config_spec(),
            exists|now: u64|
                failure_recorded(
                    purged_failures(old(self).tracker_spec(), now, DEFAULT_FAILURE_TTL_SECS),
                    final(self).tracker_spec(),
                    (hash@, provider@),
                    failure,
                    now,
                ),
    {
        let now = crate::clock::current_epoch_seconds();
        self.record_failure_at(hash, provider, failure, now)
    }

    /// The provider's jitter under the budget's maximum.
    pub fn jitter_delay(&self, hash: &[u8; 32], provider: &[u8; 32]) -> (d: u64)
        ensures
            d == jitter_spec(hash@, provider@, self.config_spec().budget.max_jitter),
    {
        jitter_delay(hash, provider, self.config.budget.max_jitter)
    }
}

impl ResilienceConfig {
    pub open spec fn new_spec(budget: ReplicationBudget) -> ResilienceConfig {
        ResilienceConfig { budget, max_failures_per_provider: DEFAULT_MAX_FAILURES_PER_PROVIDER }
    }
}

/// Tracking never lowers a provider's lease sequence: the tracked lease of
/// the lease's blob and provider has at least the new and the old sequence,
/// and no other lease changes.
pub proof fn law_lease_sequence_monotonic(leases: Map<(Seq<u8>, Seq<u8>), ProviderLease>, lease: ProviderLease)
    ensures
        tracked_leases(leases, lease).contains_key(lease_key(lease)),
        tracked_leases(leases, lease)[lease_key(lease)].sequence >= lease.sequence,
        leases.contains_key(lease_key(lease)) ==> tracked_leases(leases, lease)[lease_key(lease)].sequence
            >= leases[lease_key(lease)].sequence,
        forall|k: (Seq<u8>, Seq<u8>)|
            k != lease_key(lease) ==> tracked_leases(leases, lease).get(k) == #[trigger] leases.get(k),
{
}

/// Recording a failure keeps at most the configured number of details,
/// the newest last, while the aggregate count grows by one.
pub proof fn law_failure_details_capped(
    m: TrackerModel,
    n: TrackerModel,
    k: (Seq<u8>, Seq<u8>),
    failure: FetchFailure,
    now: u64,
)
    requires
        failure_recorded(m, n, k, failure, now),
    ensures
        n.failures[k].failures@.len() <= n.max_failures,
        n.max_failures >= 1 ==> n.failures[k].failures@.last() == failure,
        total_at(n, k) == sat_add_u64(total_at(m, k), 1),
        n.failures[k].consecutive_failures == sat_add_u32(consecutive_at(m, k), 1),
{
}

/// A transient failure resets the definitive streak, so it never leaves a
/// provider definitively failed.
pub proof fn law_transient_failure_not_definitive(
    m: TrackerModel,
    n: TrackerModel,
    k: (Seq<u8>, Seq<u8>),
    failure: FetchFailure,
    now: u64,
)
    requires
        failure_recorded(m, n, k, failure, now),
        !kind_definitive(failure.kind),
    ensures
        streak_at(n, k) == 0,
        streak_at(n, k) < DEFINITIVE_FAILURE_THRESHOLD,
{
}

/// A definitive failure after a kept definitive failure extends the streak;
/// after any other it starts a streak of one.
pub proof fn law_definitive_streak(
    m: TrackerModel,
    n: TrackerModel,
    k: (Seq<u8>, Seq<u8>),
    failure: FetchFailure,
    now: u64,
)
    requires
        failure_recorded(m, n, k, failure, now),
        kind_definitive(failure.kind),
    ensures
        details_at(m, k).len() > 0 && kind_definitive(details_at(m, k).last().kind) ==> streak_at(n, k)
            == sat_add_u32(streak_at(m, k), 1),
        !(details_at(m, k).len() > 0 && kind_definitive(details_at(m, k).last().kind)) ==> streak_at(n, k) == 1,
{
}

/// After a provider's failures are cleared, it has no record, no count
/// and no streak for that blob.
pub proof fn law_cleared_failures(m: TrackerModel, k: (Seq<u8>, Seq<u8>))
    ensures
        !m.failures.remove(k).contains_key(k),
        !m.totals.remove(k).contains_key(k),
        !m.streaks.remove(k).contains_key(k),
{
}

/// After a purge at `now`, no remaining lease is expired at `now`, no
/// remaining observation is older than the lifetime, and every remaining
/// failure record is within the failure lifetime.
pub proof fn law_purge_leaves_only_fresh(m: TrackerModel, now: u64, ttl: u64)
    ensures
        forall|k: (Seq<u8>, Seq<u8>)|
            #[trigger] m.leases.remove_keys(expired_keys(m, now)).contains_key(k) ==> m.leases[k].expires_at > now,
        forall|k: (Seq<u8>, Seq<u8>)|
            #[trigger] m.observations.remove_keys(stale_observation_keys(m, now, ttl)).contains_key(k) ==> sat_sub_u64(
                now,
                m.observations[k],
            ) <= ttl,
        forall|k: (Seq<u8>, Seq<u8>)|
            #[trigger] purged_failures(m, now, ttl).failures.contains_key(k) ==> !failure_stale(m, k, now, ttl),
{
}

/// The jitter never exceeds its maximum.
pub proof fn law_jitter_bounded(hash: Seq<u8>, provider: Seq<u8>, max_millis: u64)
    ensures
        jitter_spec(hash, provider, max_millis) <= max_millis,
{
}

/// Little-endian value of the first eight bytes.
pub open spec fn le_u64(b: Seq<u8>) -> nat {
    b[0] as nat + 256 * (b[1] as nat + 256 * (b[2] as nat + 256 * (b[3] as nat + 256 * (b[4] as nat
        + 256 * (b[5] as nat + 256 * (b[6] as nat + 256 * (b[7] as nat)))))))
}

/// The jitter in milliseconds: the digest of hash and identity, read as a
/// little-endian number, modulo one more than the maximum.
pub open spec fn jitter_spec(hash: Seq<u8>, provider: Seq<u8>, max_millis: u64) -> u64 {
    if max_millis == 0 {
        0
    } else {
        let divisor: nat = if max_millis == u64::MAX {
            u64::MAX as nat
        } else {
            (max_millis + 1) as nat
        };
        (le_u64(blake3_digest(hash + provider)) % divisor) as u64
    }
}

/// A stable pseudo-random delay in `[0, max_millis]` milliseconds for a
/// provider, derived from the blob hash and the provider identity alone.
pub fn jitter_delay(hash: &[u8; 32], provider: &[u8; 32], max_millis: u64) -> (d: u64)
    ensures
        d == jitter_spec(hash@, provider@, max_millis),
        d <= max_millis,
{
    if max_millis == 0 {
        return 0;
    }
    let mut seed: Vec<u8> = Vec::new();
    let mut i: usize = 0;
    while i < 32
        invariant
            i <= 32,
            seed@ == hash@.subrange(0, i as int),
        decreases 32 - i,
    {
        seed.push(hash[i]);
        i += 1;
        assert(seed@ =~= hash@.subrange(0, i as int));
    }
    let mut j: usize = 0;
    while j < 32
        invariant
            j <= 32,
            seed@ == hash@ + provider@.subrange(0, j as int),
        decreases 32 - j,
    {
        seed.push(provider[j]);
        j += 1;
        assert(seed@ =~= hash@ + provider@.subrange(0, j as int));
    }
    assert(provider@.subrange(0, 32) =~= provider@);
    assert(hash@.subrange(0, 32) =~= hash@);
    let digest = blake3_hash(&seed);
    let b = digest;
    let v7: u64 = b[7] as u64;
    let v6: u64 = b[6] as u64 + 256 * v7;
    assert(v6 < 0x1_0000) by (nonlinear_arith)
        requires
            v7 < 0x100,
            v6 == b[6] as u64 + 256 * v7,
            b[6] < 0x100,
    ;
    let v5: u64 = b[5] as u64 + 256 * v6;
    assert(v5 < 0x100_0000) by (nonlinear_arith)
        requires
            v6 < 0x1_0000,
            v5 == b[5] as u64 + 256 * v6,
            b[5] < 0x100,
    ;
    let v4: u64 = b[4] as u64 + 256 * v5;
    assert(v4 < 0x1_0000_0000) by (nonlinear_arith)
        requires
            v5 < 0x100_0000,
            v4 == b[4] as u64 + 256 * v5,
            b[4] < 0x100,
    ;
    let v3: u64 = b[3] as u64 + 256 * v4;
    assert(v3 < 0x100_0000_0000) by (nonlinear_arith)
        requires
            v4 < 0x1_0000_0000,
            v3 == b[3] as u64 + 256 * v4,
            b[3] < 0x100,
    ;
    let v2: u64 = b[2] as u64 + 256 * v3;
    assert(v2 < 0x1_0000_0000_0000) by (nonlinear_arith)
        requires
            v3 < 0x100_0000_0000,
            v2 == b[2] as u64 + 256 * v3,
            b[2] < 0x100,
    ;
    let v1: u64 = b[1] as u64 + 256 * v2;
    assert(v1 < 0x100_0000_0000_0000) by (nonlinear_arith)
        requires
            v2 < 0x1_0000_0000_0000,
            v1 == b[1] as u64 + 256 * v2,
            b[1] < 0x100,
    ;
    let value: u64 = b[0] as u64 + 256 * v1;
    assert(value as nat == le_u64(b@));
    let divisor = max_millis.saturating_add(1);
    value % divisor
}

/// The gossip topic of provider leases: the digest of its seed text.
pub fn resilience_topic() -> (t: [u8; 32])
    ensures
        t@ == blake3_digest("syncweb/provider-leases/v1"@.map_values(|c: char| c as u8)),
{
    let seed = chars_of("syncweb/provider-leases/v1");
    let mut bytes: Vec<u8> = Vec::new();
    let mut i: usize = 0;
    while i < seed.len()
        invariant
            i <= seed.len(),
            bytes@ == seed@.subrange(0, i as int).map_values(|c: char| c as u8),
        decreases seed.len() - i,
    {
        bytes.push(seed[i] as u8);
        i += 1;
        assert(bytes@ =~= seed@.subrange(0, i as int).map_values(|c: char| c as u8));
    }
    assert(seed@.subrange(0, seed@.len() as int) =~= seed@);
    blake3_hash(&bytes)
}

/// How far the repair of one blob has got: the leases active when it
/// started, the providers chosen in consistent-hash order, the one being
/// tried, and what happened so far.
#[derive(Debug)]
pub struct ReplicationProgress {
    pub leases: Vec<ProviderLease>,
    pub selected: Vec<[u8; 32]>,
    pub next: usize,
    pub fetched_from: Option<[u8; 32]>,
    pub failed_from: Vec<([u8; 32], FetchFailureKind)>,
    pub pinned: bool,
    pub short_circuited: bool,
}

impl ReplicationProgress {
    /// A repair that has not started.
    pub fn new() -> (p: Self)
        ensures
            p.leases@.len() == 0,
            p.selected@.len() == 0,
            p.next == 0,
            p.fetched_from is None,
            p.failed_from@.len() == 0,
            !p.pinned,
            !p.short_circuited,
    {
        ReplicationProgress {
            leases: Vec::new(),
            selected: Vec::new(),
            next: 0,
            fetched_from: None,
            failed_from: Vec::new(),
            pinned: false,
            short_circuited: false,
        }
    }
}

/// What the outside reports to a repair.
#[derive(Debug)]
pub enum ReplicationEvent {
    /// The repair begins.
    Start,
    /// Whether the local store already has the blob.
    LocalCopy(bool),
    /// The wait for the current provider's fetch slot ended.
    SlotReady,
    /// A new lease arrived during the wait.
    SlotShortCircuited,
    /// The fetch from the current provider succeeded.
    Fetched,
    /// The fetch from the current provider failed.
    FetchFailed(FetchFailure),
    /// The blob was pinned; `local` is this node's key.
    Pinned { local: [u8; 32] },
}

/// What a repair asks the outside to do next.
#[derive(Debug)]
pub enum ReplicationAction {
    /// Ask the local store whether it has the blob.
    CheckLocalCopy,
    /// Wait for this provider's fetch slot (its jitter delay), watching for
    /// new leases.
    WaitForSlot { provider: [u8; 32] },
    /// Fetch the blob from this provider with this ticket.
    Fetch { provider: [u8; 32], ticket: String },
    /// Pin the blob.
    Pin,
    /// The repair is over; its health afterwards is read by the caller.
    Finish,
}

/// The ticket of the first lease of `provider` among `leases`.
pub open spec fn lease_ticket_of(leases: Seq<ProviderLease>, provider: Seq<u8>) -> Option<String>
    decreases leases.len(),
{
    if leases.len() == 0 {
        None
    } else if leases[0].provider@ == provider {
        Some(leases[0].ticket)
    } else {
        lease_ticket_of(leases.drop_first(), provider)
    }
}

/// The next provider to wait for from position `next`, or the end.
pub open spec fn try_from_spec(selected: Seq<[u8; 32]>, next: int) -> ReplicationAction {
    if 0 <= next < selected.len() {
        ReplicationAction::WaitForSlot { provider: selected[next] }
    } else {
        ReplicationAction::Finish
    }
}

fn try_from(selected: &Vec<[u8; 32]>, next: usize) -> (a: ReplicationAction)
    ensures
        a == try_from_spec(selected@, next as int),
{
    if next < selected.len() {
        ReplicationAction::WaitForSlot { provider: selected[next] }
    } else {
        ReplicationAction::Finish
    }
}

fn find_lease_ticket(leases: &Vec<ProviderLease>, provider: &[u8; 32]) -> (r: Option<String>)
    ensures
        r == lease_ticket_of(leases@, provider@),
{
    let mut i: usize = 0;
    assert(leases@.subrange(0, leases@.len() as int) =~= leases@);
    while i < leases.len()
        invariant
            i <= leases@.len(),
            lease_ticket_of(leases@, provider@) == lease_ticket_of(leases@.subrange(i as int, leases@.len() as int), provider@),
        decreases leases.len() - i,
    {
        let ghost rest = leases@.subrange(i as int, leases@.len() as int);
        assert(rest.drop_first() =~= leases@.subrange(i + 1, leases@.len() as int));
        if bytes_eq(&leases[i].provider, provider) {
            assert(rest[0] == leases@[i as int]);
            return Some(leases[i].ticket.clone());
        }
        i += 1;
    }
    None
}

impl ResilienceService {
    /// One decision of repairing a blob seen at `now`, given what the
    /// outside reports: a blob with enough verified providers, or with no
    /// provider to fetch from, is left alone; a local copy is pinned; else
    /// the chosen providers are tried in turn, each after its fetch slot,
    /// until one fetch succeeds (its failures are then forgotten and the
    /// blob pinned) or a new lease cuts the wait short. Each failure is
    /// recorded. Once pinned, this node is observed serving the blob.
    pub fn replication_step(
        &mut self,
        hash: [u8; 32],
        progress: &mut ReplicationProgress,
        event: ReplicationEvent,
        now: u64,
    ) -> (a: ReplicationAction)
        requires
            old(self).wf(),
        ensures
            final(self).wf(),
            final(self).config_spec() == old(self).config_spec(),
            event is Start ==> {
                &&& *final(self) == *old(self)
                &&& exists|active: Seq<Seq<u8>>| {
                    &&& #[trigger] verified_listed(old(self).tracker_spec(), hash@, now, active)
                    &&& active.len() >= old(self).config_spec().budget.min_providers ==> (a is Finish && *final(progress)
                        == *old(progress))
                    &&& active.len() < old(self).config_spec().budget.min_providers ==> {
                        &&& active_leases_listed(old(self).tracker_spec(), hash@, now, final(progress).leases@)
                        &&& selection_spec(
                            hash@,
                            active,
                            old(self).config_spec().budget.responsible_peers,
                            views32(final(progress).selected@),
                        )
                        &&& final(progress).next == 0
                        &&& final(progress).fetched_from is None
                        &&& final(progress).failed_from@.len() == 0
                        &&& !final(progress).pinned
                        &&& !final(progress).short_circuited
                        &&& (final(progress).selected@.len() == 0 ==> a is Finish)
                        &&& (final(progress).selected@.len() > 0 ==> a is CheckLocalCopy)
                    }
                }
            },
            event matches ReplicationEvent::LocalCopy(present) ==> {
                &&& *final(self) == *old(self)
                &&& *final(progress) == *old(progress)
                &&& present ==> a is Pin
                &&& !present ==> a == try_from_spec(old(progress).selected@, old(progress).next as int)
            },
            event is SlotReady ==> {
                &&& *final(self) == *old(self)
                &&& (old(progress).next < old(progress).selected@.len() ==> {
                    let p = old(progress).selected@[old(progress).next as int];
                    match lease_ticket_of(old(progress).leases@, p@) {
                        Some(t) => *final(progress) == *old(progress) && a == (ReplicationAction::Fetch {
                            provider: p,
                            ticket: t,
                        }),
                        None => *final(progress) == (ReplicationProgress { next: (old(progress).next + 1) as usize, ..*old(progress) })
                            && a == try_from_spec(old(progress).selected@, old(progress).next + 1),
                    }
                })
                &&& (old(progress).next >= old(progress).selected@.len() ==> *final(progress) == *old(progress)
                    && a is Finish)
            },
            event is SlotShortCircuited ==> {
                &&& *final(self) == *old(self)
                &&& *final(progress) == (ReplicationProgress { short_circuited: true, ..*old(progress) })
                &&& a is Finish
            },
            event is Fetched ==> {
                &&& (old(progress).next < old(progress).selected@.len() ==> {
                    let p = old(progress).selected@[old(progress).next as int];
                    &&& *final(progress) == (ReplicationProgress { fetched_from: Some(p), ..*old(progress) })
                    &&& final(self).tracker_spec().failures == old(self).tracker_spec().failures.remove((hash@, p@))
                    &&& final(self).tracker_spec().totals == old(self).tracker_spec().totals.remove((hash@, p@))
                    &&& final(self).tracker_spec().streaks == old(self).tracker_spec().streaks.remove((hash@, p@))
                    &&& final(self).tracker_spec().leases == old(self).tracker_spec().leases
                    &&& a is Pin
                })
                &&& (old(progress).next >= old(progress).selected@.len() ==> *final(self) == *old(self)
                    && *final(progress) == *old(progress) && a is Finish)
            },
            event matches ReplicationEvent::FetchFailed(f) ==> {
                &&& (old(progress).next < old(progress).selected@.len() ==> {
                    let p = old(progress).selected@[old(progress).next as int];
                    &&& failure_recorded(
                        purged_failures(old(self).tracker_spec(), now, DEFAULT_FAILURE_TTL_SECS),
                        final(self).tracker_spec(),
                        (hash@, p@),
                        f,
                        now,
                    )
                    &&& final(progress).failed_from@ == old(progress).failed_from@.push((p, f.kind))
                    &&& final(progress).next == old(progress).next + 1
                    &&& final(progress).leases == old(progress).leases
                    &&& final(progress).selected == old(progress).selected
                    &&& final(progress).fetched_from == old(progress).fetched_from
                    &&& final(progress).pinned == old(progress).pinned
                    &&& final(progress).short_circuited == old(progress).short_circuited
                    &&& a == try_from_spec(old(progress).selected@, old(progress).next + 1)
                })
                &&& (old(progress).next >= old(progress).selected@.len() ==> *final(self) == *old(self)
                    && *final(progress) == *old(progress) && a is Finish)
            },
            event matches ReplicationEvent::Pinned { local } ==> {
                &&& *final(progress) == (ReplicationProgress { pinned: true, ..*old(progress) })
                &&& final(self).tracker_spec().observations == old(self).tracker_spec().observations.insert(
                    (hash@, local@),
                    now,
                )
                &&& final(self).tracker_spec().leases == old(self).tracker_spec().leases
                &&& a is Finish
            },
    {
        match event {
            ReplicationEvent::Start => {
                let active = self.tracker.providers_at(&hash, now);
                proof {
                    assert(views32(active@).len() == active@.len());
                    assert(verified_listed(self.tracker_spec(), hash@, now, views32(active@)));
                }
                if active.len() >= self.config.budget.min_providers {
                    return ReplicationAction::Finish;
                }
                let leases = self.tracker.leases_at(&hash, now);
                let selected = consistent_hashing_selection(&hash, &active, self.config.budget.responsible_peers);
                let empty = selected.len() == 0;
                progress.leases = leases;
                progress.selected = selected;
                progress.next = 0;
                progress.fetched_from = None;
                progress.failed_from = Vec::new();
                progress.pinned = false;
                progress.short_circuited = false;
                if empty {
                    ReplicationAction::Finish
                } else {
                    ReplicationAction::CheckLocalCopy
                }
            },
            ReplicationEvent::LocalCopy(present) => {
                if present {
                    ReplicationAction::Pin
                } else {
                    try_from(&progress.selected, progress.next)
                }
            },
            ReplicationEvent::SlotReady => {
                if progress.next >= progress.selected.len() {
                    return ReplicationAction::Finish;
                }
                let p = progress.selected[progress.next];
                match find_lease_ticket(&progress.leases, &p) {
                    Some(t) => ReplicationAction::Fetch { provider: p, ticket: t },
                    None => {
                        progress.next = progress.next + 1;
                        try_from(&progress.selected, progress.next)
                    },
                }
            },
            ReplicationEvent::SlotShortCircuited => {
                progress.short_circuited = true;
                ReplicationAction::Finish
            },
            ReplicationEvent::Fetched => {
                if progress.next >= progress.selected.len() {
                    return ReplicationAction::Finish;
                }
                let p = progress.selected[progress.next];
                progress.fetched_from = Some(p);
                self.clear_failures_for_provider(&hash, &p);
                ReplicationAction::Pin
            },
            ReplicationEvent::FetchFailed(f) => {
                if progress.next >= progress.selected.len() {
                    return ReplicationAction::Finish;
                }
                let p = progress.selected[progress.next];
                let kind = f.kind;
                self.record_failure_at(hash, p, f, now);
                progress.failed_from.push((p, kind));
                progress.next = progress.next + 1;
                try_from(&progress.selected, progress.next)
            },
            ReplicationEvent::Pinned { local } => {
                progress.pinned = true;
                self.observe_provider_at(hash, local, now);
                ReplicationAction::Finish
            },
        }
    }
}

} // verus!
