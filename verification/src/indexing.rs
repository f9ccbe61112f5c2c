//! The indexing service's events, the step each live folder event calls
//! for, and signed content reports.
use vstd::prelude::*;

use crate::crypto::{
    ed25519_accepts, ed25519_key_is_valid, ed25519_key_valid, ed25519_public_key, ed25519_public_of, ed25519_sign,
    ed25519_signature_of, ed25519_verify, hex_bytes, hex_decode, hex_encode, hex_text,
};
use crate::error::{error_text, Result, SyncwebError};
use crate::text::{chars_of, concat_chars, decimal, decimal_chars, string_of};

verus! {

/// A content entry known to the local indexing service.
#[derive(Debug)]
pub struct IndexedEntry {
    pub namespace_id: [u8; 32],
    pub key: Vec<u8>,
    pub hash: [u8; 32],
    pub size: u64,
}

/// Synchronization events that add or remove no entry.
#[derive(Clone, Copy, Debug)]
pub enum CoreIndexingEvent {
    ContentReady { hash: [u8; 32] },
    PendingContentReady,
    NeighborUp,
    NeighborDown,
    SyncFinished,
}

/// Events the indexing service emits.
#[derive(Debug)]
pub enum IndexingEvent {
    FolderEnabled { namespace_id: [u8; 32] },
    FolderDisabled { namespace_id: [u8; 32] },
    EntryIndexed(IndexedEntry),
    Core { namespace_id: [u8; 32], event: CoreIndexingEvent },
    Error { namespace_id: [u8; 32], message: String },
}

/// What a watched folder document reports, as plain values: an entry
/// written locally or remotely, another synchronization event, or the
/// failure of the event stream.
#[derive(Debug)]
pub enum FolderEvent {
    Inserted { key: Vec<u8>, hash: [u8; 32], len: u64 },
    ContentReady { hash: [u8; 32] },
    PendingContentReady,
    NeighborUp,
    NeighborDown,
    SyncFinished,
    StreamFailed(String),
}

/// What the indexer does with one folder event: index an entry, emit an
/// event and go on, or emit an event and stop watching.
#[derive(Debug)]
pub enum FolderStep {
    Index { key: Vec<u8>, hash: [u8; 32], len: u64 },
    Emit(IndexingEvent),
    Stop(IndexingEvent),
}

/// The core event a folder event passes on, if it is one.
pub open spec fn core_event_of(e: FolderEvent) -> Option<CoreIndexingEvent> {
    match e {
        FolderEvent::ContentReady { hash } => Some(CoreIndexingEvent::ContentReady { hash }),
        FolderEvent::PendingContentReady => Some(CoreIndexingEvent::PendingContentReady),
        FolderEvent::NeighborUp => Some(CoreIndexingEvent::NeighborUp),
        FolderEvent::NeighborDown => Some(CoreIndexingEvent::NeighborDown),
        FolderEvent::SyncFinished => Some(CoreIndexingEvent::SyncFinished),
        _ => None,
    }
}

/// The step for one event of the folder `namespace_id`: an inserted entry
/// is indexed; other synchronization events are passed on as core events;
/// a failed stream is reported and ends the watch.
pub fn folder_event_step(namespace_id: [u8; 32], event: FolderEvent) -> (s: FolderStep)
    ensures
        match event {
            FolderEvent::Inserted { key, hash, len } => s matches FolderStep::Index { key: k, hash: h, len: l } && k@
                == key@ && h == hash && l == len,
            FolderEvent::StreamFailed(m) => s matches FolderStep::Stop(IndexingEvent::Error { namespace_id: n, message })
                && n == namespace_id && message@ == m@,
            _ => s matches FolderStep::Emit(IndexingEvent::Core { namespace_id: n, event: c }) && n == namespace_id && Some(
                c,
            ) == core_event_of(event),
        },
{
    match event {
        FolderEvent::Inserted { key, hash, len } => FolderStep::Index { key, hash, len },
        FolderEvent::ContentReady { hash } => FolderStep::Emit(
            IndexingEvent::Core { namespace_id, event: CoreIndexingEvent::ContentReady { hash } },
        ),
        FolderEvent::PendingContentReady => FolderStep::Emit(
            IndexingEvent::Core { namespace_id, event: CoreIndexingEvent::PendingContentReady },
        ),
        FolderEvent::NeighborUp => FolderStep::Emit(IndexingEvent::Core { namespace_id, event: CoreIndexingEvent::NeighborUp }),
        FolderEvent::NeighborDown => FolderStep::Emit(
            IndexingEvent::Core { namespace_id, event: CoreIndexingEvent::NeighborDown },
        ),
        FolderEvent::SyncFinished => FolderStep::Emit(
            IndexingEvent::Core { namespace_id, event: CoreIndexingEvent::SyncFinished },
        ),
        FolderEvent::StreamFailed(message) => FolderStep::Stop(IndexingEvent::Error { namespace_id, message }),
    }
}

/// The event reporting an attempt to index an entry of `namespace_id`: the
/// indexed entry, or the error's text.
pub fn indexed_event(namespace_id: [u8; 32], outcome: Result<IndexedEntry>) -> (e: IndexingEvent)
    ensures
        match outcome {
            Ok(entry) => e == IndexingEvent::EntryIndexed(entry),
            Err(err) => e matches IndexingEvent::Error { namespace_id: n, message } && n == namespace_id && message@
                == error_text(err),
        },
{
    match outcome {
        Ok(entry) => IndexingEvent::EntryIndexed(entry),
        Err(err) => IndexingEvent::Error { namespace_id, message: err.to_string() },
    }
}

/// An entry may be indexed only in an enabled folder.
pub fn check_folder_enabled(enabled: bool, namespace_text: &str) -> (r: Result<()>)
    ensures
        r is Ok <==> enabled,
        r is Err ==> (r matches Err(SyncwebError::FolderNotFound(m)) && m@ == namespace_text@),
{
    if !enabled {
        return Err(SyncwebError::FolderNotFound(namespace_text.to_string()));
    }
    Ok(())
}

/// A content report, signed by the reporter's node key or, from before
/// signing, unsigned.
#[derive(Debug)]
pub struct ReportRecord {
    pub content: [u8; 32],
    pub reason: String,
    pub created_at: u64,
    pub reporter: Option<String>,
    pub signature: Option<String>,
}

/// The report's signature verifies under `public` over `payload`, the
/// report's canonical encoding.
pub open spec fn report_signed_by(r: ReportRecord, public: Seq<u8>, payload: Seq<u8>) -> bool {
    &&& r.signature matches Some(s)
    &&& hex_bytes(s@) matches Some(b)
    &&& b.len() == 64
    &&& ed25519_accepts(public, payload, b)
}

/// The report's own claim checks out: it is unsigned, or its reporter is a
/// usable key whose signature verifies.
pub open spec fn report_verifies(r: ReportRecord, payload: Seq<u8>) -> bool {
    match r.reporter {
        None => true,
        Some(rep) => hex_bytes(rep@) matches Some(k) && k.len() == 32 && ed25519_key_valid(k) && report_signed_by(
            r,
            k,
            payload,
        ),
    }
}

/// The bytes the report's signature text denotes.
pub open spec fn signature_bytes(r: ReportRecord) -> Option<Seq<u8>> {
    match r.signature {
        Some(s) => hex_bytes(s@),
        None => None,
    }
}

/// The number of signature bytes, zero without any.
pub open spec fn signature_len(r: ReportRecord) -> nat {
    match signature_bytes(r) {
        Some(b) => b.len(),
        None => 0,
    }
}

fn array64(v: &Vec<u8>) -> (a: [u8; 64])
    requires
        v@.len() == 64,
    ensures
        a@ == v@,
{
    let mut a: [u8; 64] = [0u8; 64];
    let mut i: usize = 0;
    while i < 64
        invariant
            i <= 64,
            v@.len() == 64,
            forall|k: int| 0 <= k < i ==> a@[k] == v@[k],
        decreases 64 - i,
    {
        a[i] = v[i];
        i += 1;
    }
    assert(a@ =~= v@);
    a
}

fn array32(v: &Vec<u8>) -> (a: [u8; 32])
    requires
        v@.len() == 32,
    ensures
        a@ == v@,
{
    let mut a: [u8; 32] = [0u8; 32];
    let mut i: usize = 0;
    while i < 32
        invariant
            i <= 32,
            v@.len() == 32,
            forall|k: int| 0 <= k < i ==> a@[k] == v@[k],
        decreases 32 - i,
    {
        a[i] = v[i];
        i += 1;
    }
    assert(a@ =~= v@);
    a
}

impl ReportRecord {
    /// An unsigned report.
    pub fn new(content: [u8; 32], reason: String, created_at: u64) -> (r: Self)
        ensures
            r == (ReportRecord { content, reason, created_at, reporter: None, signature: None }),
    {
        ReportRecord { content, reason, created_at, reporter: None, signature: None }
    }

    /// The report signed with a node's secret key over `payload`, its
    /// canonical encoding: the reporter is the hex public key, the signature
    /// hex text.
    pub fn sign_with(self, secret: &[u8; 32], payload: &[u8]) -> (r: Self)
        ensures
            r.content == self.content && r.reason == self.reason && r.created_at == self.created_at,
            r.reporter matches Some(k) && k@ == hex_text(ed25519_public_of(secret@)),
            r.signature matches Some(s) && s@ == hex_text(ed25519_signature_of(secret@, payload@)),
    {
        let sig = ed25519_sign(secret, payload);
        let public = ed25519_public_key(secret);
        ReportRecord {
            reporter: Some(hex_encode(&public)),
            signature: Some(hex_encode(&sig)),
            ..self
        }
    }

    /// Verify the signature under `public` over `payload`.
    pub fn verify(&self, public: &[u8; 32], payload: &[u8]) -> (r: Result<()>)
        requires
            ed25519_key_valid(public@),
        ensures
            r is Ok <==> report_signed_by(*self, public@, payload@),
            r is Err && self.signature is None ==> (r matches Err(SyncwebError::MissingSignature(m)) && m@
                == "report has no signature"@),
            r is Err && self.signature is Some && signature_bytes(*self) is None ==> (r matches Err(
                SyncwebError::Operation { context, .. },
            ) && context@ == "report signature hex decode"@),
            r is Err && signature_bytes(*self) is Some && signature_len(*self) != 64 ==> (r matches Err(
                SyncwebError::InvalidSignature(m),
            ) && m@ == "report signature has wrong length (expected 64, got "@ + decimal(signature_len(*self)) + ")"@),
    {
        let text = match &self.signature {
            Some(t) => t,
            None => {
                return Err(SyncwebError::MissingSignature("report has no signature".to_string()));
            },
        };
        let bytes = match hex_decode(text.as_str()) {
            Ok(b) => b,
            Err(e) => {
                return Err(SyncwebError::Operation { context: "report signature hex decode".to_string(), detail: e });
            },
        };
        if bytes.len() != 64 {
            let n = bytes.len() as u64;
            let m = concat_chars(&chars_of("report signature has wrong length (expected 64, got "), &decimal_chars(n));
            let m = concat_chars(&m, &chars_of(")"));
            return Err(SyncwebError::InvalidSignature(string_of(&m)));
        }
        let sig = array64(&bytes);
        if !ed25519_verify(public, payload, &sig) {
            return Err(SyncwebError::InvalidSignature("report signature does not match".to_string()));
        }
        Ok(())
    }

    /// Verify the report's own claim: an unsigned report is accepted; a
    /// signed one must name a usable reporter key whose signature verifies.
    pub fn verify_signature(&self, payload: &[u8]) -> (r: Result<()>)
        ensures
            r is Ok <==> report_verifies(*self, payload@),
    {
        let text = match &self.reporter {
            None => return Ok(()),
            Some(t) => t,
        };
        let bytes = match hex_decode(text.as_str()) {
            Ok(b) => b,
            Err(e) => {
                return Err(SyncwebError::Operation { context: "decode reporter key".to_string(), detail: e });
            },
        };
        if bytes.len() != 32 {
            let n = bytes.len() as u64;
            let m = concat_chars(&chars_of("reporter key has wrong length (expected 32, got "), &decimal_chars(n));
            let m = concat_chars(&m, &chars_of(")"));
            return Err(SyncwebError::InvalidSignature(string_of(&m)));
        }
        let key = array32(&bytes);
        if !ed25519_key_is_valid(&key) {
            return Err(SyncwebError::InvalidSignature("invalid reporter key".to_string()));
        }
        self.verify(&key, payload)
    }
}

} // verus!
