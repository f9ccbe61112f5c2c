//! Decoding the rows the indexing database stores back into library values:
//! kind names back to enum variants, fixed-length hashes, and stored signed
//! integers back to unsigned fields. Reading the rows is the caller's part.
use vstd::prelude::*;

use crate::denylist::DenylistRule;
use crate::error::{Result, SyncwebError};
use crate::links::{private_link_ok, PrivateLink};
use crate::network::{iroh_key_text, iroh_parse_public_key};
use crate::reputation::{ProviderTrustSignal, TrustSignalKind};
use crate::text::{chars_of, concat_chars, decimal, decimal_chars, string_of, utf8_lossy, utf8_lossy_string};
use crate::wot::{Attestation, AttestationKind, ModerationAction, ModerationRecord, ModerationScope};

verus! {

/// A stored integer as an unsigned field: negative values read as 0.
pub open spec fn stored_count(v: i64) -> u64 {
    if v < 0 {
        0
    } else {
        v as u64
    }
}

/// A stored integer as an unsigned field.
pub fn stored_u64(v: i64) -> (r: u64)
    ensures
        r == stored_count(v),
{
    if v < 0 {
        0
    } else {
        v as u64
    }
}

/// The bytes as a 32-byte array, when they are exactly that long.
pub open spec fn hash_of(bytes: Seq<u8>) -> Option<Seq<u8>> {
    if bytes.len() == 32 {
        Some(bytes)
    } else {
        None
    }
}

fn to_array32(bytes: &[u8]) -> (a: [u8; 32])
    requires
        bytes@.len() == 32,
    ensures
        a@ == bytes@,
{
    let mut a: [u8; 32] = [0u8; 32];
    let mut i: usize = 0;
    while i < 32
        invariant
            i <= 32,
            bytes@.len() == 32,
            a@.len() == 32,
            forall|k: int| 0 <= k < i ==> a@[k] == bytes@[k],
        decreases 32 - i,
    {
        a[i] = bytes[i];
        i += 1;
    }
    assert(a@ =~= bytes@);
    a
}

/// A stored content hash, which must be 32 bytes long.
pub fn stored_hash(bytes: &[u8]) -> (r: Result<[u8; 32]>)
    ensures
        r is Ok <==> bytes@.len() == 32,
        r matches Ok(h) ==> h@ == bytes@,
        r is Err ==> (r matches Err(SyncwebError::Operation { context, detail }) && context@ == "invalid hash length"@
            && detail@ == "expected 32 bytes, got "@ + decimal(bytes@.len())),
{
    if bytes.len() != 32 {
        let n = bytes.len() as u64;
        let detail = concat_chars(&chars_of("expected 32 bytes, got "), &decimal_chars(n));
        return Err(SyncwebError::Operation { context: "invalid hash length".to_string(), detail: string_of(&detail) });
    }
    Ok(to_array32(bytes))
}

/// An optional stored hash: kept only when it is 32 bytes long.
pub fn stored_optional_hash(bytes: Option<&[u8]>) -> (r: Option<[u8; 32]>)
    ensures
        match bytes {
            Some(b) => match hash_of(b@) {
                Some(h) => r matches Some(a) && a@ == h,
                None => r is None,
            },
            None => r is None,
        },
{
    match bytes {
        Some(b) => if b.len() == 32 {
            Some(to_array32(b))
        } else {
            None
        },
        None => None,
    }
}

/// The moderation action stored under a name.
pub open spec fn moderation_action_named(name: Seq<char>) -> Option<ModerationAction> {
    if name == "Show"@ {
        Some(ModerationAction::Show)
    } else if name == "Hide"@ {
        Some(ModerationAction::Hide)
    } else if name == "Warn"@ {
        Some(ModerationAction::Warn)
    } else if name == "Quarantine"@ {
        Some(ModerationAction::Quarantine)
    } else if name == "Restore"@ {
        Some(ModerationAction::Restore)
    } else {
        None
    }
}

/// The moderation action a stored name denotes.
pub fn moderation_action_from_name(name: &str) -> (r: Result<ModerationAction>)
    ensures
        r is Ok <==> moderation_action_named(name@) is Some,
        r matches Ok(a) ==> moderation_action_named(name@) == Some(a),
        r is Err ==> (r matches Err(SyncwebError::Operation { context, detail }) && context@
            == "unknown moderation action"@ && detail@ == name@),
{
    let v = chars_of(name);
    if crate::parsing::eq_lit(&v, "Show") {
        Ok(ModerationAction::Show)
    } else if crate::parsing::eq_lit(&v, "Hide") {
        Ok(ModerationAction::Hide)
    } else if crate::parsing::eq_lit(&v, "Warn") {
        Ok(ModerationAction::Warn)
    } else if crate::parsing::eq_lit(&v, "Quarantine") {
        Ok(ModerationAction::Quarantine)
    } else if crate::parsing::eq_lit(&v, "Restore") {
        Ok(ModerationAction::Restore)
    } else {
        Err(SyncwebError::Operation { context: "unknown moderation action".to_string(), detail: name.to_string() })
    }
}

/// A stored moderation record, from its content hash bytes, its decoded
/// scope and the other columns. The hash is checked before the action name.
pub fn moderation_record_from_row(
    content: &[u8],
    moderator: String,
    action: &str,
    scope: ModerationScope,
    sequence: i64,
    created_at: i64,
    reason: String,
    signature: Option<String>,
) -> (r: Result<ModerationRecord>)
    ensures
        r is Ok <==> content@.len() == 32 && moderation_action_named(action@) is Some,
        r matches Ok(m) ==> {
            &&& m.content@ == content@
            &&& m.moderator == moderator
            &&& Some(m.action) == moderation_action_named(action@)
            &&& m.scope == scope
            &&& m.sequence == stored_count(sequence)
            &&& m.created_at == stored_count(created_at)
            &&& m.reason == reason
            &&& m.signature == signature
        },
        r is Err && content@.len() != 32 ==> (r matches Err(SyncwebError::Operation { context, .. }) && context@
            == "invalid hash length"@),
        r is Err && content@.len() == 32 ==> (r matches Err(SyncwebError::Operation { context, .. }) && context@
            == "unknown moderation action"@),
{
    let hash = stored_hash(content)?;
    let action = moderation_action_from_name(action)?;
    Ok(
        ModerationRecord {
            content: hash,
            moderator,
            action,
            scope,
            sequence: stored_u64(sequence),
            created_at: stored_u64(created_at),
            reason,
            signature,
        },
    )
}

/// The attestation kind a stored name denotes.
pub fn attestation_kind_from_name(name: &str, other: Option<String>) -> (r: Result<AttestationKind>)
    ensures
        r is Ok <==> (name@ == "license"@ || name@ == "provenance"@ || name@ == "derivative"@ || name@ == "other"@),
        r matches Ok(k) ==> {
            &&& name@ == "license"@ ==> k is License
            &&& name@ == "provenance"@ ==> k is Provenance
            &&& name@ == "derivative"@ ==> k is Derivative
            &&& name@ == "other"@ ==> (k matches AttestationKind::Other(t) && t@ == match other {
                Some(o) => o@,
                None => Seq::<char>::empty(),
            })
        },
        r is Err ==> (r matches Err(SyncwebError::Operation { context, detail }) && context@
            == "unknown attestation kind"@ && detail@ == name@),
{
    proof {
        reveal_strlit("license");
        reveal_strlit("provenance");
        reveal_strlit("derivative");
        reveal_strlit("other");
        assert("license"@.len() == 7 && "provenance"@.len() == 10 && "derivative"@.len() == 10 && "other"@.len() == 5);
        assert("provenance"@[0] != "derivative"@[0]);
    }
    let v = chars_of(name);
    if crate::parsing::eq_lit(&v, "license") {
        Ok(AttestationKind::License)
    } else if crate::parsing::eq_lit(&v, "provenance") {
        Ok(AttestationKind::Provenance)
    } else if crate::parsing::eq_lit(&v, "derivative") {
        Ok(AttestationKind::Derivative)
    } else if crate::parsing::eq_lit(&v, "other") {
        let text = match other {
            Some(o) => o,
            None => String::new(),
        };
        Ok(AttestationKind::Other(text))
    } else {
        Err(SyncwebError::Operation { context: "unknown attestation kind".to_string(), detail: name.to_string() })
    }
}

/// A stored attestation. The hash is checked before the kind name.
pub fn attestation_from_row(
    content: &[u8],
    issuer: String,
    kind: &str,
    kind_other: Option<String>,
    value: String,
    sequence: i64,
    issued_at: i64,
    signature: Option<String>,
) -> (r: Result<Attestation>)
    ensures
        r is Ok <==> content@.len() == 32 && (kind@ == "license"@ || kind@ == "provenance"@ || kind@
            == "derivative"@ || kind@ == "other"@),
        r matches Ok(a) ==> {
            &&& a.content@ == content@
            &&& a.issuer == issuer
            &&& a.value == value
            &&& a.sequence == stored_count(sequence)
            &&& a.issued_at == stored_count(issued_at)
            &&& a.signature == signature
            &&& kind@ == "license"@ ==> a.kind is License
            &&& kind@ == "provenance"@ ==> a.kind is Provenance
            &&& kind@ == "derivative"@ ==> a.kind is Derivative
            &&& kind@ == "other"@ ==> (a.kind matches AttestationKind::Other(t) && t@ == match kind_other {
                Some(o) => o@,
                None => Seq::<char>::empty(),
            })
        },
        r is Err && content@.len() != 32 ==> (r matches Err(SyncwebError::Operation { context, .. }) && context@
            == "invalid hash length"@),
        r is Err && content@.len() == 32 ==> (r matches Err(SyncwebError::Operation { context, .. }) && context@
            == "unknown attestation kind"@),
{
    proof {
        reveal_strlit("license");
        reveal_strlit("provenance");
        reveal_strlit("derivative");
        reveal_strlit("other");
    }
    let hash = stored_hash(content)?;
    let kind = attestation_kind_from_name(kind, kind_other)?;
    Ok(
        Attestation {
            content: hash,
            issuer,
            kind,
            value,
            sequence: stored_u64(sequence),
            issued_at: stored_u64(issued_at),
            signature,
        },
    )
}

/// A stored denylist rule: a device name (its bytes read as lossy UTF-8),
/// a 32-byte content hash, or a file key in an optional folder.
pub fn denylist_rule_from_row(rule_type: &str, value: &[u8], namespace_id: Option<[u8; 32]>) -> (r: Result<
    DenylistRule,
>)
    ensures
        r is Ok <==> (rule_type@ == "device"@ || (rule_type@ == "hash"@ && value@.len() == 32) || rule_type@
            == "file"@),
        r matches Ok(rule) ==> {
            &&& rule_type@ == "device"@ ==> (rule matches DenylistRule::Device(d) && d@ == utf8_lossy(value@) && (
            vstd::utf8::valid_utf8(value@) ==> d@ == vstd::utf8::decode_utf8(value@)))
            &&& rule_type@ == "hash"@ ==> (rule matches DenylistRule::Hash(h) && h@ == value@)
            &&& rule_type@ == "file"@ ==> (rule matches DenylistRule::File { namespace_id: n, key } && n
                == namespace_id && key@ == value@)
        },
        r is Err && rule_type@ == "hash"@ ==> (r matches Err(SyncwebError::Operation { context, .. }) && context@
            == "invalid hash length"@),
        r is Err && rule_type@ != "hash"@ ==> (r matches Err(SyncwebError::Operation { context, detail }) && context@
            == "unknown rule type"@ && detail@ == rule_type@),
{
    proof {
        reveal_strlit("device");
        reveal_strlit("hash");
        reveal_strlit("file");
        assert("device"@.len() == 6 && "hash"@.len() == 4 && "file"@.len() == 4);
        assert("hash"@[0] != "file"@[0]);
    }
    let t = chars_of(rule_type);
    if crate::parsing::eq_lit(&t, "device") {
        Ok(DenylistRule::Device(utf8_lossy_string(value)))
    } else if crate::parsing::eq_lit(&t, "hash") {
        let h = stored_hash(value)?;
        Ok(DenylistRule::Hash(h))
    } else if crate::parsing::eq_lit(&t, "file") {
        Ok(DenylistRule::File { namespace_id, key: crate::text::slice_bytes(value, 0, value.len()) })
    } else {
        Err(SyncwebError::Operation { context: "unknown rule type".to_string(), detail: rule_type.to_string() })
    }
}

/// The trust signal kind stored under a name.
pub open spec fn signal_kind_named(name: Seq<char>) -> Option<TrustSignalKind> {
    if name == "ObservedSuccess"@ {
        Some(TrustSignalKind::ObservedSuccess)
    } else if name == "ObservedFailure"@ {
        Some(TrustSignalKind::ObservedFailure)
    } else if name == "ObservedCorruption"@ {
        Some(TrustSignalKind::ObservedCorruption)
    } else {
        None
    }
}

/// A stored provider trust signal. The reporter key is parsed first, then
/// the provider key, then the kind name.
pub fn trust_signal_from_row(
    reporter: &str,
    provider: &str,
    kind: &str,
    content_hash: Option<&[u8]>,
    sequence: i64,
    timestamp: i64,
    signature: Option<String>,
) -> (r: Result<ProviderTrustSignal>)
    ensures
        r is Ok <==> iroh_key_text(reporter@) is Some && iroh_key_text(provider@) is Some && signal_kind_named(kind@)
            is Some,
        r matches Ok(s) ==> {
            &&& iroh_key_text(reporter@) == Some(s.reporter@)
            &&& iroh_key_text(provider@) == Some(s.provider@)
            &&& signal_kind_named(kind@) == Some(s.signal)
            &&& match content_hash {
                Some(b) => match hash_of(b@) {
                    Some(h) => s.hash matches Some(a) && a@ == h,
                    None => s.hash is None,
                },
                None => s.hash is None,
            }
            &&& s.sequence == stored_count(sequence)
            &&& s.timestamp == stored_count(timestamp)
            &&& s.signature == signature
        },
        r is Err && iroh_key_text(reporter@) is None ==> (r matches Err(SyncwebError::Operation { context, .. })
            && context@ == "invalid reporter"@),
        r is Err && iroh_key_text(reporter@) is Some && iroh_key_text(provider@) is None ==> (r matches Err(
            SyncwebError::Operation { context, .. },
        ) && context@ == "invalid provider"@),
        r is Err && iroh_key_text(reporter@) is Some && iroh_key_text(provider@) is Some ==> (r matches Err(
            SyncwebError::Operation { context, detail },
        ) && context@ == "unknown signal kind"@ && detail@ == kind@),
{
    let reporter_key = match iroh_parse_public_key(reporter) {
        Ok(k) => k,
        Err(e) => {
            return Err(SyncwebError::Operation { context: "invalid reporter".to_string(), detail: e });
        },
    };
    let provider_key = match iroh_parse_public_key(provider) {
        Ok(k) => k,
        Err(e) => {
            return Err(SyncwebError::Operation { context: "invalid provider".to_string(), detail: e });
        },
    };
    let v = chars_of(kind);
    let signal = if crate::parsing::eq_lit(&v, "ObservedSuccess") {
        TrustSignalKind::ObservedSuccess
    } else if crate::parsing::eq_lit(&v, "ObservedFailure") {
        TrustSignalKind::ObservedFailure
    } else if crate::parsing::eq_lit(&v, "ObservedCorruption") {
        TrustSignalKind::ObservedCorruption
    } else {
        return Err(SyncwebError::Operation { context: "unknown signal kind".to_string(), detail: kind.to_string() });
    };
    Ok(
        ProviderTrustSignal {
            provider: provider_key,
            signal,
            hash: stored_optional_hash(content_hash),
            reporter: reporter_key,
            timestamp: stored_u64(timestamp),
            sequence: stored_u64(sequence),
            signature,
        },
    )
}

/// A stored revoked private link: the manifest bytes (all zeros unless they
/// are 32 long) and the capability, never expiring. `None` where such a link
/// is not valid.
pub fn revoked_link_from_row(manifest: &[u8], capability: &str) -> (r: Option<PrivateLink>)
    ensures
        r is Some <==> private_link_ok(capability@, u64::MAX),
        r matches Some(l) ==> {
            &&& l.manifest@ == (if manifest@.len() == 32 {
                manifest@
            } else {
                seq![0u8; 32]
            })
            &&& l.capability@ == capability@
            &&& l.expires_at == u64::MAX
        },
{
    let m: [u8; 32] = if manifest.len() == 32 {
        to_array32(manifest)
    } else {
        let z: [u8; 32] = [0u8; 32];
        assert(z@ =~= seq![0u8; 32]);
        z
    };
    match PrivateLink::new(m, capability, u64::MAX) {
        Ok(l) => Some(l),
        Err(_) => None,
    }
}

/// The column in which a stored row failed to decode.
#[derive(Clone, Copy, Debug, PartialEq, Eq, Structural)]
pub struct ColumnError {
    pub column: usize,
}

/// A stored non-negative integer; a negative one fails to decode.
pub fn stored_unsigned(v: i64, column: usize) -> (r: core::result::Result<u64, ColumnError>)
    ensures
        r is Ok <==> v >= 0,
        r matches Ok(x) ==> x == v,
        r matches Err(e) ==> e.column == column,
{
    if v < 0 {
        Err(ColumnError { column })
    } else {
        Ok(v as u64)
    }
}

/// A stored indexed entry: its folder (absent when the stored text did not
/// parse), key, 32-byte hash and non-negative size, checked in that order.
pub fn indexed_entry_from_row(
    namespace_id: Option<[u8; 32]>,
    key: Vec<u8>,
    hash: &[u8],
    size: i64,
) -> (r: core::result::Result<crate::indexing::IndexedEntry, ColumnError>)
    ensures
        r is Ok <==> namespace_id is Some && hash@.len() == 32 && size >= 0,
        r matches Ok(e) ==> Some(e.namespace_id) == namespace_id && e.key == key && e.hash@ == hash@ && e.size == size,
        r matches Err(c) ==> c.column == (if namespace_id is None {
            0usize
        } else if hash@.len() != 32 {
            2usize
        } else {
            3usize
        }),
{
    let ns = match namespace_id {
        Some(n) => n,
        None => return Err(ColumnError { column: 0 }),
    };
    if hash.len() != 32 {
        return Err(ColumnError { column: 2 });
    }
    let h = to_array32(hash);
    let size = stored_unsigned(size, 3)?;
    Ok(crate::indexing::IndexedEntry { namespace_id: ns, key, hash: h, size })
}

/// A stored metadata entry: a 32-byte hash, then a non-negative sequence
/// and creation time, checked in that order.
pub fn wot_metadata_from_row(
    content: &[u8],
    key: String,
    value: String,
    author: String,
    sequence: i64,
    created_at: i64,
    signature: Option<String>,
) -> (r: core::result::Result<crate::wot::MetadataEntry, ColumnError>)
    ensures
        r is Ok <==> content@.len() == 32 && sequence >= 0 && created_at >= 0,
        r matches Ok(m) ==> m.content@ == content@ && m.key == key && m.value == value && m.author == author
            && m.sequence == sequence && m.created_at == created_at && m.signature == signature,
        r matches Err(c) ==> c.column == (if content@.len() != 32 {
            0usize
        } else if sequence < 0 {
            4usize
        } else {
            5usize
        }),
{
    if content.len() != 32 {
        return Err(ColumnError { column: 0 });
    }
    let h = to_array32(content);
    let sequence = stored_unsigned(sequence, 4)?;
    let created_at = stored_unsigned(created_at, 5)?;
    Ok(crate::wot::MetadataEntry { content: h, key, value, author, sequence, created_at, signature })
}

/// A stored catalog record: its catalog and folder (absent when the stored
/// text did not parse), a 32-byte hash, a non-negative size and its tags
/// (absent when they did not decode), checked in that order.
pub fn catalog_record_from_row(
    catalog_namespace_id: Option<[u8; 32]>,
    folder_namespace_id: Option<[u8; 32]>,
    key: Vec<u8>,
    hash: &[u8],
    size: i64,
    folder_name: String,
    title: String,
    tags: Option<Vec<String>>,
    publisher: String,
) -> (r: core::result::Result<crate::catalog::CatalogRecord, ColumnError>)
    ensures
        r is Ok <==> catalog_namespace_id is Some && folder_namespace_id is Some && hash@.len() == 32 && size >= 0
            && tags is Some,
        r matches Ok(c) ==> Some(c.catalog_namespace_id) == catalog_namespace_id && Some(c.folder_namespace_id)
            == folder_namespace_id && c.key == key && c.hash@ == hash@ && c.size == size && c.folder_name == folder_name
            && c.title == title && Some(c.tags) == tags && c.publisher == publisher,
        r matches Err(e) ==> e.column == (if catalog_namespace_id is None {
            0usize
        } else if folder_namespace_id is None {
            1usize
        } else if hash@.len() != 32 {
            3usize
        } else if size < 0 {
            4usize
        } else {
            7usize
        }),
{
    let catalog = match catalog_namespace_id {
        Some(n) => n,
        None => return Err(ColumnError { column: 0 }),
    };
    let folder = match folder_namespace_id {
        Some(n) => n,
        None => return Err(ColumnError { column: 1 }),
    };
    if hash.len() != 32 {
        return Err(ColumnError { column: 3 });
    }
    let h = to_array32(hash);
    let size = stored_unsigned(size, 4)?;
    let tags = match tags {
        Some(t) => t,
        None => return Err(ColumnError { column: 7 }),
    };
    Ok(
        crate::catalog::CatalogRecord {
            catalog_namespace_id: catalog,
            folder_namespace_id: folder,
            key,
            hash: h,
            size,
            folder_name,
            title,
            tags,
            publisher,
        },
    )
}

} // verus!
