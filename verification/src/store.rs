//! What the indexing database writes: the checks a write makes before it
//! touches the database, the column values each record is stored under, and
//! the laws that a stored row reads back as the record that was written.
//! Running the statements is the caller's part (the node's SQLite layer).
use vstd::prelude::*;

use crate::denylist::DenylistRule;
use crate::error::{Result, SyncwebError};
use crate::resilience::clone_opt_string;
use crate::rows::{
    attestation_from_row, denylist_rule_from_row, moderation_action_named, moderation_record_from_row, stored_count,
};
use crate::text::{chars_of, concat_chars, slice_bytes, string_of, trim, trim_chars, utf8_lossy};
use crate::wot::{
    metadata_fields_ok, Attestation, AttestationKind, MetadataEntry, ModerationAction, ModerationRecord,
    ModerationScope, TrustDelegation,
};
use crate::catalog::{record_error, CatalogRecord};
use crate::crypto::{hex_encode, hex_text};
use crate::indexing::ReportRecord;
use crate::network::iroh_key_text;
use crate::reputation::{ProviderReputation, ProviderTrustSignal, TrustSignalKind};
use crate::resilience::ProviderLease;
use crate::rows::{
    hash_of, indexed_entry_from_row, signal_kind_named, stored_hash, stored_optional_hash, stored_u64,
    trust_signal_from_row, wot_metadata_from_row, ColumnError,
};
use vstd::utf8::{decode_utf8, encode_utf8, valid_utf8};

verus! {

/// An unsigned value as it is kept in a signed 64-bit column: values past
/// `i64::MAX` are kept as `i64::MAX`.
pub open spec fn stored_of(v: u64) -> i64 {
    if v <= i64::MAX as u64 {
        v as i64
    } else {
        i64::MAX
    }
}

/// An unsigned value for a signed 64-bit column, saturating.
pub fn store_u64(v: u64) -> (r: i64)
    ensures
        r == stored_of(v),
{
    if v <= i64::MAX as u64 {
        v as i64
    } else {
        i64::MAX
    }
}

/// An optional unsigned value for a signed 64-bit column, saturating.
pub fn store_optional_u64(v: Option<u64>) -> (r: Option<i64>)
    ensures
        match v {
            Some(x) => r == Some(stored_of(x)),
            None => r is None,
        },
{
    match v {
        Some(x) => Some(store_u64(x)),
        None => None,
    }
}

/// The text of a failed conversion to a narrower integer type.
pub open spec fn conversion_failure() -> Seq<char> {
    "out of range integral type conversion attempted"@
}

/// A size or count that must fit a signed 64-bit column exactly; `context`
/// names what did not fit.
pub fn stored_size(size: u64, context: &str) -> (r: Result<i64>)
    ensures
        r is Ok <==> size <= i64::MAX as u64,
        r matches Ok(v) ==> v == size,
        r is Err ==> (r matches Err(SyncwebError::Operation { context: c, detail }) && c@ == context@ && detail@
            == conversion_failure()),
{
    if size <= i64::MAX as u64 {
        Ok(size as i64)
    } else {
        Err(
            SyncwebError::Operation {
                context: context.to_string(),
                detail: "out of range integral type conversion attempted".to_string(),
            },
        )
    }
}

/// What a search reads: nothing, the most recently written rows, or the
/// full-text matches, at most `limit` of them.
#[derive(Debug, Clone, Copy, PartialEq, Eq, Structural)]
pub enum SearchPlan {
    Nothing,
    Recent { limit: i64 },
    FullText { limit: i64 },
}

/// The plan for a search with `query` and `limit`: a zero limit reads
/// nothing; a blank query reads the most recent rows; any other query reads
/// full-text matches. A limit past `i64::MAX` fails, reported under
/// `context`.
pub fn search_plan(query: &str, limit: usize, context: &str) -> (r: Result<SearchPlan>)
    ensures
        limit == 0 ==> r == Ok::<SearchPlan, SyncwebError>(SearchPlan::Nothing),
        limit > 0 && limit > i64::MAX ==> (r matches Err(SyncwebError::Operation { context: c, detail }) && c@
            == context@ && detail@ == conversion_failure()),
        limit > 0 && limit <= i64::MAX && trim(query@).len() == 0 ==> r == Ok::<SearchPlan, SyncwebError>(
            SearchPlan::Recent { limit: limit as i64 },
        ),
        limit > 0 && limit <= i64::MAX && trim(query@).len() != 0 ==> r == Ok::<SearchPlan, SyncwebError>(
            SearchPlan::FullText { limit: limit as i64 },
        ),
{
    if limit == 0 {
        return Ok(SearchPlan::Nothing);
    }
    let n = stored_size(limit as u64, context)?;
    if trim_chars(&chars_of(query)).len() == 0 {
        Ok(SearchPlan::Recent { limit: n })
    } else {
        Ok(SearchPlan::FullText { limit: n })
    }
}

/// The one-time change an older schema version still needs.
#[derive(Debug, Clone, Copy, PartialEq, Eq, Structural)]
pub enum SchemaMigration {
    /// Versions before 2 lack the signature column of content reports.
    AddReportSignature,
    /// Version 2 lacks the table of revoked private links.
    CreateRevokedLinks,
    /// Nothing to change.
    Nothing,
}

/// The migration for the stored schema version `version` (empty when none
/// was stored).
pub fn schema_migration(version: &str) -> (m: SchemaMigration)
    ensures
        (version@ == Seq::<char>::empty() || version@ == seq!['1']) ==> m == SchemaMigration::AddReportSignature,
        version@ == seq!['2'] ==> m == SchemaMigration::CreateRevokedLinks,
        !(version@ == Seq::<char>::empty() || version@ == seq!['1'] || version@ == seq!['2']) ==> m
            == SchemaMigration::Nothing,
{
    let v = chars_of(version);
    if v.len() == 0 {
        assert(v@ =~= Seq::<char>::empty());
        return SchemaMigration::AddReportSignature;
    }
    if v.len() == 1 && v[0] == '1' {
        assert(v@ =~= seq!['1']);
        return SchemaMigration::AddReportSignature;
    }
    if v.len() == 1 && v[0] == '2' {
        assert(v@ =~= seq!['2']);
        return SchemaMigration::CreateRevokedLinks;
    }
    assert(v@ != seq!['1'] && v@ != seq!['2']) by {
        if v@ =~= seq!['1'] || v@ =~= seq!['2'] {
            assert(v@.len() == 1);
        }
    }
    SchemaMigration::Nothing
}

/// A catalog's records may be stored only while the catalog is enabled.
pub fn check_catalog_enabled(enabled: bool, namespace_text: &str) -> (r: Result<()>)
    ensures
        r is Ok <==> enabled,
        r is Err ==> (r matches Err(SyncwebError::InvalidConfig(m)) && m@ == "catalog is not enabled: "@
            + namespace_text@),
{
    if !enabled {
        let m = concat_chars(&chars_of("catalog is not enabled: "), &chars_of(namespace_text));
        return Err(SyncwebError::InvalidConfig(string_of(&m)));
    }
    Ok(())
}

/// The cutoff before which a reputation's last activity is stale: `ttl`
/// seconds before `now`, or the least column value when that time does not
/// fit a signed column.
pub open spec fn stale_cutoff_of(now: u64, ttl: u64) -> i64 {
    let c: u64 = if now >= ttl {
        (now - ttl) as u64
    } else {
        0
    };
    if c <= i64::MAX as u64 {
        c as i64
    } else {
        i64::MIN
    }
}

/// The stale cutoff for `now` and `ttl`.
pub fn stale_cutoff(now: u64, ttl: u64) -> (c: i64)
    ensures
        c == stale_cutoff_of(now, ttl),
{
    let c = now.saturating_sub(ttl);
    if c <= i64::MAX as u64 {
        c as i64
    } else {
        i64::MIN
    }
}

/// Where the last segment of a path starts: just after its last `/`, or at
/// the start when it has none.
pub open spec fn segment_start(s: Seq<char>) -> int
    decreases s.len(),
{
    if s.len() == 0 {
        0
    } else if s.last() == '/' {
        s.len() as int
    } else {
        segment_start(s.drop_last())
    }
}

/// `.`, the current directory.
pub open spec fn is_dot(seg: Seq<char>) -> bool {
    seg.len() == 1 && seg[0] == '.'
}

/// `..`, the parent directory.
pub open spec fn is_dot_dot(seg: Seq<char>) -> bool {
    seg.len() == 2 && seg[0] == '.' && seg[1] == '.'
}

/// The name a single segment gives a path: none for an empty segment, `.`
/// or `..`.
pub open spec fn segment_name(seg: Seq<char>) -> Option<Seq<char>> {
    if seg.len() == 0 || is_dot(seg) || is_dot_dot(seg) {
        None
    } else {
        Some(seg)
    }
}

/// The final name of a `/`-separated path, as `std::path::Path::file_name`
/// gives it: the last segment after empty and `.` segments are dropped,
/// unless that is `..` or there is none.
pub open spec fn file_name_of(s: Seq<char>) -> Option<Seq<char>>
    decreases s.len(),
{
    let i = segment_start(s);
    let seg = s.subrange(i, s.len() as int);
    if i <= 0 || i > s.len() {
        segment_name(seg)
    } else if seg.len() == 0 || is_dot(seg) {
        file_name_of(s.subrange(0, i - 1))
    } else {
        segment_name(seg)
    }
}

/// The title of an indexed entry: the file name of its key's text, or the
/// whole text when it names no file.
pub open spec fn entry_title_of(key_text: Seq<char>) -> Seq<char> {
    match file_name_of(key_text) {
        Some(n) => n,
        None => key_text,
    }
}

/// The title an entry key's text is searched under.
pub fn entry_title(key_text: &str) -> (t: String)
    ensures
        t@ == entry_title_of(key_text@),
{
    let v = chars_of(key_text);
    let mut end: usize = v.len();
    assert(v@.subrange(0, v@.len() as int) =~= v@);
    loop
        invariant
            end <= v@.len(),
            file_name_of(v@.subrange(0, end as int)) == file_name_of(key_text@),
            v@ == key_text@,
        decreases end,
    {
        let mut i: usize = end;
        while i > 0 && v[i - 1] != '/'
            invariant
                i <= end <= v@.len(),
                segment_start(v@.subrange(0, end as int)) == segment_start(v@.subrange(0, i as int)),
                forall|k: int| i <= k < end ==> v@[k] != '/',
            decreases i,
        {
            assert(v@.subrange(0, i as int).drop_last() =~= v@.subrange(0, i - 1));
            i = i - 1;
        }
        let ghost p = v@.subrange(0, end as int);
        proof {
            if i > 0 {
                assert(v@.subrange(0, i as int).last() == '/');
            }
            assert(segment_start(p) == i);
            assert(p.subrange(i as int, end as int) =~= v@.subrange(i as int, end as int));
        }
        let seg = crate::text::slice_chars(&v, i, end);
        let dot = seg.len() == 1 && seg[0] == '.';
        let dot_dot = seg.len() == 2 && seg[0] == '.' && seg[1] == '.';
        if i > 0 && (seg.len() == 0 || dot) {
            assert(p.subrange(0, i - 1) =~= v@.subrange(0, i - 1));
            end = i - 1;
        } else {
            if seg.len() == 0 || dot || dot_dot {
                return key_text.to_string();
            }
            return string_of(&seg);
        }
    }
}

fn bytes_of_hash(h: &[u8; 32]) -> (v: Vec<u8>)
    ensures
        v@ == h@,
{
    let v = slice_bytes(h, 0, 32);
    assert(v@ =~= h@);
    v
}

/// Every unsigned value up to `i64::MAX` reads back from its column
/// unchanged; larger values read back as `i64::MAX`.
pub proof fn law_stored_integers_read_back(v: u64)
    ensures
        v <= i64::MAX as u64 ==> stored_count(stored_of(v)) == v,
        v > i64::MAX as u64 ==> stored_count(stored_of(v)) == i64::MAX as u64,
{
}

/// The name a moderation action is stored under.
pub open spec fn action_name(a: ModerationAction) -> Seq<char> {
    match a {
        ModerationAction::Show => "Show"@,
        ModerationAction::Hide => "Hide"@,
        ModerationAction::Warn => "Warn"@,
        ModerationAction::Quarantine => "Quarantine"@,
        ModerationAction::Restore => "Restore"@,
    }
}

/// The name of a moderation action.
pub fn moderation_action_name(a: &ModerationAction) -> (s: &'static str)
    ensures
        s@ == action_name(*a),
{
    match a {
        ModerationAction::Show => "Show",
        ModerationAction::Hide => "Hide",
        ModerationAction::Warn => "Warn",
        ModerationAction::Quarantine => "Quarantine",
        ModerationAction::Restore => "Restore",
    }
}

/// Every moderation action reads back from the name it is stored under.
pub proof fn law_action_names_read_back(a: ModerationAction)
    ensures
        moderation_action_named(action_name(a)) == Some(a),
{
    reveal_strlit("Show");
    reveal_strlit("Hide");
    reveal_strlit("Warn");
    reveal_strlit("Quarantine");
    reveal_strlit("Restore");
    assert("Show"@[0] == 'S' && "Hide"@[0] == 'H' && "Warn"@[0] == 'W' && "Quarantine"@[0] == 'Q' && "Restore"@[0]
        == 'R');
}

/// The columns a moderation record is stored under; its scope is stored
/// in an encoding of its own.
#[derive(Debug)]
pub struct ModerationRow {
    pub content: Vec<u8>,
    pub moderator: String,
    pub action: String,
    pub sequence: i64,
    pub created_at: i64,
    pub reason: String,
    pub signature: Option<String>,
}

/// The row holds the record `m`.
pub open spec fn moderation_row_holds(row: ModerationRow, m: ModerationRecord) -> bool {
    &&& row.content@ == m.content@
    &&& row.moderator == m.moderator
    &&& row.action@ == action_name(m.action)
    &&& row.sequence == stored_of(m.sequence)
    &&& row.created_at == stored_of(m.created_at)
    &&& row.reason == m.reason
    &&& row.signature == m.signature
}

/// The row reads back, in scope `scope`, as the record `m`.
pub open spec fn moderation_row_reads(row: ModerationRow, scope: ModerationScope, m: ModerationRecord) -> bool {
    &&& m.content@ == row.content@
    &&& m.moderator == row.moderator
    &&& Some(m.action) == moderation_action_named(row.action@)
    &&& m.scope == scope
    &&& m.sequence == stored_count(row.sequence)
    &&& m.created_at == stored_count(row.created_at)
    &&& m.reason == row.reason
    &&& m.signature == row.signature
}

/// The row of a moderation record.
pub fn moderation_row(m: &ModerationRecord) -> (row: ModerationRow)
    ensures
        moderation_row_holds(row, *m),
{
    ModerationRow {
        content: bytes_of_hash(&m.content),
        moderator: m.moderator.clone(),
        action: moderation_action_name(&m.action).to_string(),
        sequence: store_u64(m.sequence),
        created_at: store_u64(m.created_at),
        reason: m.reason.clone(),
        signature: clone_opt_string(&m.signature),
    }
}

/// The moderation record a stored row holds, in the decoded scope: it fails
/// unless the hash is 32 bytes long and the action name is known.
pub fn moderation_record_of_row(row: ModerationRow, scope: ModerationScope) -> (r: Result<ModerationRecord>)
    ensures
        r is Ok <==> row.content@.len() == 32 && moderation_action_named(row.action@) is Some,
        r matches Ok(m) ==> moderation_row_reads(row, scope, m),
{
    moderation_record_from_row(
        row.content.as_slice(),
        row.moderator,
        row.action.as_str(),
        scope,
        row.sequence,
        row.created_at,
        row.reason,
        row.signature,
    )
}

/// A moderation record's row reads back as the record itself, for
/// sequences and times up to `i64::MAX`.
pub proof fn law_moderation_rows_read_back(row: ModerationRow, m: ModerationRecord)
    requires
        moderation_row_holds(row, m),
        m.sequence <= i64::MAX as u64,
        m.created_at <= i64::MAX as u64,
    ensures
        row.content@.len() == 32,
        moderation_action_named(row.action@) is Some,
        moderation_row_reads(row, m.scope, m),
{
    law_action_names_read_back(m.action);
}

/// The name an attestation kind is stored under.
pub open spec fn kind_name(k: AttestationKind) -> Seq<char> {
    match k {
        AttestationKind::License => "license"@,
        AttestationKind::Provenance => "provenance"@,
        AttestationKind::Derivative => "derivative"@,
        AttestationKind::Other(_) => "other"@,
    }
}

/// The columns an attestation is stored under.
#[derive(Debug)]
pub struct AttestationRow {
    pub content: Vec<u8>,
    pub issuer: String,
    pub kind: String,
    pub kind_other: Option<String>,
    pub value: String,
    pub sequence: i64,
    pub issued_at: i64,
    pub signature: Option<String>,
}

/// The row holds the attestation `a`.
pub open spec fn attestation_row_holds(row: AttestationRow, a: Attestation) -> bool {
    &&& row.content@ == a.content@
    &&& row.issuer == a.issuer
    &&& row.kind@ == kind_name(a.kind)
    &&& row.kind_other == match a.kind {
        AttestationKind::Other(t) => Some(t),
        _ => None,
    }
    &&& row.value == a.value
    &&& row.sequence == stored_of(a.sequence)
    &&& row.issued_at == stored_of(a.issued_at)
    &&& row.signature == a.signature
}

/// The attestation kind the stored name and text denote.
pub open spec fn kind_reads(name: Seq<char>, other: Option<String>, k: AttestationKind) -> bool {
    &&& name == "license"@ ==> k is License
    &&& name == "provenance"@ ==> k is Provenance
    &&& name == "derivative"@ ==> k is Derivative
    &&& name == "other"@ ==> (k matches AttestationKind::Other(t) && t@ == match other {
        Some(o) => o@,
        None => Seq::<char>::empty(),
    })
}

/// The stored name is one an attestation kind is stored under.
pub open spec fn kind_name_known(name: Seq<char>) -> bool {
    name == "license"@ || name == "provenance"@ || name == "derivative"@ || name == "other"@
}

/// The row reads back as the attestation `a`.
pub open spec fn attestation_row_reads(row: AttestationRow, a: Attestation) -> bool {
    &&& a.content@ == row.content@
    &&& a.issuer == row.issuer
    &&& kind_reads(row.kind@, row.kind_other, a.kind)
    &&& a.value == row.value
    &&& a.sequence == stored_count(row.sequence)
    &&& a.issued_at == stored_count(row.issued_at)
    &&& a.signature == row.signature
}

/// The row of an attestation.
pub fn attestation_row(a: &Attestation) -> (row: AttestationRow)
    ensures
        attestation_row_holds(row, *a),
{
    let (kind, kind_other) = match &a.kind {
        AttestationKind::License => ("license", None),
        AttestationKind::Provenance => ("provenance", None),
        AttestationKind::Derivative => ("derivative", None),
        AttestationKind::Other(t) => ("other", Some(t.clone())),
    };
    AttestationRow {
        content: bytes_of_hash(&a.content),
        issuer: a.issuer.clone(),
        kind: kind.to_string(),
        kind_other,
        value: a.value.clone(),
        sequence: store_u64(a.sequence),
        issued_at: store_u64(a.issued_at),
        signature: clone_opt_string(&a.signature),
    }
}

/// The attestation a stored row holds: it fails unless the hash is 32 bytes
/// long and the kind name is known.
pub fn attestation_of_row(row: AttestationRow) -> (r: Result<Attestation>)
    ensures
        r is Ok <==> row.content@.len() == 32 && kind_name_known(row.kind@),
        r matches Ok(a) ==> attestation_row_reads(row, a),
{
    attestation_from_row(
        row.content.as_slice(),
        row.issuer,
        row.kind.as_str(),
        row.kind_other,
        row.value,
        row.sequence,
        row.issued_at,
        row.signature,
    )
}

/// An attestation's row reads back as an attestation of the same content,
/// issuer, kind, value, times and signature, for sequences and times up to
/// `i64::MAX`.
pub proof fn law_attestation_rows_read_back(row: AttestationRow, a: Attestation, b: Attestation)
    requires
        attestation_row_holds(row, a),
        a.sequence <= i64::MAX as u64,
        a.issued_at <= i64::MAX as u64,
        attestation_row_reads(row, b),
    ensures
        row.content@.len() == 32,
        kind_name_known(row.kind@),
        b.content == a.content,
        b.issuer == a.issuer,
        b.value == a.value,
        b.sequence == a.sequence,
        b.issued_at == a.issued_at,
        b.signature == a.signature,
        match a.kind {
            AttestationKind::License => b.kind is License,
            AttestationKind::Provenance => b.kind is Provenance,
            AttestationKind::Derivative => b.kind is Derivative,
            AttestationKind::Other(t) => b.kind matches AttestationKind::Other(u) && u@ == t@,
        },
{
    reveal_strlit("license");
    reveal_strlit("provenance");
    reveal_strlit("derivative");
    reveal_strlit("other");
    assert("license"@[0] == 'l' && "provenance"@[0] == 'p' && "derivative"@[0] == 'd' && "other"@[0] == 'o');
    assert(b.content@ =~= a.content@);
}

/// The columns a denylist rule is stored under.
#[derive(Debug)]
pub struct DenylistRow {
    pub rule_type: String,
    pub value: Vec<u8>,
    pub namespace_id: Option<[u8; 32]>,
}

/// The row holds the rule: a device by its name's UTF-8 bytes, a hash by
/// its bytes, a file by its key in its folder.
pub open spec fn denylist_row_holds(row: DenylistRow, rule: DenylistRule) -> bool {
    match rule {
        DenylistRule::Device(d) => row.rule_type@ == "device"@ && row.value@ == encode_utf8(d@) && row.namespace_id
            is None,
        DenylistRule::Hash(h) => row.rule_type@ == "hash"@ && row.value@ == h@ && row.namespace_id is None,
        DenylistRule::File { namespace_id, key } => row.rule_type@ == "file"@ && row.value@ == key@
            && row.namespace_id == namespace_id,
    }
}

/// The row of a denylist rule.
pub fn denylist_row(rule: &DenylistRule) -> (row: DenylistRow)
    ensures
        denylist_row_holds(row, *rule),
{
    match rule {
        DenylistRule::Device(d) => {
            let b = d.as_str().as_bytes();
            let v = slice_bytes(b, 0, b.len());
            assert(v@ =~= encode_utf8(d@));
            DenylistRow { rule_type: "device".to_string(), value: v, namespace_id: None }
        },
        DenylistRule::Hash(h) => DenylistRow {
            rule_type: "hash".to_string(),
            value: bytes_of_hash(h),
            namespace_id: None,
        },
        DenylistRule::File { namespace_id, key } => {
            let v = slice_bytes(key.as_slice(), 0, key.len());
            assert(v@ =~= key@);
            DenylistRow { rule_type: "file".to_string(), value: v, namespace_id: *namespace_id }
        },
    }
}

/// The denylist rule a stored row holds: it fails unless the type is known
/// and a hash is 32 bytes long.
pub fn denylist_rule_of_row(row: &DenylistRow) -> (r: Result<DenylistRule>)
    ensures
        r is Ok <==> (row.rule_type@ == "device"@ || (row.rule_type@ == "hash"@ && row.value@.len() == 32)
            || row.rule_type@ == "file"@),
        r matches Ok(rule) ==> {
            &&& row.rule_type@ == "device"@ ==> (rule matches DenylistRule::Device(d) && d@ == utf8_lossy(
                row.value@,
            ) && (valid_utf8(row.value@) ==> d@ == decode_utf8(row.value@)))
            &&& row.rule_type@ == "hash"@ ==> (rule matches DenylistRule::Hash(h) && h@ == row.value@)
            &&& row.rule_type@ == "file"@ ==> (rule matches DenylistRule::File { namespace_id: n, key } && n
                == row.namespace_id && key@ == row.value@)
        },
{
    denylist_rule_from_row(row.rule_type.as_str(), row.value.as_slice(), row.namespace_id)
}

/// A denylist rule's row reads back as the same rule.
pub proof fn law_denylist_rows_read_back(row: DenylistRow, rule: DenylistRule, back: DenylistRule)
    requires
        denylist_row_holds(row, rule),
        row.rule_type@ == "device"@ ==> (back matches DenylistRule::Device(d) && (valid_utf8(row.value@) ==> d@
            == decode_utf8(row.value@))),
        row.rule_type@ == "hash"@ ==> (back matches DenylistRule::Hash(h) && h@ == row.value@),
        row.rule_type@ == "file"@ ==> (back matches DenylistRule::File { namespace_id: n, key } && n
            == row.namespace_id && key@ == row.value@),
    ensures
        row.rule_type@ == "device"@ || (row.rule_type@ == "hash"@ && row.value@.len() == 32) || row.rule_type@
            == "file"@,
        match rule {
            DenylistRule::Device(d) => back matches DenylistRule::Device(e) && e@ == d@,
            DenylistRule::Hash(h) => back == DenylistRule::Hash(h),
            DenylistRule::File { namespace_id, key } => back matches DenylistRule::File { namespace_id: n, key: k }
                && n == namespace_id && k@ == key@,
        },
{
    reveal_strlit("device");
    reveal_strlit("hash");
    reveal_strlit("file");
    assert("device"@[0] == 'd' && "hash"@[0] == 'h' && "file"@[0] == 'f');
    match rule {
        DenylistRule::Device(d) => {
            vstd::utf8::encode_utf8_valid_utf8(d@);
            vstd::utf8::encode_utf8_decode_utf8(d@);
        },
        DenylistRule::Hash(h) => {
            if let DenylistRule::Hash(g) = back {
                assert(g@ =~= h@);
                assert(g == h);
            }
        },
        _ => {},
    }
}

/// The columns a Web-of-Trust metadata entry is stored under; only signed
/// entries are stored.
#[derive(Debug)]
pub struct MetadataRow {
    pub content: Vec<u8>,
    pub key: String,
    pub value: String,
    pub author: String,
    pub sequence: i64,
    pub created_at: i64,
    pub signature: String,
}

/// The row holds the entry `m` exactly.
pub open spec fn metadata_row_holds(row: MetadataRow, m: MetadataEntry) -> bool {
    &&& row.content@ == m.content@
    &&& row.key == m.key
    &&& row.value == m.value
    &&& row.author == m.author
    &&& row.sequence == m.sequence
    &&& row.created_at == m.created_at
    &&& m.signature == Some(row.signature)
}

/// The row of a metadata entry, after the checks a write makes in this
/// order: the entry is valid, its sequence and creation time fit a signed
/// column, and it is signed.
pub fn metadata_row(m: &MetadataEntry) -> (r: Result<MetadataRow>)
    ensures
        r is Ok <==> metadata_fields_ok(*m) && m.sequence <= i64::MAX as u64 && m.created_at <= i64::MAX as u64
            && m.signature is Some,
        r matches Ok(row) ==> metadata_row_holds(row, *m),
        !metadata_fields_ok(*m) ==> (r matches Err(e) && (e is InvalidConfig || e is InvalidIdentity)),
        metadata_fields_ok(*m) && m.sequence > i64::MAX as u64 ==> (r matches Err(
            SyncwebError::Operation { context, .. },
        ) && context@ == "metadata sequence is too large"@),
        metadata_fields_ok(*m) && m.sequence <= i64::MAX as u64 && m.created_at > i64::MAX as u64 ==> (r matches Err(
            SyncwebError::Operation { context, .. },
        ) && context@ == "metadata timestamp is too large"@),
        metadata_fields_ok(*m) && m.sequence <= i64::MAX as u64 && m.created_at <= i64::MAX as u64
            && m.signature is None ==> (r matches Err(SyncwebError::InvalidConfig(t)) && t@
            == "Web-of-Trust metadata must be signed"@),
{
    m.validate()?;
    let sequence = stored_size(m.sequence, "metadata sequence is too large")?;
    let created_at = stored_size(m.created_at, "metadata timestamp is too large")?;
    let signature = match &m.signature {
        Some(t) => t.clone(),
        None => {
            return Err(SyncwebError::InvalidConfig("Web-of-Trust metadata must be signed".to_string()));
        },
    };
    Ok(
        MetadataRow {
            content: bytes_of_hash(&m.content),
            key: m.key.clone(),
            value: m.value.clone(),
            author: m.author.clone(),
            sequence,
            created_at,
            signature,
        },
    )
}

/// The metadata entry a stored row holds.
pub fn metadata_of_row(row: MetadataRow) -> (r: core::result::Result<MetadataEntry, ColumnError>)
    ensures
        r is Ok <==> row.content@.len() == 32 && row.sequence >= 0 && row.created_at >= 0,
        r matches Ok(m) ==> m.content@ == row.content@ && m.key == row.key && m.value == row.value && m.author
            == row.author && m.sequence == row.sequence && m.created_at == row.created_at && m.signature == Some(
            row.signature,
        ),
{
    wot_metadata_from_row(
        row.content.as_slice(),
        row.key,
        row.value,
        row.author,
        row.sequence,
        row.created_at,
        Some(row.signature),
    )
}

/// A stored metadata entry reads back as the entry that was written.
pub proof fn law_metadata_rows_read_back(row: MetadataRow, m: MetadataEntry)
    requires
        metadata_row_holds(row, m),
    ensures
        row.content@.len() == 32 && row.sequence >= 0 && row.created_at >= 0,
        m.sequence == row.sequence && m.created_at == row.created_at,
{
}

/// The columns an indexed entry is stored and searched under.
#[derive(Debug)]
pub struct EntryRow {
    pub key: Vec<u8>,
    pub hash: Vec<u8>,
    pub size: i64,
    pub key_text: String,
    pub title: String,
}

/// The row of an entry with `key`, `hash` and `size`: its key, hash and size,
/// the key's text and the title it is searched under. It fails when the
/// size does not fit a signed column.
pub fn entry_row(key: &[u8], hash: &[u8; 32], size: u64) -> (r: Result<EntryRow>)
    ensures
        r is Ok <==> size <= i64::MAX as u64,
        r matches Ok(row) ==> {
            &&& entry_row_holds(row, key@, *hash, size)
            &&& row.key_text@ == utf8_lossy(key@)
            &&& row.title@ == entry_title_of(row.key_text@)
        },
        r is Err ==> (r matches Err(SyncwebError::Operation { context, detail }) && context@
            == "indexed entry size is too large"@ && detail@ == conversion_failure()),
{
    let size = stored_size(size, "indexed entry size is too large")?;
    let key_text = crate::text::utf8_lossy_string(key);
    let title = entry_title(key_text.as_str());
    let k = slice_bytes(key, 0, key.len());
    assert(k@ =~= key@);
    Ok(EntryRow { key: k, hash: bytes_of_hash(hash), size, key_text, title })
}

/// The row of an indexed entry holds its key, hash and size.
pub open spec fn entry_row_holds(row: EntryRow, key: Seq<u8>, hash: [u8; 32], size: u64) -> bool {
    row.key@ == key && row.hash@ == hash@ && row.size == size
}

/// Reading the row in folder `namespace_id` gives the entry `e`.
pub open spec fn entry_row_reads(namespace_id: [u8; 32], row: EntryRow, e: crate::indexing::IndexedEntry) -> bool {
    e.namespace_id == namespace_id && e.key == row.key && e.hash@ == row.hash@ && e.size == row.size
}

/// The indexed entry a stored row holds, in the folder its stored text
/// names (none when that text did not parse): it fails unless the folder is
/// known, the hash is 32 bytes long and the size is not negative.
pub fn entry_of_row(namespace_id: Option<[u8; 32]>, row: EntryRow) -> (r: core::result::Result<
    crate::indexing::IndexedEntry,
    ColumnError,
>)
    ensures
        r is Ok <==> namespace_id is Some && row.hash@.len() == 32 && row.size >= 0,
        r matches Ok(e) ==> entry_row_reads(namespace_id->0, row, e),
{
    indexed_entry_from_row(namespace_id, row.key, row.hash.as_slice(), row.size)
}

/// An indexed entry's row reads back as the entry: in its folder, with its
/// key, hash and size.
pub proof fn law_entry_rows_read_back(
    namespace_id: [u8; 32],
    row: EntryRow,
    key: Seq<u8>,
    hash: [u8; 32],
    size: u64,
)
    requires
        entry_row_holds(row, key, hash, size),
    ensures
        row.hash@.len() == 32 && row.size >= 0,
        forall|e: crate::indexing::IndexedEntry| #[trigger] entry_row_reads(namespace_id, row, e) ==> e.namespace_id
            == namespace_id && e.key@ == key && e.hash == hash && e.size == size,
{
    assert forall|e: crate::indexing::IndexedEntry| #[trigger] entry_row_reads(namespace_id, row, e) implies e.namespace_id
        == namespace_id && e.key@ == key && e.hash == hash && e.size == size by {
        assert(e.hash@ =~= hash@);
    }
}

/// The size column of a catalog record, after the checks a write makes in
/// this order: the record is valid and its size fits a signed column.
pub fn catalog_record_size(record: &CatalogRecord) -> (r: Result<i64>)
    ensures
        r is Ok <==> record_error(*record) is None && record.size <= i64::MAX as u64,
        r matches Ok(v) ==> v == record.size,
        record_error(*record) matches Some(m) ==> (r matches Err(SyncwebError::InvalidConfig(t)) && t@ == m),
        record_error(*record) is None && record.size > i64::MAX as u64 ==> (r matches Err(
            SyncwebError::Operation { context, detail },
        ) && context@ == "catalog record size is too large"@ && detail@ == conversion_failure()),
{
    record.validate()?;
    stored_size(record.size, "catalog record size is too large")
}

/// The name a trust signal kind is stored under.
pub open spec fn signal_name(k: TrustSignalKind) -> Seq<char> {
    match k {
        TrustSignalKind::ObservedSuccess => "ObservedSuccess"@,
        TrustSignalKind::ObservedFailure => "ObservedFailure"@,
        TrustSignalKind::ObservedCorruption => "ObservedCorruption"@,
    }
}

/// Every trust signal kind reads back from the name it is stored under.
pub proof fn law_signal_names_read_back(k: TrustSignalKind)
    ensures
        signal_kind_named(signal_name(k)) == Some(k),
{
    reveal_strlit("ObservedSuccess");
    reveal_strlit("ObservedFailure");
    reveal_strlit("ObservedCorruption");
    assert("ObservedSuccess"@[8] == 'S' && "ObservedFailure"@[8] == 'F' && "ObservedCorruption"@[8] == 'C');
}

fn optional_hash_bytes(h: &Option<[u8; 32]>) -> (r: Option<Vec<u8>>)
    ensures
        match *h {
            Some(a) => r matches Some(v) && v@ == a@,
            None => r is None,
        },
{
    match h {
        Some(a) => Some(bytes_of_hash(a)),
        None => None,
    }
}

/// The columns a provider trust signal is stored under; keys are stored as
/// their lowercase hex text.
#[derive(Debug)]
pub struct TrustSignalRow {
    pub reporter: String,
    pub provider: String,
    pub kind: String,
    pub content_hash: Option<Vec<u8>>,
    pub sequence: i64,
    pub timestamp: i64,
    pub signature: Option<String>,
}

/// The row holds the signal `s`.
pub open spec fn signal_row_holds(row: TrustSignalRow, s: ProviderTrustSignal) -> bool {
    &&& row.reporter@ == hex_text(s.reporter@)
    &&& row.provider@ == hex_text(s.provider@)
    &&& row.kind@ == signal_name(s.signal)
    &&& match s.hash {
        Some(h) => row.content_hash matches Some(v) && v@ == h@,
        None => row.content_hash is None,
    }
    &&& row.sequence == stored_of(s.sequence)
    &&& row.timestamp == stored_of(s.timestamp)
    &&& row.signature == s.signature
}

/// The row of a trust signal.
pub fn signal_row(s: &ProviderTrustSignal) -> (row: TrustSignalRow)
    ensures
        signal_row_holds(row, *s),
{
    let kind = match s.signal {
        TrustSignalKind::ObservedSuccess => "ObservedSuccess",
        TrustSignalKind::ObservedFailure => "ObservedFailure",
        TrustSignalKind::ObservedCorruption => "ObservedCorruption",
    };
    TrustSignalRow {
        reporter: hex_encode(&s.reporter),
        provider: hex_encode(&s.provider),
        kind: kind.to_string(),
        content_hash: optional_hash_bytes(&s.hash),
        sequence: store_u64(s.sequence),
        timestamp: store_u64(s.timestamp),
        signature: clone_opt_string(&s.signature),
    }
}

/// The trust signal a stored row holds: it fails unless both keys parse and
/// the kind name is known; a stored hash that is not 32 bytes long is
/// dropped.
pub fn signal_of_row(row: TrustSignalRow) -> (r: Result<ProviderTrustSignal>)
    ensures
        r is Ok <==> iroh_key_text(row.reporter@) is Some && iroh_key_text(row.provider@) is Some
            && signal_kind_named(row.kind@) is Some,
        r matches Ok(s) ==> {
            &&& iroh_key_text(row.reporter@) == Some(s.reporter@)
            &&& iroh_key_text(row.provider@) == Some(s.provider@)
            &&& signal_kind_named(row.kind@) == Some(s.signal)
            &&& match row.content_hash {
                Some(b) => match hash_of(b@) {
                    Some(h) => s.hash matches Some(a) && a@ == h,
                    None => s.hash is None,
                },
                None => s.hash is None,
            }
            &&& s.sequence == stored_count(row.sequence)
            &&& s.timestamp == stored_count(row.timestamp)
            &&& s.signature == row.signature
        },
{
    let hash = match &row.content_hash {
        Some(b) => Some(b.as_slice()),
        None => None,
    };
    trust_signal_from_row(
        row.reporter.as_str(),
        row.provider.as_str(),
        row.kind.as_str(),
        hash,
        row.sequence,
        row.timestamp,
        row.signature,
    )
}

/// A trust signal's row reads back as the same signal, for keys that parse
/// back from their hex text and sequences and times up to `i64::MAX`.
pub proof fn law_signal_rows_read_back(row: TrustSignalRow, s: ProviderTrustSignal)
    requires
        signal_row_holds(row, s),
        iroh_key_text(hex_text(s.reporter@)) == Some(s.reporter@),
        iroh_key_text(hex_text(s.provider@)) == Some(s.provider@),
        s.sequence <= i64::MAX as u64,
        s.timestamp <= i64::MAX as u64,
    ensures
        iroh_key_text(row.reporter@) == Some(s.reporter@),
        iroh_key_text(row.provider@) == Some(s.provider@),
        signal_kind_named(row.kind@) == Some(s.signal),
        match row.content_hash {
            Some(b) => (s.hash matches Some(h) && hash_of(b@) == Some(h@)),
            None => s.hash is None,
        },
        stored_count(row.sequence) == s.sequence,
        stored_count(row.timestamp) == s.timestamp,
        row.signature == s.signature,
{
    law_signal_names_read_back(s.signal);
}

fn parse_key(text: &str, context: &str) -> (r: Result<[u8; 32]>)
    ensures
        r is Ok <==> iroh_key_text(text@) is Some,
        r matches Ok(k) ==> iroh_key_text(text@) == Some(k@),
        r is Err ==> (r matches Err(SyncwebError::Operation { context: c, .. }) && c@ == context@),
{
    match crate::network::iroh_parse_public_key(text) {
        Ok(k) => Ok(k),
        Err(e) => Err(SyncwebError::Operation { context: context.to_string(), detail: e }),
    }
}

/// The columns a provider lease is stored under; the provider key is
/// stored as its lowercase hex text.
#[derive(Debug)]
pub struct LeaseRow {
    pub provider: String,
    pub content_hash: Vec<u8>,
    pub ticket: String,
    pub sequence: i64,
    pub issued_at: i64,
    pub expires_at: i64,
    pub signature: Option<String>,
}

/// The row holds the lease `l`.
pub open spec fn lease_row_holds(row: LeaseRow, l: ProviderLease) -> bool {
    &&& row.provider@ == hex_text(l.provider@)
    &&& row.content_hash@ == l.hash@
    &&& row.ticket == l.ticket
    &&& row.sequence == stored_of(l.sequence)
    &&& row.issued_at == stored_of(l.issued_at)
    &&& row.expires_at == stored_of(l.expires_at)
    &&& row.signature == l.signature
}

/// The row reads back as the lease `l`.
pub open spec fn lease_row_reads(row: LeaseRow, l: ProviderLease) -> bool {
    &&& iroh_key_text(row.provider@) == Some(l.provider@)
    &&& l.hash@ == row.content_hash@
    &&& l.ticket == row.ticket
    &&& l.sequence == stored_count(row.sequence)
    &&& l.issued_at == stored_count(row.issued_at)
    &&& l.expires_at == stored_count(row.expires_at)
    &&& l.signature == row.signature
}

/// The row of a provider lease.
pub fn lease_row(l: &ProviderLease) -> (row: LeaseRow)
    ensures
        lease_row_holds(row, *l),
{
    LeaseRow {
        provider: hex_encode(&l.provider),
        content_hash: bytes_of_hash(&l.hash),
        ticket: l.ticket.clone(),
        sequence: store_u64(l.sequence),
        issued_at: store_u64(l.issued_at),
        expires_at: store_u64(l.expires_at),
        signature: clone_opt_string(&l.signature),
    }
}

/// The lease a stored row holds: it fails unless the hash is 32 bytes long
/// (checked first) and the provider key parses.
pub fn lease_of_row(row: LeaseRow) -> (r: Result<ProviderLease>)
    ensures
        r is Ok <==> row.content_hash@.len() == 32 && iroh_key_text(row.provider@) is Some,
        r matches Ok(l) ==> lease_row_reads(row, l),
        r is Err && row.content_hash@.len() != 32 ==> (r matches Err(SyncwebError::Operation { context, .. })
            && context@ == "invalid hash length"@),
        r is Err && row.content_hash@.len() == 32 ==> (r matches Err(SyncwebError::Operation { context, .. })
            && context@ == "invalid provider"@),
{
    let hash = stored_hash(row.content_hash.as_slice())?;
    let provider = parse_key(row.provider.as_str(), "invalid provider")?;
    Ok(
        ProviderLease {
            hash,
            provider,
            ticket: row.ticket,
            sequence: stored_u64(row.sequence),
            issued_at: stored_u64(row.issued_at),
            expires_at: stored_u64(row.expires_at),
            signature: row.signature,
        },
    )
}

/// A lease's row reads back as the same lease, for a provider key that
/// parses back from its hex text and times up to `i64::MAX`.
pub proof fn law_lease_rows_read_back(row: LeaseRow, l: ProviderLease)
    requires
        lease_row_holds(row, l),
        iroh_key_text(hex_text(l.provider@)) == Some(l.provider@),
        l.sequence <= i64::MAX as u64,
        l.issued_at <= i64::MAX as u64,
        l.expires_at <= i64::MAX as u64,
    ensures
        row.content_hash@.len() == 32,
        lease_row_reads(row, l),
{
}

/// The columns a content report is stored under; a report without a
/// reporter is stored as reported by `cli`.
#[derive(Debug)]
pub struct ReportRow {
    pub content: Vec<u8>,
    pub reporter: String,
    pub reason: String,
    pub created_at: i64,
    pub signature: Option<String>,
}

/// The row holds the report `r`.
pub open spec fn report_row_holds(row: ReportRow, r: ReportRecord) -> bool {
    &&& row.content@ == r.content@
    &&& row.reporter@ == match r.reporter {
        Some(t) => t@,
        None => "cli"@,
    }
    &&& (r.reporter matches Some(t) ==> row.reporter == t)
    &&& row.reason == r.reason
    &&& row.created_at == stored_of(r.created_at)
    &&& row.signature == r.signature
}

/// The row of a content report.
pub fn report_row(r: &ReportRecord) -> (row: ReportRow)
    ensures
        report_row_holds(row, *r),
{
    let reporter = match &r.reporter {
        Some(t) => t.clone(),
        None => "cli".to_string(),
    };
    ReportRow {
        content: bytes_of_hash(&r.content),
        reporter,
        reason: r.reason.clone(),
        created_at: store_u64(r.created_at),
        signature: clone_opt_string(&r.signature),
    }
}

/// The content report a stored row holds: it fails unless the hash is 32
/// bytes long.
pub fn report_of_row(row: ReportRow) -> (r: Result<ReportRecord>)
    ensures
        r is Ok <==> row.content@.len() == 32,
        r matches Ok(rep) ==> rep.content@ == row.content@ && rep.reporter == Some(row.reporter) && rep.reason
            == row.reason && rep.created_at == stored_count(row.created_at) && rep.signature == row.signature,
        r is Err ==> (r matches Err(SyncwebError::Operation { context, .. }) && context@ == "invalid hash length"@),
{
    let content = stored_hash(row.content.as_slice())?;
    Ok(
        ReportRecord {
            content,
            reason: row.reason,
            created_at: stored_u64(row.created_at),
            reporter: Some(row.reporter),
            signature: row.signature,
        },
    )
}

/// A content report's row reads back as the same report, for times up to
/// `i64::MAX`; a report without a reporter reads back as reported by `cli`.
pub proof fn law_report_rows_read_back(row: ReportRow, r: ReportRecord)
    requires
        report_row_holds(row, r),
        r.created_at <= i64::MAX as u64,
    ensures
        row.content@.len() == 32,
        stored_count(row.created_at) == r.created_at,
        r.reporter is Some ==> Some(row.reporter) == r.reporter,
        r.reporter is None ==> row.reporter@ == "cli"@,
{
}

/// The columns a trust delegation is stored under.
#[derive(Debug)]
pub struct DelegationRow {
    pub delegator: String,
    pub delegate: String,
    pub scope: Option<Vec<u8>>,
    pub sequence: i64,
    pub issued_at: i64,
    pub expires_at: i64,
    pub signature: Option<String>,
}

/// The row holds the delegation `d`.
pub open spec fn delegation_row_holds(row: DelegationRow, d: TrustDelegation) -> bool {
    &&& row.delegator == d.delegator
    &&& row.delegate == d.delegate
    &&& match d.scope {
        Some(h) => row.scope matches Some(v) && v@ == h@,
        None => row.scope is None,
    }
    &&& row.sequence == stored_of(d.sequence)
    &&& row.issued_at == stored_of(d.issued_at)
    &&& row.expires_at == stored_of(d.expires_at)
    &&& row.signature == d.signature
}

/// The row reads back as the delegation `d`: a stored scope that is not 32
/// bytes long reads back as none.
pub open spec fn delegation_row_reads(row: DelegationRow, d: TrustDelegation) -> bool {
    &&& d.delegator == row.delegator
    &&& d.delegate == row.delegate
    &&& match row.scope {
        Some(b) => match hash_of(b@) {
            Some(h) => d.scope matches Some(a) && a@ == h,
            None => d.scope is None,
        },
        None => d.scope is None,
    }
    &&& d.sequence == stored_count(row.sequence)
    &&& d.issued_at == stored_count(row.issued_at)
    &&& d.expires_at == stored_count(row.expires_at)
    &&& d.signature == row.signature
}

/// The row of a trust delegation.
pub fn delegation_row(d: &TrustDelegation) -> (row: DelegationRow)
    ensures
        delegation_row_holds(row, *d),
{
    DelegationRow {
        delegator: d.delegator.clone(),
        delegate: d.delegate.clone(),
        scope: optional_hash_bytes(&d.scope),
        sequence: store_u64(d.sequence),
        issued_at: store_u64(d.issued_at),
        expires_at: store_u64(d.expires_at),
        signature: clone_opt_string(&d.signature),
    }
}

/// The trust delegation a stored row holds.
pub fn delegation_of_row(row: DelegationRow) -> (d: TrustDelegation)
    ensures
        delegation_row_reads(row, d),
{
    let scope = match &row.scope {
        Some(b) => stored_optional_hash(Some(b.as_slice())),
        None => None,
    };
    TrustDelegation {
        delegator: row.delegator,
        delegate: row.delegate,
        scope,
        sequence: stored_u64(row.sequence),
        issued_at: stored_u64(row.issued_at),
        expires_at: stored_u64(row.expires_at),
        signature: row.signature,
    }
}

/// A trust delegation's row reads back as the same delegation, for
/// sequences and times up to `i64::MAX`.
pub proof fn law_delegation_rows_read_back(row: DelegationRow, d: TrustDelegation, back: TrustDelegation)
    requires
        delegation_row_holds(row, d),
        delegation_row_reads(row, back),
        d.sequence <= i64::MAX as u64,
        d.issued_at <= i64::MAX as u64,
        d.expires_at <= i64::MAX as u64,
    ensures
        back == d,
{
    match d.scope {
        Some(h) => {
            let a = back.scope->0;
            assert(a@ =~= h@);
            assert(a == h);
        },
        None => {},
    }
}

/// A stored count as a `u32`: 0 when it is negative or too large.
pub open spec fn stored_u32_of(v: i64) -> u32 {
    if 0 <= v <= u32::MAX as i64 {
        v as u32
    } else {
        0
    }
}

fn stored_u32(v: i64) -> (r: u32)
    ensures
        r == stored_u32_of(v),
{
    if 0 <= v && v <= u32::MAX as i64 {
        v as u32
    } else {
        0
    }
}

fn stored_optional_u64(v: Option<i64>) -> (r: Option<u64>)
    ensures
        match v {
            Some(x) => r == Some(stored_count(x)),
            None => r is None,
        },
{
    match v {
        Some(x) => Some(stored_u64(x)),
        None => None,
    }
}

/// The columns a provider's reputation and automatic ban are stored under.
#[derive(Debug)]
pub struct ReputationRow {
    pub provider: String,
    pub total_fetches: i64,
    pub successful_fetches: i64,
    pub failed_fetches: i64,
    pub consecutive_failures: i64,
    pub last_success_at: Option<i64>,
    pub last_failure_at: Option<i64>,
    pub auto_ban_until: Option<i64>,
    pub auto_ban_count: i64,
}

/// The optional value as stored, saturating.
pub open spec fn stored_option_of(v: Option<u64>) -> Option<i64> {
    match v {
        Some(x) => Some(stored_of(x)),
        None => None,
    }
}

/// The optional stored value read back.
pub open spec fn read_option_of(v: Option<i64>) -> Option<u64> {
    match v {
        Some(x) => Some(stored_count(x)),
        None => None,
    }
}

/// The row holds the reputation `r` with its automatic ban.
pub open spec fn reputation_row_holds(row: ReputationRow, r: ProviderReputation, until: Option<u64>, count: u32) -> bool {
    &&& row.provider@ == hex_text(r.provider@)
    &&& row.total_fetches == stored_of(r.total_fetches)
    &&& row.successful_fetches == stored_of(r.successful_fetches)
    &&& row.failed_fetches == stored_of(r.failed_fetches)
    &&& row.consecutive_failures == r.consecutive_failures
    &&& row.last_success_at == stored_option_of(r.last_success_at)
    &&& row.last_failure_at == stored_option_of(r.last_failure_at)
    &&& row.auto_ban_until == stored_option_of(until)
    &&& row.auto_ban_count == count
}

/// The row of a provider's reputation with its automatic ban.
pub fn reputation_row(r: &ProviderReputation, until: Option<u64>, count: u32) -> (row: ReputationRow)
    ensures
        reputation_row_holds(row, *r, until, count),
{
    ReputationRow {
        provider: hex_encode(&r.provider),
        total_fetches: store_u64(r.total_fetches),
        successful_fetches: store_u64(r.successful_fetches),
        failed_fetches: store_u64(r.failed_fetches),
        consecutive_failures: r.consecutive_failures as i64,
        last_success_at: store_optional_u64(r.last_success_at),
        last_failure_at: store_optional_u64(r.last_failure_at),
        auto_ban_until: store_optional_u64(until),
        auto_ban_count: count as i64,
    }
}

/// The reputation a stored row holds, with its automatic ban's end and
/// count: it fails unless the provider key parses.
pub fn reputation_of_row(row: &ReputationRow) -> (r: Result<(ProviderReputation, Option<u64>, u32)>)
    ensures
        r is Ok <==> iroh_key_text(row.provider@) is Some,
        r matches Ok((rep, until, count)) ==> {
            &&& iroh_key_text(row.provider@) == Some(rep.provider@)
            &&& rep.total_fetches == stored_count(row.total_fetches)
            &&& rep.successful_fetches == stored_count(row.successful_fetches)
            &&& rep.failed_fetches == stored_count(row.failed_fetches)
            &&& rep.consecutive_failures == stored_u32_of(row.consecutive_failures)
            &&& rep.last_success_at == read_option_of(row.last_success_at)
            &&& rep.last_failure_at == read_option_of(row.last_failure_at)
            &&& until == read_option_of(row.auto_ban_until)
            &&& count == stored_u32_of(row.auto_ban_count)
        },
        r is Err ==> (r matches Err(SyncwebError::Operation { context, .. }) && context@ == "invalid provider"@),
{
    let provider = parse_key(row.provider.as_str(), "invalid provider")?;
    let rep = ProviderReputation {
        provider,
        total_fetches: stored_u64(row.total_fetches),
        successful_fetches: stored_u64(row.successful_fetches),
        failed_fetches: stored_u64(row.failed_fetches),
        consecutive_failures: stored_u32(row.consecutive_failures),
        last_success_at: stored_optional_u64(row.last_success_at),
        last_failure_at: stored_optional_u64(row.last_failure_at),
    };
    Ok((rep, stored_optional_u64(row.auto_ban_until), stored_u32(row.auto_ban_count)))
}

/// A reputation's row reads back as the same reputation and automatic ban,
/// for a provider key that parses back from its hex text and counts and
/// times up to `i64::MAX`.
pub proof fn law_reputation_rows_read_back(row: ReputationRow, r: ProviderReputation, until: Option<u64>, count: u32)
    requires
        reputation_row_holds(row, r, until, count),
        iroh_key_text(hex_text(r.provider@)) == Some(r.provider@),
        r.total_fetches <= i64::MAX as u64,
        r.successful_fetches <= i64::MAX as u64,
        r.failed_fetches <= i64::MAX as u64,
        r.last_success_at matches Some(t) ==> t <= i64::MAX as u64,
        r.last_failure_at matches Some(t) ==> t <= i64::MAX as u64,
        until matches Some(t) ==> t <= i64::MAX as u64,
    ensures
        iroh_key_text(row.provider@) == Some(r.provider@),
        stored_count(row.total_fetches) == r.total_fetches,
        stored_count(row.successful_fetches) == r.successful_fetches,
        stored_count(row.failed_fetches) == r.failed_fetches,
        stored_u32_of(row.consecutive_failures) == r.consecutive_failures,
        read_option_of(row.last_success_at) == r.last_success_at,
        read_option_of(row.last_failure_at) == r.last_failure_at,
        read_option_of(row.auto_ban_until) == until,
        stored_u32_of(row.auto_ban_count) == count,
{
}

/// The columns a reporter's last accepted sequence for a provider is
/// stored under.
#[derive(Debug)]
pub struct SequenceRow {
    pub reporter: String,
    pub provider: String,
    pub last_sequence: i64,
}

/// The row of a reporter's last accepted sequence for a provider.
pub fn sequence_row(reporter: &[u8; 32], provider: &[u8; 32], sequence: u64) -> (row: SequenceRow)
    ensures
        row.reporter@ == hex_text(reporter@),
        row.provider@ == hex_text(provider@),
        row.last_sequence == stored_of(sequence),
{
    SequenceRow {
        reporter: hex_encode(reporter),
        provider: hex_encode(provider),
        last_sequence: store_u64(sequence),
    }
}

/// The reporter, provider and last sequence a stored row holds: it fails
/// unless the reporter key parses, then the provider key.
pub fn sequence_of_row(row: &SequenceRow) -> (r: Result<([u8; 32], [u8; 32], u64)>)
    ensures
        r is Ok <==> iroh_key_text(row.reporter@) is Some && iroh_key_text(row.provider@) is Some,
        r matches Ok((rep, prov, seq)) ==> iroh_key_text(row.reporter@) == Some(rep@) && iroh_key_text(
            row.provider@,
        ) == Some(prov@) && seq == stored_count(row.last_sequence),
        r is Err && iroh_key_text(row.reporter@) is None ==> (r matches Err(SyncwebError::Operation { context, .. })
            && context@ == "invalid reporter"@),
        r is Err && iroh_key_text(row.reporter@) is Some ==> (r matches Err(SyncwebError::Operation { context, .. })
            && context@ == "invalid provider"@),
{
    let reporter = parse_key(row.reporter.as_str(), "invalid reporter")?;
    let provider = parse_key(row.provider.as_str(), "invalid provider")?;
    Ok((reporter, provider, stored_u64(row.last_sequence)))
}

/// A stored stable-link row: its kind, and its pointer when the payload
/// decoded to one.
#[derive(Debug)]
pub struct LinkRow {
    pub kind: String,
    pub pointer: Option<crate::links::MutablePointer>,
}

/// The row holds a mutable pointer that is kept when the links are loaded.
pub open spec fn link_row_kept(row: LinkRow) -> bool {
    row.kind@ == "mutable"@ && row.pointer is Some
}

/// The pointers that loading keeps from link rows, in order: those of the
/// rows of kind `mutable` whose payload decoded.
pub open spec fn kept_pointers(rows: Seq<LinkRow>) -> Seq<crate::links::MutablePointer>
    decreases rows.len(),
{
    if rows.len() == 0 {
        seq![]
    } else {
        (if link_row_kept(rows[0]) {
            seq![rows[0].pointer->0]
        } else {
            seq![]
        }) + kept_pointers(rows.drop_first())
    }
}

/// The pointers of stored link rows.
pub fn pointers_of_rows(rows: Vec<LinkRow>) -> (r: Vec<crate::links::MutablePointer>)
    ensures
        r@ == kept_pointers(rows@),
{
    let ghost all = rows@;
    let mut rest = rows;
    let mut r: Vec<crate::links::MutablePointer> = Vec::new();
    while rest.len() > 0
        invariant
            r@ + kept_pointers(rest@) == kept_pointers(all),
        decreases rest.len(),
    {
        let ghost before = rest@;
        let row = rest.remove(0);
        assert(rest@ =~= before.drop_first());
        let ghost kept = link_row_kept(row);
        let keep = crate::parsing::eq_lit(&chars_of(row.kind.as_str()), "mutable");
        match row.pointer {
            Some(p) => {
                if keep {
                    let ghost old_r = r@;
                    r.push(p);
                    assert(r@ + kept_pointers(rest@) =~= old_r + kept_pointers(before));
                } else {
                    assert(r@ + kept_pointers(rest@) =~= r@ + kept_pointers(before));
                }
            },
            None => {
                assert(r@ + kept_pointers(rest@) =~= r@ + kept_pointers(before));
            },
        }
    }
    assert(r@ =~= kept_pointers(all));
    r
}

/// A stored revoked private link: the manifest bytes and the capability.
#[derive(Debug)]
pub struct RevokedRow {
    pub manifest: Vec<u8>,
    pub capability: String,
}

/// The manifest and capability a revoked-link row reads back as: the
/// manifest bytes when 32 long, else all zeros; none when the capability
/// is not a valid never-expiring link.
pub open spec fn revoked_of_row(row: RevokedRow) -> Option<(Seq<u8>, Seq<char>)> {
    if crate::links::private_link_ok(row.capability@, u64::MAX) {
        Some(
            (
                if row.manifest@.len() == 32 {
                    row.manifest@
                } else {
                    seq![0u8; 32]
                },
                row.capability@,
            ),
        )
    } else {
        None
    }
}

/// The revoked links that loading keeps from rows, in order.
pub open spec fn kept_revocations(rows: Seq<RevokedRow>) -> Seq<(Seq<u8>, Seq<char>)>
    decreases rows.len(),
{
    if rows.len() == 0 {
        seq![]
    } else {
        (match revoked_of_row(rows[0]) {
            Some(x) => seq![x],
            None => seq![],
        }) + kept_revocations(rows.drop_first())
    }
}

/// The manifests and capabilities of links.
pub open spec fn link_keys(ls: Seq<crate::links::PrivateLink>) -> Seq<(Seq<u8>, Seq<char>)> {
    ls.map_values(|l: crate::links::PrivateLink| (l.manifest@, l.capability@))
}

/// The revoked private links of stored rows, each never expiring.
pub fn revoked_links_of_rows(rows: &Vec<RevokedRow>) -> (r: Vec<crate::links::PrivateLink>)
    ensures
        link_keys(r@) == kept_revocations(rows@),
        forall|i: int| 0 <= i < r@.len() ==> (#[trigger] r@[i]).expires_at == u64::MAX,
{
    let mut out: Vec<crate::links::PrivateLink> = Vec::new();
    let mut k: usize = 0;
    assert(rows@.subrange(0, rows@.len() as int) =~= rows@);
    assert(link_keys(out@) =~= Seq::<(Seq<u8>, Seq<char>)>::empty());
    while k < rows.len()
        invariant
            k <= rows@.len(),
            link_keys(out@) + kept_revocations(rows@.subrange(k as int, rows@.len() as int)) == kept_revocations(rows@),
            forall|q: int| 0 <= q < out@.len() ==> (#[trigger] out@[q]).expires_at == u64::MAX,
        decreases rows.len() - k,
    {
        let ghost rest = rows@.subrange(k as int, rows@.len() as int);
        assert(rest.drop_first() =~= rows@.subrange(k + 1, rows@.len() as int));
        assert(rest[0] == rows@[k as int]);
        let row = &rows[k];
        let ghost old_out = out@;
        match crate::rows::revoked_link_from_row(row.manifest.as_slice(), row.capability.as_str()) {
            Some(l) => {
                out.push(l);
                assert(link_keys(out@) =~= link_keys(old_out).push((l.manifest@, l.capability@)));
            },
            None => {},
        }
        k += 1;
    }
    assert(rows@.subrange(rows@.len() as int, rows@.len() as int) =~= Seq::<RevokedRow>::empty());
    assert(link_keys(out@) =~= kept_revocations(rows@));
    out
}

} // verus!
