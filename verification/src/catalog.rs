//! Catalog metadata and the records a folder publishes into a catalog.
//!
//! A catalog holds searchable metadata only: each record names a folder
//! entry by key and content hash. Records live under `record/` keys of the
//! catalog document; `sys/` keys of a folder are never published.
use vstd::prelude::*;

use vstd::utf8::{encode_utf8, is_ascii_chars};

use crate::crypto::{hex_encode, hex_text};
use crate::error::{Result, SyncwebError};
use crate::media::{bytes_start_with, starts_with};
use crate::search::{file_name, file_name_spec};
use crate::text::{chars_of, concat_chars, string_of, trim, trim_chars, utf8_lossy, utf8_lossy_string};

verus! {

/// Whitespace-only text (`str::trim` leaves nothing).
fn blank(s: &str) -> (b: bool)
    ensures
        b == (trim(s@).len() == 0),
{
    trim_chars(&chars_of(s)).len() == 0
}

/// The bytes every catalog record key starts with.
pub open spec fn record_prefix() -> Seq<u8> {
    encode_utf8("record/"@)
}

/// The bytes every system key starts with.
pub open spec fn system_prefix() -> Seq<u8> {
    encode_utf8("sys/"@)
}

/// The key of a catalog record: `record/`, the folder namespace text, `/`
/// and the lower-case hex text of the entry key, as UTF-8.
pub open spec fn record_key_spec(folder_namespace_text: Seq<char>, key: Seq<u8>) -> Seq<u8> {
    encode_utf8("record/"@ + folder_namespace_text + "/"@ + hex_text(key))
}

/// The title a record takes from its key: the file name of the key's text,
/// or the whole text where it has none.
pub open spec fn title_of(key: Seq<u8>) -> Seq<char> {
    match file_name_spec(utf8_lossy(key)) {
        Some(n) => n,
        None => utf8_lossy(key),
    }
}

/// Metadata describing a catalog namespace.
#[derive(Clone, Debug)]
pub struct CatalogMetadata {
    pub name: String,
    pub description: Option<String>,
    pub publisher: String,
}

impl CatalogMetadata {
    /// Catalog metadata with no description.
    pub fn new(name: &str, publisher: &str) -> (m: Self)
        ensures
            m.name@ == name@,
            m.description is None,
            m.publisher@ == publisher@,
    {
        CatalogMetadata { name: name.to_string(), description: None, publisher: publisher.to_string() }
    }

    /// The metadata is valid unless the name is blank.
    pub fn validate(&self) -> (r: Result<()>)
        ensures
            r is Ok <==> trim(self.name@).len() != 0,
            r is Err ==> (r matches Err(SyncwebError::InvalidConfig(m)) && m@ == "catalog name cannot be empty"@),
    {
        if blank(self.name.as_str()) {
            return Err(SyncwebError::InvalidConfig("catalog name cannot be empty".to_string()));
        }
        Ok(())
    }
}

/// A searchable metadata record published by a folder.
#[derive(Clone, Debug)]
pub struct CatalogRecord {
    /// The catalog containing this record; all zeros until it is placed in
    /// one.
    pub catalog_namespace_id: [u8; 32],
    pub folder_namespace_id: [u8; 32],
    pub key: Vec<u8>,
    pub hash: [u8; 32],
    pub size: u64,
    pub folder_name: String,
    pub title: String,
    pub tags: Vec<String>,
    pub publisher: String,
}

/// The error `CatalogRecord::validate` reports, if any.
pub open spec fn record_error(r: CatalogRecord) -> Option<Seq<char>> {
    if trim(r.folder_name@).len() == 0 {
        Some("catalog record folder name cannot be empty"@)
    } else if trim(r.title@).len() == 0 {
        Some("catalog record title cannot be empty"@)
    } else {
        None
    }
}

impl CatalogRecord {
    /// A record for a folder entry, titled by the key's file name, with the
    /// folder namespace text as its folder name, no tags, no publisher and no
    /// catalog yet.
    pub fn new(
        folder_namespace_id: [u8; 32],
        folder_namespace_text: &str,
        key: &[u8],
        hash: [u8; 32],
        size: u64,
    ) -> (r: Self)
        ensures
            r.catalog_namespace_id@ == seq![0u8; 32],
            r.folder_namespace_id == folder_namespace_id,
            r.key@ == key@,
            r.hash == hash,
            r.size == size,
            r.folder_name@ == folder_namespace_text@,
            r.title@ == title_of(key@),
            r.tags@.len() == 0,
            r.publisher@.len() == 0,
    {
        let text = utf8_lossy_string(key);
        let title = match file_name(text.as_str()) {
            Some(n) => n,
            None => text.clone(),
        };
        let zero: [u8; 32] = [0u8; 32];
        assert(zero@ =~= seq![0u8; 32]);
        CatalogRecord {
            catalog_namespace_id: zero,
            folder_namespace_id,
            key: crate::text::slice_bytes(key, 0, key.len()),
            hash,
            size,
            folder_name: folder_namespace_text.to_string(),
            title,
            tags: Vec::new(),
            publisher: String::new(),
        }
    }

    /// The same record, placed in the catalog `namespace_id`.
    pub fn in_catalog(self, namespace_id: [u8; 32]) -> (r: Self)
        ensures
            r == (CatalogRecord { catalog_namespace_id: namespace_id, ..self }),
    {
        CatalogRecord { catalog_namespace_id: namespace_id, ..self }
    }

    /// The record is valid unless its folder name or its title is blank.
    pub fn validate(&self) -> (r: Result<()>)
        ensures
            r is Ok <==> record_error(*self) is None,
            r is Err ==> (r matches Err(SyncwebError::InvalidConfig(m)) && record_error(*self) == Some(m@)),
    {
        if blank(self.folder_name.as_str()) {
            return Err(SyncwebError::InvalidConfig("catalog record folder name cannot be empty".to_string()));
        }
        if blank(self.title.as_str()) {
            return Err(SyncwebError::InvalidConfig("catalog record title cannot be empty".to_string()));
        }
        Ok(())
    }
}

/// The catalog key under which a record is written, for the folder
/// namespace's text.
pub fn record_key(record: &CatalogRecord, folder_namespace_text: &str) -> (k: Vec<u8>)
    ensures
        k@ == record_key_spec(folder_namespace_text@, record.key@),
{
    let head = concat_chars(&chars_of("record/"), &chars_of(folder_namespace_text));
    let head = concat_chars(&head, &chars_of("/"));
    let hex = hex_encode(record.key.as_slice());
    let all = concat_chars(&head, &chars_of(hex.as_str()));
    let s = string_of(&all);
    let b = s.as_str().as_bytes();
    crate::text::slice_bytes(b, 0, b.len())
}

/// The key names a catalog record.
pub fn is_record_key(key: &[u8]) -> (b: bool)
    ensures
        b == bytes_start_with(key@, record_prefix()),
{
    starts_with(key, "record/".as_bytes())
}

/// The key is a system key of a folder.
pub fn is_system_key(key: &[u8]) -> (b: bool)
    ensures
        b == bytes_start_with(key@, system_prefix()),
{
    starts_with(key, "sys/".as_bytes())
}

/// The folder display name a publication uses is not blank.
pub fn check_folder_name(folder_name: &str) -> (r: Result<()>)
    ensures
        r is Ok <==> trim(folder_name@).len() != 0,
        r is Err ==> (r matches Err(SyncwebError::InvalidConfig(m)) && m@ == "catalog folder name cannot be empty"@),
{
    if blank(folder_name) {
        return Err(SyncwebError::InvalidConfig("catalog folder name cannot be empty".to_string()));
    }
    Ok(())
}

fn clone_texts(v: &[String]) -> (r: Vec<String>)
    ensures
        r@.len() == v@.len(),
        forall|i: int| 0 <= i < v@.len() ==> #[trigger] r@[i]@ == v@[i]@,
{
    let mut r: Vec<String> = Vec::new();
    let mut i: usize = 0;
    while i < v.len()
        invariant
            i <= v@.len(),
            r@.len() == i,
            forall|j: int| 0 <= j < i ==> #[trigger] r@[j]@ == v@[j]@,
        decreases v.len() - i,
    {
        r.push(v[i].clone());
        i += 1;
    }
    r
}

/// The record a folder entry publishes into a catalog, or `None` for a
/// system key, which is never published.
pub fn publish_entry(
    catalog_namespace_id: [u8; 32],
    folder_namespace_id: [u8; 32],
    folder_namespace_text: &str,
    folder_name: &str,
    tags: &[String],
    publisher: &str,
    key: &[u8],
    hash: [u8; 32],
    size: u64,
) -> (r: Option<CatalogRecord>)
    ensures
        r is None <==> bytes_start_with(key@, system_prefix()),
        r matches Some(rec) ==> {
            &&& rec.catalog_namespace_id == catalog_namespace_id
            &&& rec.folder_namespace_id == folder_namespace_id
            &&& rec.key@ == key@
            &&& rec.hash == hash
            &&& rec.size == size
            &&& rec.folder_name@ == folder_name@
            &&& rec.title@ == title_of(key@)
            &&& rec.tags@.len() == tags@.len()
            &&& forall|i: int| 0 <= i < tags@.len() ==> #[trigger] rec.tags@[i]@ == tags@[i]@
            &&& rec.publisher@ == publisher@
        },
{
    if is_system_key(key) {
        return None;
    }
    let mut record = CatalogRecord::new(folder_namespace_id, folder_namespace_text, key, hash, size).in_catalog(
        catalog_namespace_id,
    );
    record.folder_name = folder_name.to_string();
    record.tags = clone_texts(tags);
    record.publisher = publisher.to_string();
    Some(record)
}

/// The record imported from a catalog entry: `None` unless the entry's key
/// is a record key; otherwise the decoded record, placed in the catalog it
/// was read from.
pub fn import_entry(namespace_id: [u8; 32], key: &[u8], decoded: CatalogRecord) -> (r: Option<CatalogRecord>)
    ensures
        r is Some <==> bytes_start_with(key@, record_prefix()),
        r matches Some(rec) ==> rec == (CatalogRecord { catalog_namespace_id: namespace_id, ..decoded }),
{
    if !is_record_key(key) {
        return None;
    }
    Some(decoded.in_catalog(namespace_id))
}

/// UTF-8 encoding distributes over concatenation.
pub proof fn lemma_encode_utf8_concat(a: Seq<char>, b: Seq<char>)
    ensures
        encode_utf8(a + b) == encode_utf8(a) + encode_utf8(b),
    decreases a.len(),
{
    if a.len() == 0 {
        assert(a + b =~= b);
    } else {
        assert((a + b).drop_first() =~= a.drop_first() + b);
        lemma_encode_utf8_concat(a.drop_first(), b);
    }
}

/// Every key a record is written under is a record key and never a system
/// key, so subscribers import exactly what publishers write.
pub proof fn law_record_keys_are_record_keys(folder_namespace_text: Seq<char>, key: Seq<u8>)
    ensures
        bytes_start_with(record_key_spec(folder_namespace_text, key), record_prefix()),
        !bytes_start_with(record_key_spec(folder_namespace_text, key), system_prefix()),
{
    let rest = folder_namespace_text + "/"@ + hex_text(key);
    assert("record/"@ + folder_namespace_text + "/"@ + hex_text(key) =~= "record/"@ + rest);
    lemma_encode_utf8_concat("record/"@, rest);
    let all = record_key_spec(folder_namespace_text, key);
    assert(all.subrange(0, record_prefix().len() as int) =~= record_prefix());
    reveal_strlit("record/");
    reveal_strlit("sys/");
    assert(is_ascii_chars("record/"@));
    assert(is_ascii_chars("sys/"@));
    vstd::utf8::is_ascii_chars_encode_utf8("record/"@);
    vstd::utf8::is_ascii_chars_encode_utf8("sys/"@);
    assert(record_prefix()[0] == 114u8);
    assert(system_prefix()[0] == 115u8);
    assert(all[0] == record_prefix()[0]);
    if bytes_start_with(all, system_prefix()) {
        assert(all.subrange(0, system_prefix().len() as int)[0] == all[0]);
    }
}

} // verus!
