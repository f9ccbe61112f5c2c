//! Stable content links, signed mutable names, capabilities, and mirrors.
//!
//! Immutable links identify a hash directly; mutable links identify a
//! signed, monotonically advancing pointer; private links carry a bearer
//! capability with an expiry. [`LinkResolver`] is an in-memory resolver and
//! mirror registry over them.
use vstd::prelude::*;

use crate::crypto::{
    ed25519_accepts, ed25519_key_is_valid, ed25519_key_valid, ed25519_public_key, ed25519_public_of,
    ed25519_sign, ed25519_signature_of, ed25519_verify, hex_bytes, hex_decode, hex_encode, hex_text,
};
use crate::resilience::{
    bytes_eq, lease_fields_error, lease_fields_valid, lease_signature_bytes, lease_signature_valid,
    lemma_hex_round_trip, ProviderLease, TicketInfo,
};
use crate::error::{error_text, Result, SyncwebError};
use crate::identity::{base32_bytes, base32_decode};
use crate::network::{iroh_key_text, iroh_parse_public_key};
use crate::text::{
    chars_of, concat_chars, decimal, decimal_chars, find_char, find_char_index, has_prefix, parse_u64,
    parse_u64_spec, split_once, split_once_chars, string_of, strip_prefix, strip_prefix_chars, upper,
    upper_chars, starts_with_chars, lemma_find_char_bound, trim, trim_chars, chars_eq,
};
use crate::clock::current_epoch_seconds;

verus! {

/// A C0 or C1 control character (`char::is_control`).
pub open spec fn is_control(c: char) -> bool {
    (c as u32) < 0x20 || (0x7f <= (c as u32) && (c as u32) <= 0x9f)
}

/// A character that would change a URI path's meaning.
pub open spec fn is_uri_delimiter(c: char) -> bool {
    c == '/' || c == '?' || c == '#' || c == '%'
}

/// A path segment is non-empty, not `.` or `..`, and holds no control
/// character or URI delimiter.
pub open spec fn path_segment_ok(v: Seq<char>) -> bool {
    &&& v.len() > 0
    &&& v != seq!['.']
    &&& v != seq!['.', '.']
    &&& forall|i: int| 0 <= i < v.len() ==> !is_control(#[trigger] v[i]) && !is_uri_delimiter(v[i])
}

fn validate_segment_chars(v: &[char], field: &str) -> (r: Result<()>)
    ensures
        r is Ok <==> path_segment_ok(v@),
        r is Err ==> r->Err_0 is InvalidConfig,
{
    let n = v.len();
    if n == 0 || (n == 1 && v[0] == '.') || (n == 2 && v[0] == '.' && v[1] == '.') {
        let mut m = chars_of(field);
        let tail = chars_of(" cannot be empty or dot-like");
        m = concat_chars(&m, &tail);
        proof {
            if n == 1 {
                assert(v@ =~= seq!['.']);
            }
            if n == 2 {
                assert(v@ =~= seq!['.', '.']);
            }
        }
        return Err(SyncwebError::InvalidConfig(string_of(&m)));
    }
    proof {
        if n == 1 {
            assert(v@ != seq!['.']) by {
                if v@ == seq!['.'] {
                    assert(v@[0] == '.');
                }
            }
        }
        if n == 2 {
            assert(v@ != seq!['.', '.']) by {
                if v@ == seq!['.', '.'] {
                    assert(v@[0] == '.' && v@[1] == '.');
                }
            }
        }
    }
    let mut i: usize = 0;
    while i < n
        invariant
            n == v.len(),
            i <= n,
            forall|k: int| 0 <= k < i ==> !is_control(#[trigger] v@[k]) && !is_uri_delimiter(v@[k]),
        decreases n - i,
    {
        let c = v[i];
        let code = c as u32;
        if code < 0x20 || (0x7f <= code && code <= 0x9f) || c == '/' || c == '?' || c == '#' || c == '%' {
            let mut m = chars_of(field);
            let tail = chars_of(" contains URI delimiters");
            m = concat_chars(&m, &tail);
            return Err(SyncwebError::InvalidConfig(string_of(&m)));
        }
        i += 1;
    }
    Ok(())
}

/// Reject an empty, dot-like, or delimiter-bearing URI path segment.
pub fn validate_path_segment(value: &str, field: &str) -> (r: Result<()>)
    ensures
        r is Ok <==> path_segment_ok(value@),
        r is Err ==> r->Err_0 is InvalidConfig,
{
    let v = chars_of(value);
    validate_segment_chars(&v, field)
}

/// The next path part of a split: an error when it is missing or empty.
pub fn next_part(part: Option<&[char]>, field: &str) -> (r: Result<Vec<char>>)
    ensures
        r is Ok <==> (part matches Some(p) && p@.len() > 0),
        r matches Ok(v) ==> part matches Some(p) && v@ == p@,
        r is Err ==> r->Err_0 is InvalidConfig,
{
    match part {
        None => {
            let m = concat_chars(&chars_of(field), &chars_of(" is missing"));
            Err(SyncwebError::InvalidConfig(string_of(&m)))
        },
        Some(p) => {
            if p.len() == 0 {
                let m = concat_chars(&chars_of(field), &chars_of(" is empty"));
                Err(SyncwebError::InvalidConfig(string_of(&m)))
            } else {
                Ok(crate::text::slice_chars(p, 0, p.len()))
            }
        },
    }
}

/// The blob hash that text denotes: 64 hex characters, or otherwise base32
/// of 32 bytes in either case.
pub open spec fn blob_hash_text(t: Seq<char>) -> Option<Seq<u8>> {
    if t.len() == 64 {
        hex_bytes(t)
    } else {
        match base32_bytes(upper(t)) {
            Some(b) => if b.len() == 32 {
                Some(b)
            } else {
                None
            },
            None => None,
        }
    }
}

fn to_array32(v: &Vec<u8>) -> (r: [u8; 32])
    requires
        v@.len() == 32,
    ensures
        r@ == v@,
{
    let mut r = [0u8; 32];
    let mut i: usize = 0;
    while i < 32
        invariant
            v@.len() == 32,
            i <= 32,
            forall|k: int| 0 <= k < i ==> r@[k] == v@[k],
        decreases 32 - i,
    {
        r.set(i, v[i]);
        i += 1;
    }
    assert(r@ =~= v@);
    r
}

/// Parse the text form of a blob hash.
pub fn parse_blob_hash(text: &[char]) -> (r: Option<[u8; 32]>)
    ensures
        match r {
            Some(h) => blob_hash_text(text@) == Some(h@),
            None => blob_hash_text(text@) is None,
        },
{
    let s = string_of(text);
    if text.len() == 64 {
        match hex_decode(s.as_str()) {
            Ok(b) => {
                proof {
                    crate::resilience::lemma_hex_round_trip(b@);
                    lemma_hex_len(text@);
                }
                if b.len() == 32 {
                    Some(to_array32(&b))
                } else {
                    None
                }
            },
            Err(_) => None,
        }
    } else {
        let up = string_of(&upper_chars(text));
        match base32_decode(up.as_str()) {
            Some(b) => if b.len() == 32 {
                Some(to_array32(&b))
            } else {
                None
            },
            None => None,
        }
    }
}

/// Hex text decodes to half as many bytes as it has characters.
proof fn lemma_hex_len(t: Seq<char>)
    ensures
        hex_bytes(t) matches Some(b) ==> 2 * b.len() == t.len(),
    decreases t.len(),
{
    reveal_with_fuel(hex_bytes, 2);
    if t.len() >= 2 {
        lemma_hex_len(t.subrange(0, t.len() - 2));
    }
}

/// The text form of a blob hash: lower-case hex.
pub fn blob_hash_string(hash: &[u8; 32]) -> (s: String)
    ensures
        s@ == hex_text(hash@),
{
    hex_encode(hash)
}

/// `true` when `c` occurs in `t`.
pub open spec fn has_char(t: Seq<char>, c: char) -> bool {
    find_char(t, c) is Some
}

/// The hash an immutable content link URI names.
pub open spec fn content_link_spec(v: Seq<char>) -> Option<Seq<u8>> {
    match strip_prefix(v, "syncweb://content/"@) {
        None => None,
        Some(t) => if t.len() == 0 || has_char(t, '/') || has_char(t, '?') || has_char(t, '#') {
            None
        } else {
            blob_hash_text(t)
        },
    }
}

/// A character that occurs nowhere in `s` is not found in it.
proof fn lemma_find_char_absent(s: Seq<char>, c: char)
    requires
        forall|i: int| 0 <= i < s.len() ==> s[i] != c,
    ensures
        find_char(s, c) is None,
    decreases s.len(),
{
    if s.len() > 0 {
        lemma_find_char_absent(s.drop_first(), c);
    }
}

/// Every character of hex text is a hex digit.
proof fn lemma_hex_text_digits(b: Seq<u8>)
    ensures
        forall|i: int| 0 <= i < hex_text(b).len() ==> crate::crypto::hex_value(#[trigger] hex_text(b)[i]) is Some,
    decreases b.len(),
{
    if b.len() > 0 {
        lemma_hex_text_digits(b.drop_last());
        let p = hex_text(b.drop_last());
        let hi = b.last() / 16;
        let lo = b.last() % 16;
        assert(crate::crypto::hex_value(crate::crypto::hex_digit(hi)) == Some(hi));
        assert(crate::crypto::hex_value(crate::crypto::hex_digit(lo)) == Some(lo));
        assert forall|i: int| 0 <= i < hex_text(b).len() implies crate::crypto::hex_value(
            #[trigger] hex_text(b)[i],
        ) is Some by {
            if i < p.len() {
                assert(hex_text(b)[i] == p[i]);
            }
        }
    }
}

/// The URI of a content link parses back to its hash.
pub proof fn law_content_link_round_trip(hash: [u8; 32])
    ensures
        content_link_spec("syncweb://content/"@ + hex_text(hash@)) == Some(hash@),
{
    let p = "syncweb://content/"@;
    let t = hex_text(hash@);
    let v = p + t;
    assert(v.subrange(0, p.len() as int) =~= p);
    assert(v.subrange(p.len() as int, v.len() as int) =~= t);
    crate::resilience::lemma_hex_round_trip(hash@);
    lemma_hex_text_digits(hash@);
    assert(crate::crypto::hex_value('/') is None);
    assert(crate::crypto::hex_value('?') is None);
    assert(crate::crypto::hex_value('#') is None);
    assert forall|i: int| 0 <= i < t.len() implies t[i] != '/' && t[i] != '?' && t[i] != '#' by {
        assert(crate::crypto::hex_value(t[i]) is Some);
    }
    lemma_find_char_absent(t, '/');
    lemma_find_char_absent(t, '?');
    lemma_find_char_absent(t, '#');
}

/// An immutable content-addressed link.
#[derive(Clone, Copy, Debug, PartialEq, Eq, Hash)]
pub struct ContentLink {
    /// The content or manifest hash identified by this link.
    pub hash: [u8; 32],
}

impl ContentLink {
    /// An immutable content link.
    pub fn new(hash: [u8; 32]) -> (l: Self)
        ensures
            l.hash == hash,
    {
        ContentLink { hash }
    }

    /// The content hash.
    pub fn hash(self) -> (h: [u8; 32])
        ensures
            h == self.hash,
    {
        self.hash
    }

    /// The same as [`Self::new`].
    pub fn create(hash: [u8; 32]) -> (l: Self)
        ensures
            l.hash == hash,
    {
        Self::new(hash)
    }

    /// Parse an immutable content URI.
    pub fn parse(value: &str) -> (r: Result<Self>)
        ensures
            r is Ok <==> content_link_spec(value@) is Some,
            r matches Ok(l) ==> content_link_spec(value@) == Some(l.hash@),
            r is Err ==> r->Err_0 is InvalidConfig,
    {
        let v = chars_of(value);
        let t = match strip_prefix_chars(&v, &chars_of("syncweb://content/")) {
            Some(t) => t,
            None => {
                return Err(SyncwebError::InvalidConfig("content link must use syncweb://content/".to_string()));
            },
        };
        if t.len() == 0 || find_char_index(&t, '/').is_some() || find_char_index(&t, '?').is_some()
            || find_char_index(&t, '#').is_some() {
            return Err(SyncwebError::InvalidConfig("content link has an invalid hash".to_string()));
        }
        match parse_blob_hash(&t) {
            Some(h) => Ok(ContentLink { hash: h }),
            None => Err(SyncwebError::InvalidConfig("invalid content link hash".to_string())),
        }
    }

    /// The canonical URI.
    pub fn uri(self) -> (s: String)
        ensures
            s@ == "syncweb://content/"@ + hex_text(self.hash@),
    {
        let h = chars_of(blob_hash_string(&self.hash).as_str());
        string_of(&concat_chars(&chars_of("syncweb://content/"), &h))
    }

    /// Content links are always valid.
    pub fn validate(self) -> (r: Result<()>)
        ensures
            r is Ok,
    {
        Ok(())
    }
}

/// The publisher text and alias of a name link URI, where its path has
/// exactly two non-empty segments.
pub open spec fn name_link_parts(v: Seq<char>) -> Option<(Seq<char>, Seq<char>)> {
    match strip_prefix(v, "syncweb://name/"@) {
        None => None,
        Some(rem) => match split_once(rem, '/') {
            None => None,
            Some((p, a)) => if p.len() > 0 && a.len() > 0 && !has_char(a, '/') {
                Some((p, a))
            } else {
                None
            },
        },
    }
}

/// The publisher key and alias a name link URI names.
pub open spec fn name_link_spec(v: Seq<char>) -> Option<(Seq<u8>, Seq<char>)> {
    match name_link_parts(v) {
        None => None,
        Some((p, a)) => match iroh_key_text(p) {
            None => None,
            Some(k) => if path_segment_ok(a) {
                Some((k, a))
            } else {
                None
            },
        },
    }
}

/// The URI's path is well formed but its publisher text is not a key.
pub open spec fn name_link_bad_publisher(v: Seq<char>) -> bool {
    match name_link_parts(v) {
        Some((p, a)) => iroh_key_text(p) is None,
        None => false,
    }
}

/// A stable publisher/alias name of a mutable link.
#[derive(Clone, Debug, PartialEq, Eq, Hash)]
pub struct NameLink {
    /// The publisher whose signed pointer is followed.
    pub publisher: [u8; 32],
    /// The publisher-controlled alias.
    pub alias: String,
}

impl NameLink {
    /// A mutable name link; the alias must be a valid path segment.
    pub fn new(publisher: [u8; 32], alias: &str) -> (r: Result<Self>)
        ensures
            r is Ok <==> path_segment_ok(alias@),
            r matches Ok(l) ==> l.publisher == publisher && l.alias@ == alias@,
            r is Err ==> r->Err_0 is InvalidConfig,
    {
        validate_path_segment(alias, "mutable link alias")?;
        Ok(NameLink { publisher, alias: alias.to_string() })
    }

    /// The same as [`Self::new`].
    pub fn create(publisher: [u8; 32], alias: &str) -> (r: Result<Self>)
        ensures
            r is Ok <==> path_segment_ok(alias@),
            r matches Ok(l) ==> l.publisher == publisher && l.alias@ == alias@,
            r is Err ==> r->Err_0 is InvalidConfig,
    {
        Self::new(publisher, alias)
    }

    /// Parse a mutable name URI.
    pub fn parse(value: &str) -> (r: Result<Self>)
        ensures
            r is Ok <==> name_link_spec(value@) is Some,
            r matches Ok(l) ==> name_link_spec(value@) == Some((l.publisher@, l.alias@)),
            r is Err ==> (if name_link_bad_publisher(value@) {
                r->Err_0 is InvalidIdentity
            } else {
                r->Err_0 is InvalidConfig
            }),
    {
        let v = chars_of(value);
        let rem = match strip_prefix_chars(&v, &chars_of("syncweb://name/")) {
            Some(t) => t,
            None => {
                return Err(SyncwebError::InvalidConfig("name link must use syncweb://name/".to_string()));
            },
        };
        let (p, a) = match split_once_chars(&rem, '/') {
            Some(pa) => pa,
            None => {
                if rem.len() == 0 {
                    return Err(SyncwebError::InvalidConfig("name link publisher is empty".to_string()));
                }
                return Err(SyncwebError::InvalidConfig("name link alias is missing".to_string()));
            },
        };
        let publisher_text = next_part(Some(p.as_slice()), "name link publisher")?;
        let alias = next_part(Some(a.as_slice()), "name link alias")?;
        if find_char_index(&alias, '/').is_some() {
            return Err(SyncwebError::InvalidConfig("name link has too many path segments".to_string()));
        }
        let pt = string_of(&publisher_text);
        let publisher = match iroh_parse_public_key(pt.as_str()) {
            Ok(k) => k,
            Err(_) => {
                return Err(SyncwebError::InvalidIdentity("invalid name link publisher".to_string()));
            },
        };
        let alias_text = string_of(&alias);
        Self::new(publisher, alias_text.as_str())
    }

    /// The canonical URI.
    pub fn uri(&self) -> (s: String)
        ensures
            s@ == "syncweb://name/"@ + hex_text(self.publisher@) + seq!['/'] + self.alias@,
    {
        let mut v = concat_chars(&chars_of("syncweb://name/"), &chars_of(blob_hash_string(&self.publisher).as_str()));
        v.push('/');
        let r = concat_chars(&v, &chars_of(self.alias.as_str()));
        string_of(&r)
    }

    /// Validate the publisher alias.
    pub fn validate(&self) -> (r: Result<()>)
        ensures
            r is Ok <==> path_segment_ok(self.alias@),
            r is Err ==> r->Err_0 is InvalidConfig,
    {
        validate_path_segment(self.alias.as_str(), "mutable link alias")
    }
}

/// A valid capability has a non-zero expiry and a path-safe token.
pub open spec fn private_link_ok(capability: Seq<char>, expires_at: u64) -> bool {
    expires_at != 0 && path_segment_ok(capability)
}

/// The manifest, capability and expiry a private link URI names.
pub open spec fn private_link_spec(v: Seq<char>) -> Option<(Seq<u8>, Seq<char>, u64)> {
    match strip_prefix(v, "syncweb://private/"@) {
        None => None,
        Some(rest) => match split_once(rest, '?') {
            None => None,
            Some((path, query)) => match split_once(path, '/') {
                None => None,
                Some((m, c)) => if m.len() == 0 || c.len() == 0 || has_char(c, '/') {
                    None
                } else {
                    match (blob_hash_text(m), strip_prefix(query, "expires="@)) {
                        (Some(h), Some(e)) => match parse_u64_spec(e) {
                            Some(x) => if private_link_ok(c, x) {
                                Some((h, c, x))
                            } else {
                                None
                            },
                            None => None,
                        },
                        _ => None,
                    }
                },
            },
        },
    }
}

/// `uuid::Uuid::new_v4().simple()` as text: a random version-4 UUID,
/// written as 32 lower-case hex digits.
#[verifier::external_body]
fn random_uuid_simple() -> (s: String)
    ensures
        s@.len() == 32,
        forall|i: int| 0 <= i < 32 ==> crate::crypto::hex_value(#[trigger] s@[i]) is Some,
{
    uuid::Uuid::new_v4().simple().to_string()
}

/// A bearer capability link to a private manifest.
#[derive(Clone, Debug, PartialEq, Eq, Hash)]
pub struct PrivateLink {
    /// Immutable manifest granted by this capability.
    pub manifest: [u8; 32],
    /// Secret read capability, carried in the URI.
    pub capability: String,
    /// Unix time after which the capability is no longer accepted.
    pub expires_at: u64,
}

impl PrivateLink {
    /// A private capability link with a random 64-hex-digit bearer token.
    pub fn generate(manifest: [u8; 32], expires_at: u64) -> (r: Result<Self>)
        ensures
            r is Ok <==> expires_at != 0,
            r matches Ok(l) ==> l.manifest == manifest && l.expires_at == expires_at && l.capability@.len() == 64
                && path_segment_ok(l.capability@),
            r is Err ==> r->Err_0 is InvalidConfig,
    {
        let a = random_uuid_simple();
        let b = random_uuid_simple();
        let cap = concat_chars(&chars_of(a.as_str()), &chars_of(b.as_str()));
        proof {
            assert forall|i: int| 0 <= i < cap@.len() implies !is_control(#[trigger] cap@[i]) && !is_uri_delimiter(cap@[i]) by {
                if i < 32 {
                    assert(cap@[i] == a@[i]);
                    assert(crate::crypto::hex_value(a@[i]) is Some);
                } else {
                    assert(cap@[i] == b@[i - 32]);
                    assert(crate::crypto::hex_value(b@[i - 32]) is Some);
                }
            }
            assert(cap@.len() == 64);
            assert(seq!['.'].len() == 1);
            assert(seq!['.', '.'].len() == 2);
        }
        let text = string_of(&cap);
        Self::new(manifest, text.as_str(), expires_at)
    }

    /// The same as [`Self::generate`].
    pub fn create(manifest: [u8; 32], expires_at: u64) -> (r: Result<Self>)
        ensures
            r is Ok <==> expires_at != 0,
            r matches Ok(l) ==> l.manifest == manifest && l.expires_at == expires_at && l.capability@.len() == 64
                && path_segment_ok(l.capability@),
            r is Err ==> r->Err_0 is InvalidConfig,
    {
        Self::generate(manifest, expires_at)
    }

    /// A private capability link.
    pub fn new(manifest: [u8; 32], capability: &str, expires_at: u64) -> (r: Result<Self>)
        ensures
            r is Ok <==> private_link_ok(capability@, expires_at),
            r matches Ok(l) ==> l.manifest == manifest && l.capability@ == capability@ && l.expires_at == expires_at,
            r is Err ==> r->Err_0 is InvalidConfig,
    {
        let link = PrivateLink { manifest, capability: capability.to_string(), expires_at };
        link.validate()?;
        Ok(link)
    }

    /// Parse a private capability URI.
    pub fn parse(value: &str) -> (r: Result<Self>)
        ensures
            r is Ok <==> private_link_spec(value@) is Some,
            r matches Ok(l) ==> private_link_spec(value@) == Some((l.manifest@, l.capability@, l.expires_at)),
            r is Err ==> r->Err_0 is InvalidConfig,
    {
        let v = chars_of(value);
        let rest = match strip_prefix_chars(&v, &chars_of("syncweb://private/")) {
            Some(t) => t,
            None => {
                return Err(SyncwebError::InvalidConfig("private link must use syncweb://private/".to_string()));
            },
        };
        let (path, query) = match split_once_chars(&rest, '?') {
            Some(pq) => pq,
            None => {
                return Err(SyncwebError::InvalidConfig("private link must contain an expiration".to_string()));
            },
        };
        let (m, c) = match split_once_chars(&path, '/') {
            Some(mc) => mc,
            None => {
                return Err(SyncwebError::InvalidConfig("private link capability is missing".to_string()));
            },
        };
        let manifest = next_part(Some(m.as_slice()), "private link manifest")?;
        let capability = next_part(Some(c.as_slice()), "private link capability")?;
        if find_char_index(&capability, '/').is_some() {
            return Err(SyncwebError::InvalidConfig("private link has too many path segments".to_string()));
        }
        let manifest_hash = match parse_blob_hash(&manifest) {
            Some(h) => h,
            None => {
                return Err(SyncwebError::InvalidConfig("invalid private link manifest".to_string()));
            },
        };
        let expires_text = match strip_prefix_chars(&query, &chars_of("expires=")) {
            Some(e) => e,
            None => {
                return Err(SyncwebError::InvalidConfig("private link query must contain expires".to_string()));
            },
        };
        let expires_at = match parse_u64(&expires_text) {
            Some(x) => x,
            None => {
                return Err(SyncwebError::InvalidConfig("invalid private link expiration".to_string()));
            },
        };
        let cap_text = string_of(&capability);
        Self::new(manifest_hash, cap_text.as_str(), expires_at)
    }

    /// The canonical capability URI.
    pub fn uri(&self) -> (s: String)
        ensures
            s@ == "syncweb://private/"@ + hex_text(self.manifest@) + seq!['/'] + self.capability@ + "?expires="@
                + decimal(self.expires_at as nat),
    {
        let mut v = concat_chars(&chars_of("syncweb://private/"), &chars_of(blob_hash_string(&self.manifest).as_str()));
        v.push('/');
        let v = concat_chars(&v, &chars_of(self.capability.as_str()));
        let v = concat_chars(&v, &chars_of("?expires="));
        let v = concat_chars(&v, &decimal_chars(self.expires_at));
        string_of(&v)
    }

    /// Validate the capability and expiry.
    pub fn validate(&self) -> (r: Result<()>)
        ensures
            r is Ok <==> private_link_ok(self.capability@, self.expires_at),
            r is Err ==> r->Err_0 is InvalidConfig,
    {
        if self.expires_at == 0 {
            return Err(SyncwebError::InvalidConfig("private link expiration must be greater than zero".to_string()));
        }
        validate_path_segment(self.capability.as_str(), "private link capability")
    }

    /// Whether the link is expired at `now`.
    pub fn is_expired_at(&self, now: u64) -> (b: bool)
        ensures
            b == (self.expires_at <= now),
    {
        self.expires_at <= now
    }

    /// The key revocation lists use: manifest and capability.
    pub fn revocation_key(&self) -> (k: ([u8; 32], String))
        ensures
            k.0 == self.manifest,
            k.1@ == self.capability@,
    {
        (self.manifest, self.capability.clone())
    }
}

/// A parsed syncweb stable link.
#[derive(Clone, Debug, PartialEq, Eq, Hash)]
pub enum Link {
    /// Immutable content link.
    Content(ContentLink),
    /// Mutable publisher name.
    Name(NameLink),
    /// Private bearer capability.
    Private(PrivateLink),
}

/// The text is the URI of a link: a content, name or private link whose
/// text parses.
pub open spec fn uri_parses(value: Seq<char>) -> bool {
    if has_prefix(value, "syncweb://content/"@) {
        content_link_spec(value) is Some
    } else if has_prefix(value, "syncweb://name/"@) {
        name_link_spec(value) is Some
    } else if has_prefix(value, "syncweb://private/"@) {
        private_link_spec(value) is Some
    } else {
        false
    }
}

/// `l` is the link the URI text denotes.
pub open spec fn uri_link(value: Seq<char>, l: Link) -> bool {
    if has_prefix(value, "syncweb://content/"@) {
        l matches Link::Content(c) && content_link_spec(value) == Some(c.hash@)
    } else if has_prefix(value, "syncweb://name/"@) {
        l matches Link::Name(n) && name_link_spec(value) == Some((n.publisher@, n.alias@))
    } else if has_prefix(value, "syncweb://private/"@) {
        l matches Link::Private(p) && private_link_spec(value) == Some((p.manifest@, p.capability@, p.expires_at))
    } else {
        false
    }
}

impl Link {
    /// Parse a stable link by its scheme path.
    pub fn parse(value: &str) -> (r: Result<Self>)
        ensures
            has_prefix(value@, "syncweb://content/"@) ==> match r {
                Ok(Link::Content(l)) => content_link_spec(value@) == Some(l.hash@),
                Ok(_) => false,
                Err(_) => content_link_spec(value@) is None,
            },
            !has_prefix(value@, "syncweb://content/"@) && has_prefix(value@, "syncweb://name/"@) ==> match r {
                Ok(Link::Name(l)) => name_link_spec(value@) == Some((l.publisher@, l.alias@)),
                Ok(_) => false,
                Err(_) => name_link_spec(value@) is None,
            },
            !has_prefix(value@, "syncweb://content/"@) && !has_prefix(value@, "syncweb://name/"@) && has_prefix(
                value@,
                "syncweb://private/"@,
            ) ==> match r {
                Ok(Link::Private(l)) => private_link_spec(value@) == Some((l.manifest@, l.capability@, l.expires_at)),
                Ok(_) => false,
                Err(_) => private_link_spec(value@) is None,
            },
            !has_prefix(value@, "syncweb://content/"@) && !has_prefix(value@, "syncweb://name/"@) && !has_prefix(
                value@,
                "syncweb://private/"@,
            ) ==> r matches Err(SyncwebError::InvalidConfig(_)),
    {
        let v = chars_of(value);
        if starts_with_chars(&v, &chars_of("syncweb://content/")) {
            return Ok(Link::Content(ContentLink::parse(value)?));
        }
        if starts_with_chars(&v, &chars_of("syncweb://name/")) {
            return Ok(Link::Name(NameLink::parse(value)?));
        }
        if starts_with_chars(&v, &chars_of("syncweb://private/")) {
            return Ok(Link::Private(PrivateLink::parse(value)?));
        }
        Err(SyncwebError::InvalidConfig("unsupported syncweb link; expected content, name, or private".to_string()))
    }

    /// The link's URI.
    pub fn uri(&self) -> (s: String)
        ensures
            match self {
                Link::Content(l) => s@ == "syncweb://content/"@ + hex_text(l.hash@),
                Link::Name(l) => s@ == "syncweb://name/"@ + hex_text(l.publisher@) + seq!['/'] + l.alias@,
                Link::Private(l) => s@ == "syncweb://private/"@ + hex_text(l.manifest@) + seq!['/'] + l.capability@
                    + "?expires="@ + decimal(l.expires_at as nat),
            },
    {
        match self {
            Link::Content(l) => l.uri(),
            Link::Name(l) => l.uri(),
            Link::Private(l) => l.uri(),
        }
    }
}

/// What the caller learned of one provider lease: what its ticket text
/// names (`None` when it does not parse) and the lease's encoding without
/// its signature.
#[derive(Debug)]
pub struct LeaseEvidence {
    pub ticket: Option<TicketInfo>,
    pub unsigned: Vec<u8>,
}

/// The ticket contents reported for the `i`-th lease, if any.
pub open spec fn evidence_ticket(ev: Seq<LeaseEvidence>, i: int) -> Option<TicketInfo> {
    if 0 <= i < ev.len() {
        ev[i].ticket
    } else {
        None
    }
}

/// The unsigned encoding reported for the `i`-th lease, if any.
pub open spec fn evidence_unsigned(ev: Seq<LeaseEvidence>, i: int) -> Seq<u8> {
    if 0 <= i < ev.len() {
        ev[i].unsigned@
    } else {
        seq![]
    }
}

/// The bytes the pointer signature domain begins with.
pub open spec fn pointer_context() -> Seq<u8> {
    "syncweb/name-pointer/v1"@.map_values(|c: char| c as u8).push(0u8)
}

/// The signed payload of a pointer: the domain context, then the pointer
/// encoded without its signature.
pub open spec fn pointer_payload(unsigned: Seq<u8>) -> Seq<u8> {
    pointer_context() + unsigned
}

fn pointer_payload_bytes(unsigned: &[u8]) -> (r: Vec<u8>)
    ensures
        r@ == pointer_payload(unsigned@),
{
    let seed = chars_of("syncweb/name-pointer/v1");
    let mut bytes: Vec<u8> = Vec::new();
    let mut i: usize = 0;
    while i < seed.len()
        invariant
            i <= seed.len(),
            bytes@ == seed@.subrange(0, i as int).map_values(|c: char| c as u8),
        decreases seed.len() - i,
    {
        bytes.push(seed[i] as u8);
        i += 1;
        assert(bytes@ =~= seed@.subrange(0, i as int).map_values(|c: char| c as u8));
    }
    assert(seed@.subrange(0, seed@.len() as int) =~= seed@);
    bytes.push(0u8);
    let ghost ctx = bytes@;
    let mut j: usize = 0;
    while j < unsigned.len()
        invariant
            j <= unsigned.len(),
            bytes@ == ctx + unsigned@.subrange(0, j as int),
        decreases unsigned.len() - j,
    {
        bytes.push(unsigned[j]);
        j += 1;
        assert(bytes@ =~= ctx + unsigned@.subrange(0, j as int));
    }
    assert(unsigned@.subrange(0, unsigned@.len() as int) =~= unsigned@);
    bytes
}

/// A signed mutable pointer to an immutable manifest.
///
/// A resolver accepts only a sequence greater than the one it currently
/// holds for the pointer's publisher and alias.
#[derive(Debug)]
pub struct MutablePointer {
    /// Publisher identity; this must match the signing key.
    pub publisher: [u8; 32],
    /// Publisher-controlled alias.
    pub alias: String,
    /// Monotonically increasing update number.
    pub sequence: u64,
    /// Immutable manifest identified by this pointer.
    pub manifest: [u8; 32],
    /// Optional semantic version used for version pinning.
    pub version: Option<String>,
    /// Signed provider leases for the manifest.
    pub providers: Vec<ProviderLease>,
    /// Hex-encoded Ed25519 signature over the pointer without this field.
    pub signature: Option<String>,
}

/// The version is present but blank.
pub open spec fn version_blank(v: Option<String>) -> bool {
    v matches Some(s) && trim(s@).len() == 0
}

/// A pointer's own fields are valid: alias, sequence, and version.
pub open spec fn pointer_head_ok(alias: Seq<char>, sequence: u64, version: Option<String>) -> bool {
    path_segment_ok(alias) && sequence != 0 && !version_blank(version)
}

/// The `i`-th provider lease has valid fields and names the manifest.
pub open spec fn provider_ok(providers: Seq<ProviderLease>, manifest: Seq<u8>, ev: Seq<LeaseEvidence>, i: int) -> bool {
    lease_fields_valid(providers[i], evidence_ticket(ev, i)) && providers[i].hash@ == manifest
}

/// All provider leases have valid fields and name the manifest.
pub open spec fn providers_ok(providers: Seq<ProviderLease>, manifest: Seq<u8>, ev: Seq<LeaseEvidence>) -> bool {
    forall|i: int| 0 <= i < providers.len() ==> #[trigger] provider_ok(providers, manifest, ev, i)
}

/// The pointer's fields and its provider leases' fields are valid.
pub open spec fn pointer_fields_ok(p: MutablePointer, ev: Seq<LeaseEvidence>) -> bool {
    pointer_head_ok(p.alias@, p.sequence, p.version) && providers_ok(p.providers@, p.manifest@, ev)
}

/// The error of the first provider lease that fails.
pub open spec fn providers_error(
    providers: Seq<ProviderLease>,
    manifest: Seq<u8>,
    ev: Seq<LeaseEvidence>,
    e: SyncwebError,
) -> bool {
    exists|i: int|
        0 <= i < providers.len() && (forall|j: int| 0 <= j < i ==> #[trigger] provider_ok(providers, manifest, ev, j))
            && !#[trigger] provider_ok(providers, manifest, ev, i) && (if !lease_fields_valid(
            providers[i],
            evidence_ticket(ev, i),
        ) {
            lease_fields_error(providers[i], evidence_ticket(ev, i), e)
        } else {
            e is InvalidTicket
        })
}

/// The error validation reports: from the pointer's own fields first, then
/// from the first provider lease that fails.
pub open spec fn pointer_fields_error(p: MutablePointer, ev: Seq<LeaseEvidence>, e: SyncwebError) -> bool {
    if !pointer_head_ok(p.alias@, p.sequence, p.version) {
        e is InvalidConfig
    } else {
        providers_error(p.providers@, p.manifest@, ev, e)
    }
}

/// The pointer's signature text decodes to 64 bytes.
pub open spec fn pointer_signature_bytes(p: MutablePointer) -> Option<Seq<u8>> {
    match p.signature {
        Some(s) => match hex_bytes(s@) {
            Some(b) => if b.len() == 64 {
                Some(b)
            } else {
                None
            },
            None => None,
        },
        None => None,
    }
}

/// The publisher's key accepts the pointer's signature over its payload.
pub open spec fn pointer_signature_valid(p: MutablePointer, unsigned: Seq<u8>) -> bool {
    &&& pointer_signature_bytes(p) matches Some(b)
    &&& ed25519_key_valid(p.publisher@)
    &&& ed25519_accepts(p.publisher@, pointer_payload(unsigned), b)
}

/// The `i`-th provider lease's signature verifies.
pub open spec fn provider_signed(providers: Seq<ProviderLease>, ev: Seq<LeaseEvidence>, i: int) -> bool {
    lease_signature_valid(providers[i], evidence_unsigned(ev, i))
}

/// The pointer is valid, signed by its publisher, and each provider lease is
/// signed by its provider.
pub open spec fn pointer_verifies(p: MutablePointer, unsigned: Seq<u8>, ev: Seq<LeaseEvidence>) -> bool {
    &&& pointer_fields_ok(p, ev)
    &&& pointer_signature_valid(p, unsigned)
    &&& forall|i: int| 0 <= i < p.providers@.len() ==> #[trigger] provider_signed(p.providers@, ev, i)
}

fn trimmed_empty(s: &String) -> (b: bool)
    ensures
        b == (trim(s@).len() == 0),
{
    let t = trim_chars(&chars_of(s.as_str()));
    t.len() == 0
}

fn clone_leases(v: &Vec<ProviderLease>) -> (r: Vec<ProviderLease>)
    ensures
        r@ == v@,
{
    let mut r: Vec<ProviderLease> = Vec::new();
    let mut i: usize = 0;
    while i < v.len()
        invariant
            i <= v.len(),
            r@ == v@.subrange(0, i as int),
        decreases v.len() - i,
    {
        r.push(v[i].clone());
        i += 1;
        assert(r@ =~= v@.subrange(0, i as int));
    }
    assert(r@ =~= v@);
    r
}

fn clone_opt_string(o: &Option<String>) -> (r: Option<String>)
    ensures
        r == *o,
{
    match o {
        Some(s) => Some(s.clone()),
        None => None,
    }
}

fn check_head(alias: &String, sequence: u64, version: &Option<String>) -> (r: Result<()>)
    ensures
        r is Ok <==> pointer_head_ok(alias@, sequence, *version),
        r is Err ==> r->Err_0 is InvalidConfig,
{
    validate_path_segment(alias.as_str(), "mutable link alias")?;
    if sequence == 0 {
        return Err(SyncwebError::InvalidConfig("mutable link sequence must be greater than zero".to_string()));
    }
    match version {
        Some(v) => {
            if trimmed_empty(v) {
                return Err(SyncwebError::InvalidConfig("mutable link version cannot be empty".to_string()));
            }
        },
        None => {},
    }
    Ok(())
}

fn check_providers(providers: &Vec<ProviderLease>, manifest: &[u8; 32], evidence: &[LeaseEvidence]) -> (r: Result<()>)
    ensures
        r is Ok <==> providers_ok(providers@, manifest@, evidence@),
        r is Err ==> providers_error(providers@, manifest@, evidence@, r->Err_0),
{
    let mut i: usize = 0;
    while i < providers.len()
        invariant
            i <= providers.len(),
            forall|j: int| 0 <= j < i ==> #[trigger] provider_ok(providers@, manifest@, evidence@, j),
        decreases providers.len() - i,
    {
        let ticket = if i < evidence.len() {
            evidence[i].ticket
        } else {
            None
        };
        assert(ticket == evidence_ticket(evidence@, i as int));
        let lease = &providers[i];
        match lease.validate(ticket) {
            Ok(()) => {},
            Err(e) => {
                proof {
                    assert(!provider_ok(providers@, manifest@, evidence@, i as int));
                }
                return Err(e);
            },
        }
        if !bytes_eq(&lease.hash, manifest) {
            proof {
                assert(!provider_ok(providers@, manifest@, evidence@, i as int));
            }
            return Err(
                SyncwebError::InvalidTicket("mutable link provider lease does not match its manifest".to_string()),
            );
        }
        i += 1;
    }
    Ok(())
}

impl MutablePointer {
    /// An unsigned pointer without provider leases.
    pub fn new(publisher: [u8; 32], alias: &str, manifest: [u8; 32], sequence: u64) -> (r: Result<Self>)
        ensures
            r is Ok <==> path_segment_ok(alias@) && sequence != 0,
            r matches Ok(p) ==> p.publisher == publisher && p.alias@ == alias@ && p.manifest == manifest
                && p.sequence == sequence && p.version is None && p.providers@.len() == 0 && p.signature is None,
            r is Err ==> r->Err_0 is InvalidConfig,
    {
        let a = alias.to_string();
        let none: Option<String> = None;
        check_head(&a, sequence, &none)?;
        Ok(MutablePointer { publisher, alias: a, sequence, manifest, version: None, providers: Vec::new(), signature: None })
    }

    /// An unsigned pointer with provider leases, checked against what their
    /// tickets name.
    pub fn new_with_providers(
        publisher: [u8; 32],
        alias: &str,
        manifest: [u8; 32],
        sequence: u64,
        providers: Vec<ProviderLease>,
        evidence: &[LeaseEvidence],
    ) -> (r: Result<Self>)
        ensures
            r is Ok <==> pointer_head_ok(alias@, sequence, None) && providers_ok(providers@, manifest@, evidence@),
            r matches Ok(p) ==> p.publisher == publisher && p.alias@ == alias@ && p.manifest == manifest
                && p.sequence == sequence && p.version is None && p.providers@ == providers@ && p.signature is None,
            r is Err && !pointer_head_ok(alias@, sequence, None) ==> r->Err_0 is InvalidConfig,
            r is Err && pointer_head_ok(alias@, sequence, None) ==> providers_error(providers@, manifest@, evidence@, r->Err_0),
    {
        let a = alias.to_string();
        let none: Option<String> = None;
        check_head(&a, sequence, &none)?;
        check_providers(&providers, &manifest, evidence)?;
        Ok(MutablePointer { publisher, alias: a, sequence, manifest, version: None, providers, signature: None })
    }

    /// Validate the pointer's fields and its provider leases' fields.
    pub fn validate(&self, evidence: &[LeaseEvidence]) -> (r: Result<()>)
        ensures
            r is Ok <==> pointer_fields_ok(*self, evidence@),
            r is Err ==> pointer_fields_error(*self, evidence@, r->Err_0),
    {
        check_head(&self.alias, self.sequence, &self.version)?;
        check_providers(&self.providers, &self.manifest, evidence)
    }

    /// Set a semantic version; the pointer must be signed again.
    pub fn with_version(self, version: &str) -> (p: Self)
        ensures
            p.publisher == self.publisher && p.alias == self.alias && p.sequence == self.sequence
                && p.manifest == self.manifest && p.providers == self.providers && p.signature is None,
            p.version matches Some(v) && v@ == version@,
    {
        MutablePointer { version: Some(version.to_string()), signature: None, ..self }
    }

    /// Add a provider lease; the pointer must be signed again.
    pub fn with_provider(self, provider: ProviderLease) -> (p: Self)
        ensures
            p.publisher == self.publisher && p.alias == self.alias && p.sequence == self.sequence
                && p.manifest == self.manifest && p.version == self.version && p.signature is None,
            p.providers@ == self.providers@.push(provider),
    {
        let mut providers = self.providers;
        providers.push(provider);
        MutablePointer { providers, signature: None, ..self }
    }

    /// Add several provider leases; the pointer must be signed again.
    pub fn with_providers(self, more: Vec<ProviderLease>) -> (p: Self)
        ensures
            p.publisher == self.publisher && p.alias == self.alias && p.sequence == self.sequence
                && p.manifest == self.manifest && p.version == self.version && p.signature is None,
            p.providers@ == self.providers@ + more@,
    {
        let mut providers = self.providers;
        let mut more = more;
        providers.append(&mut more);
        MutablePointer { providers, signature: None, ..self }
    }

    /// The pointer's stable name link.
    pub fn link(&self) -> (r: Result<NameLink>)
        ensures
            r is Ok <==> path_segment_ok(self.alias@),
            r matches Ok(l) ==> l.publisher == self.publisher && l.alias@ == self.alias@,
            r is Err ==> r->Err_0 is InvalidConfig,
    {
        NameLink::new(self.publisher, self.alias.as_str())
    }

    /// The immutable manifest hash the pointer targets.
    pub fn manifest_hash(&self) -> (h: [u8; 32])
        ensures
            h == self.manifest,
    {
        self.manifest
    }

    /// Sign the pointer with the publisher's 32-byte secret key over the
    /// domain context and `unsigned`, the pointer's encoding without its
    /// signature.
    pub fn sign(&mut self, secret: &[u8; 32], unsigned: &[u8], evidence: &[LeaseEvidence]) -> (r: Result<()>)
        ensures
            r is Ok <==> ed25519_public_of(secret@) == old(self).publisher@ && pointer_fields_ok(*old(self), evidence@),
            r is Err && ed25519_public_of(secret@) != old(self).publisher@ ==> r->Err_0 is InvalidIdentity,
            r is Err && ed25519_public_of(secret@) == old(self).publisher@ ==> pointer_fields_error(
                *old(self),
                evidence@,
                r->Err_0,
            ),
            r is Err ==> *final(self) == *old(self),
            r is Ok ==> (final(self).signature matches Some(s) && s@ == hex_text(
                ed25519_signature_of(secret@, pointer_payload(unsigned@)),
            )),
            r is Ok ==> pointer_signature_valid(*final(self), unsigned@),
            final(self).publisher == old(self).publisher,
            final(self).alias == old(self).alias,
            final(self).sequence == old(self).sequence,
            final(self).manifest == old(self).manifest,
            final(self).version == old(self).version,
            final(self).providers == old(self).providers,
    {
        let public = ed25519_public_key(secret);
        if !bytes_eq(&public, &self.publisher) {
            return Err(SyncwebError::InvalidIdentity("mutable link signer does not match publisher".to_string()));
        }
        self.validate(evidence)?;
        let payload = pointer_payload_bytes(unsigned);
        let sig = ed25519_sign(secret, &payload);
        let text = hex_encode(&sig);
        proof {
            lemma_hex_round_trip(sig@);
        }
        self.signature = Some(text);
        Ok(())
    }

    /// Verify the pointer's fields, its signature over `unsigned`, and each
    /// provider lease's signature over its reported encoding.
    pub fn verify_signature(&self, unsigned: &[u8], evidence: &[LeaseEvidence]) -> (r: Result<()>)
        ensures
            r is Ok <==> pointer_verifies(*self, unsigned@, evidence@),
            r is Err && !pointer_fields_ok(*self, evidence@) ==> pointer_fields_error(*self, evidence@, r->Err_0),
    {
        self.validate(evidence)?;
        let text = match &self.signature {
            Some(t) => t,
            None => {
                return Err(SyncwebError::InvalidConfig("mutable link pointer must be signed".to_string()));
            },
        };
        let bytes = match hex_decode(text.as_str()) {
            Ok(b) => b,
            Err(_) => {
                return Err(SyncwebError::InvalidConfig("invalid mutable link signature".to_string()));
            },
        };
        if bytes.len() != 64 {
            return Err(SyncwebError::InvalidConfig("invalid mutable link signature".to_string()));
        }
        let mut sig: [u8; 64] = [0u8; 64];
        let mut i: usize = 0;
        while i < 64
            invariant
                i <= 64,
                bytes@.len() == 64,
                sig@.len() == 64,
                forall|k: int| 0 <= k < i ==> sig@[k] == bytes@[k],
            decreases 64 - i,
        {
            sig[i] = bytes[i];
            i += 1;
        }
        assert(sig@ =~= bytes@);
        if !ed25519_key_is_valid(&self.publisher) {
            return Err(SyncwebError::InvalidIdentity("invalid mutable link publisher".to_string()));
        }
        let payload = pointer_payload_bytes(unsigned);
        if !ed25519_verify(&self.publisher, &payload, &sig) {
            return Err(SyncwebError::InvalidConfig("mutable link signature is invalid".to_string()));
        }
        let mut j: usize = 0;
        while j < self.providers.len()
            invariant
                j <= self.providers@.len(),
                pointer_fields_ok(*self, evidence@),
                pointer_signature_valid(*self, unsigned@),
                forall|k: int| 0 <= k < j ==> #[trigger] provider_signed(self.providers@, evidence@, k),
            decreases self.providers.len() - j,
        {
            let ticket = if j < evidence.len() {
                evidence[j].ticket
            } else {
                None
            };
            let empty: Vec<u8> = Vec::new();
            let unsigned_j: &[u8] = if j < evidence.len() {
                evidence[j].unsigned.as_slice()
            } else {
                empty.as_slice()
            };
            assert(unsigned_j@ == evidence_unsigned(evidence@, j as int));
            assert(ticket == evidence_ticket(evidence@, j as int));
            assert(provider_ok(self.providers@, self.manifest@, evidence@, j as int));
            match self.providers[j].verify_signature(ticket, unsigned_j) {
                Ok(()) => {},
                Err(e) => {
                    assert(!provider_signed(self.providers@, evidence@, j as int));
                    return Err(e);
                },
            }
            j += 1;
        }
        Ok(())
    }
}

impl MutablePointer {
    /// A copy of the pointer.
    pub fn duplicate(&self) -> (p: Self)
        ensures
            p.publisher == self.publisher && p.alias == self.alias && p.sequence == self.sequence
                && p.manifest == self.manifest && p.version == self.version && p.signature == self.signature,
            p.providers@ == self.providers@,
    {
        MutablePointer {
            publisher: self.publisher,
            alias: self.alias.clone(),
            sequence: self.sequence,
            manifest: self.manifest,
            version: clone_opt_string(&self.version),
            providers: clone_leases(&self.providers),
            signature: clone_opt_string(&self.signature),
        }
    }
}

/// A direct provider ticket registered as a mirror.
#[derive(Debug)]
pub struct Mirror {
    /// Hash served by this mirror.
    pub hash: [u8; 32],
    /// Blob ticket text of the mirror.
    pub ticket: String,
}

impl Mirror {
    /// A mirror of the blob the ticket names.
    pub fn new(ticket: &str, info: TicketInfo) -> (r: Result<Self>)
        ensures
            r matches Ok(m) && m.hash == info.hash && m.ticket@ == ticket@,
    {
        Ok(Mirror { hash: info.hash, ticket: ticket.to_string() })
    }

    /// Check that the ticket, which names `ticket_hash`, serves the mirror's
    /// hash.
    pub fn validate(&self, ticket_hash: [u8; 32]) -> (r: Result<()>)
        ensures
            r is Ok <==> ticket_hash@ == self.hash@,
            r is Err ==> r->Err_0 is InvalidTicket,
    {
        if !bytes_eq(&ticket_hash, &self.hash) {
            return Err(SyncwebError::InvalidTicket("mirror ticket does not match its content hash".to_string()));
        }
        Ok(())
    }
}

/// Result of resolving a link.
#[derive(Debug)]
pub struct LinkResolution {
    /// Manifest or content hash identified by the link.
    pub manifest: [u8; 32],
    /// Semantic version selected by a mutable link, if any.
    pub version: Option<String>,
    /// Mutable pointer sequence, if the link is mutable.
    pub sequence: Option<u64>,
    /// Signed provider leases active at resolution time.
    pub providers: Vec<ProviderLease>,
    /// Blob tickets in provider-then-mirror fallback order.
    pub tickets: Vec<String>,
}

impl LinkResolution {
    /// The resolved hash.
    pub fn hash(&self) -> (h: [u8; 32])
        ensures
            h == self.manifest,
    {
        self.manifest
    }

    /// The resolved immutable manifest hash.
    pub fn manifest_hash(&self) -> (h: [u8; 32])
        ensures
            h == self.manifest,
    {
        self.manifest
    }

    /// Provider and mirror tickets in fallback order.
    pub fn provider_tickets(&self) -> (t: &[String])
        ensures
            t@ == self.tickets@,
    {
        self.tickets.as_slice()
    }
}

/// Options of a link resolution.
#[derive(Clone, Debug, PartialEq, Eq)]
pub struct ResolveOptions {
    /// Select an exact semantic version from a mutable pointer's history.
    pub version: Option<String>,
    /// Evaluate expiry and provider leases at this time.
    pub now: Option<u64>,
}

impl Default for ResolveOptions {
    fn default() -> (o: Self)
        ensures
            o.version is None,
            o.now is None,
    {
        ResolveOptions { version: None, now: None }
    }
}

impl ResolveOptions {
    /// Select an exact version.
    pub fn version(version: &str) -> (o: Self)
        ensures
            o.version matches Some(v) && v@ == version@,
            o.now is None,
    {
        ResolveOptions { version: Some(version.to_string()), now: None }
    }

    /// Evaluate at an explicit time.
    pub fn at(now: u64) -> (o: Self)
        ensures
            o.version is None,
            o.now == Some(now),
    {
        ResolveOptions { version: None, now: Some(now) }
    }

    /// Set an exact version, keeping the time.
    pub fn with_version(self, version: &str) -> (o: Self)
        ensures
            o.version matches Some(v) && v@ == version@,
            o.now == self.now,
    {
        ResolveOptions { version: Some(version.to_string()), now: self.now }
    }
}

/// The position of the first element with the key.
pub open spec fn is_first_match<T>(s: Seq<T>, key: spec_fn(T) -> bool, i: int) -> bool {
    0 <= i < s.len() && key(s[i]) && forall|j: int| 0 <= j < i ==> !key(#[trigger] s[j])
}

/// The position of the first element with the key, if any.
pub open spec fn first_match<T>(s: Seq<T>, key: spec_fn(T) -> bool) -> Option<int> {
    if exists|i: int| is_first_match(s, key, i) {
        Some(choose|i: int| is_first_match(s, key, i))
    } else {
        None
    }
}

pub(crate) proof fn lemma_first_match_is<T>(s: Seq<T>, key: spec_fn(T) -> bool, i: int)
    requires
        is_first_match(s, key, i),
    ensures
        first_match(s, key) == Some(i),
{
    let k = choose|k: int| is_first_match(s, key, k);
    assert(is_first_match(s, key, k));
    if k < i {
        assert(!key(s[k]));
    } else if i < k {
        assert(!key(s[i]));
    }
}

pub(crate) proof fn lemma_first_match_none<T>(s: Seq<T>, key: spec_fn(T) -> bool)
    requires
        forall|j: int| 0 <= j < s.len() ==> !key(#[trigger] s[j]),
    ensures
        first_match(s, key) is None,
{
}

pub(crate) proof fn lemma_first_match_push<T>(s: Seq<T>, key: spec_fn(T) -> bool, x: T)
    ensures
        first_match(s.push(x), key) == (if first_match(s, key) is Some {
            first_match(s, key)
        } else if key(x) {
            Some(s.len() as int)
        } else {
            None
        }),
{
    let t = s.push(x);
    if first_match(s, key) is Some {
        let i = first_match(s, key)->0;
        assert(is_first_match(s, key, i));
        assert forall|j: int| 0 <= j < i implies !key(#[trigger] t[j]) by {
            assert(t[j] == s[j]);
            assert(!key(s[j]));
        }
        assert(t[i] == s[i]);
        lemma_first_match_is(t, key, i);
    } else {
        assert forall|j: int| 0 <= j < s.len() implies !key(#[trigger] s[j]) by {
            if key(s[j]) {
                lemma_earliest(s, key, j);
            }
        }
        assert forall|j: int| 0 <= j < s.len() implies !key(#[trigger] t[j]) by {
            assert(t[j] == s[j]);
        }
        if key(x) {
            assert(t[s.len() as int] == x);
            lemma_first_match_is(t, key, s.len() as int);
        } else {
            assert forall|j: int| 0 <= j < t.len() implies !key(#[trigger] t[j]) by {
                if j < s.len() {
                    assert(t[j] == s[j]);
                }
            }
            lemma_first_match_none(t, key);
        }
    }
}

/// Where some element has the key, a first one exists.
pub(crate) proof fn lemma_earliest<T>(s: Seq<T>, key: spec_fn(T) -> bool, j: int)
    requires
        0 <= j < s.len(),
        key(s[j]),
    ensures
        first_match(s, key) is Some,
    decreases j,
{
    if exists|k: int| 0 <= k < j && key(#[trigger] s[k]) {
        let k = choose|k: int| 0 <= k < j && key(#[trigger] s[k]);
        lemma_earliest(s, key, k);
    } else {
        assert(is_first_match(s, key, j));
    }
}

pub(crate) proof fn lemma_first_match_update<T>(s: Seq<T>, key: spec_fn(T) -> bool, i: int, x: T)
    requires
        0 <= i < s.len(),
        key(s[i]) == key(x),
    ensures
        first_match(s.update(i, x), key) == first_match(s, key),
{
    let t = s.update(i, x);
    if first_match(s, key) is Some {
        let k = first_match(s, key)->0;
        assert(is_first_match(s, key, k));
        assert forall|j: int| 0 <= j < k implies !key(#[trigger] t[j]) by {
            if j == i {
                assert(!key(s[j]));
            } else {
                assert(t[j] == s[j]);
                assert(!key(s[j]));
            }
        }
        if k == i {
            assert(key(t[k]));
        } else {
            assert(t[k] == s[k]);
        }
        lemma_first_match_is(t, key, k);
    } else {
        assert forall|j: int| 0 <= j < t.len() implies !key(#[trigger] t[j]) by {
            if key(t[j]) {
                if j == i {
                    assert(key(s[j]));
                } else {
                    assert(t[j] == s[j]);
                }
                lemma_earliest(s, key, j);
            }
        }
        lemma_first_match_none(t, key);
    }
}

/// The texts of a list of strings.
pub open spec fn texts(v: Seq<String>) -> Seq<Seq<char>> {
    v.map_values(|s: String| s@)
}

/// `ts` with `t` appended unless already present.
pub open spec fn push_unique(ts: Seq<Seq<char>>, t: Seq<char>) -> Seq<Seq<char>> {
    if ts.contains(t) {
        ts
    } else {
        ts.push(t)
    }
}

/// `ts` followed by each of `ms` not yet present.
pub open spec fn add_all_unique(ts: Seq<Seq<char>>, ms: Seq<Seq<char>>) -> Seq<Seq<char>>
    decreases ms.len(),
{
    if ms.len() == 0 {
        ts
    } else {
        push_unique(add_all_unique(ts, ms.drop_last()), ms.last())
    }
}

pub(crate) fn str_eq(a: &str, b: &str) -> (r: bool)
    ensures
        r == (a@ == b@),
{
    chars_eq(&chars_of(a), &chars_of(b))
}

pub(crate) fn contains_text(v: &Vec<String>, t: &str) -> (b: bool)
    ensures
        b == texts(v@).contains(t@),
{
    let mut i: usize = 0;
    while i < v.len()
        invariant
            i <= v.len(),
            forall|k: int| 0 <= k < i ==> v@[k]@ != t@,
        decreases v.len() - i,
    {
        if str_eq(v[i].as_str(), t) {
            assert(texts(v@)[i as int] == t@);
            return true;
        }
        i += 1;
    }
    assert forall|k: int| 0 <= k < texts(v@).len() implies texts(v@)[k] != t@ by {
        assert(texts(v@)[k] == v@[k]@);
    }
    false
}

fn push_unique_text(v: &mut Vec<String>, t: &str)
    ensures
        texts(final(v)@) == push_unique(texts(old(v)@), t@),
{
    if !contains_text(v, t) {
        let ghost before = v@;
        v.push(t.to_string());
        assert(texts(v@) =~= texts(before).push(t@));
    }
}

/// The mirror tickets registered for one hash.
#[derive(Debug)]
pub struct MirrorEntry {
    pub hash: [u8; 32],
    pub tickets: Vec<String>,
}

/// A published pointer, with what its provider leases' tickets name and
/// their unsigned encodings.
#[derive(Debug)]
pub struct StoredPointer {
    pub pointer: MutablePointer,
    pub evidence: Vec<LeaseEvidence>,
}

/// The pointers published under one publisher and alias, oldest first.
#[derive(Debug)]
pub struct PointerHistory {
    pub publisher: [u8; 32],
    pub alias: String,
    pub entries: Vec<StoredPointer>,
}

pub open spec fn mirror_key(h: Seq<u8>) -> spec_fn(MirrorEntry) -> bool {
    |e: MirrorEntry| e.hash@ == h
}

pub open spec fn history_key(p: Seq<u8>, a: Seq<char>) -> spec_fn(PointerHistory) -> bool {
    |e: PointerHistory| e.publisher@ == p && e.alias@ == a
}

pub open spec fn version_key(v: Seq<char>) -> spec_fn(StoredPointer) -> bool {
    |e: StoredPointer| (e.pointer.version matches Some(x) && x@ == v)
}

/// The current pointer of a history: the last one published.
pub open spec fn history_current(h: PointerHistory) -> Option<StoredPointer> {
    if h.entries@.len() > 0 {
        Some(h.entries@.last())
    } else {
        None
    }
}

/// The pointer of a history published with version `v`.
pub open spec fn history_version(h: PointerHistory, v: Seq<char>) -> Option<StoredPointer> {
    match first_match(h.entries@, version_key(v)) {
        Some(i) => Some(h.entries@[i]),
        None => None,
    }
}

/// In-memory resolver and mirror registry.
#[derive(Debug)]
pub struct LinkResolver {
    mirrors: Vec<MirrorEntry>,
    pointers: Vec<PointerHistory>,
    revoked: Vec<([u8; 32], String)>,
}

impl LinkResolver {
    /// The mirror tickets registered for hash `h`, in registration order.
    pub closed spec fn mirror_tickets(&self, h: Seq<u8>) -> Seq<Seq<char>> {
        match first_match(self.mirrors@, mirror_key(h)) {
            Some(i) => texts(self.mirrors@[i].tickets@),
            None => seq![],
        }
    }

    /// The pointer history of a publisher and alias.
    pub closed spec fn history_of(&self, p: Seq<u8>, a: Seq<char>) -> Option<PointerHistory> {
        match first_match(self.pointers@, history_key(p, a)) {
            Some(i) => Some(self.pointers@[i]),
            None => None,
        }
    }

    /// Whether the capability of manifest `m` and token `c` was revoked.
    pub closed spec fn is_revoked_key(&self, m: Seq<u8>, c: Seq<char>) -> bool {
        exists|i: int| 0 <= i < self.revoked@.len() && (#[trigger] self.revoked@[i]).0@ == m && self.revoked@[i].1@ == c
    }

    /// The two resolvers hold the same pointers and revocations.
    pub closed spec fn same_names(&self, other: &LinkResolver) -> bool {
        self.pointers == other.pointers && self.revoked == other.revoked
    }

    /// The two resolvers hold the same revocations.
    pub closed spec fn same_revocations(&self, other: &LinkResolver) -> bool {
        self.revoked == other.revoked
    }

    pub proof fn lemma_same_revocations(&self, other: &LinkResolver)
        requires
            self.same_revocations(other),
        ensures
            forall|m: Seq<u8>, c: Seq<char>| #[trigger] self.is_revoked_key(m, c) == other.is_revoked_key(m, c),
    {
    }

    /// The two resolvers hold the same mirrors.
    pub closed spec fn same_mirrors(&self, other: &LinkResolver) -> bool {
        self.mirrors == other.mirrors
    }

    pub proof fn lemma_same_names(&self, other: &LinkResolver)
        requires
            self.same_names(other),
        ensures
            forall|p: Seq<u8>, a: Seq<char>| #[trigger] self.history_of(p, a) == other.history_of(p, a),
            forall|m: Seq<u8>, c: Seq<char>| #[trigger] self.is_revoked_key(m, c) == other.is_revoked_key(m, c),
    {
    }

    pub proof fn lemma_same_mirrors(&self, other: &LinkResolver)
        requires
            self.same_mirrors(other),
        ensures
            forall|h: Seq<u8>| #[trigger] self.mirror_tickets(h) == other.mirror_tickets(h),
    {
    }

    /// An empty resolver.
    pub fn new() -> (r: Self)
        ensures
            forall|h: Seq<u8>| #[trigger] r.mirror_tickets(h) == Seq::<Seq<char>>::empty(),
            forall|p: Seq<u8>, a: Seq<char>| #[trigger] r.history_of(p, a) is None,
            forall|m: Seq<u8>, c: Seq<char>| !#[trigger] r.is_revoked_key(m, c),
    {
        let r = LinkResolver { mirrors: Vec::new(), pointers: Vec::new(), revoked: Vec::new() };
        proof {
            assert forall|h: Seq<u8>| #[trigger] r.mirror_tickets(h) == Seq::<Seq<char>>::empty() by {
                lemma_first_match_none(r.mirrors@, mirror_key(h));
            }
            assert forall|p: Seq<u8>, a: Seq<char>| #[trigger] r.history_of(p, a) is None by {
                lemma_first_match_none(r.pointers@, history_key(p, a));
            }
        }
        r
    }

    fn find_mirror(&self, h: &[u8; 32]) -> (r: Option<usize>)
        ensures
            match r {
                Some(i) => is_first_match(self.mirrors@, mirror_key(h@), i as int),
                None => first_match(self.mirrors@, mirror_key(h@)) is None,
            },
    {
        let mut i: usize = 0;
        while i < self.mirrors.len()
            invariant
                i <= self.mirrors@.len(),
                forall|j: int| 0 <= j < i ==> !mirror_key(h@)(#[trigger] self.mirrors@[j]),
            decreases self.mirrors.len() - i,
        {
            if bytes_eq(&self.mirrors[i].hash, h) {
                return Some(i);
            }
            i += 1;
        }
        proof {
            lemma_first_match_none(self.mirrors@, mirror_key(h@));
        }
        None
    }

    /// Add `ticket` to the mirrors of `hash` unless already there.
    fn add_mirror_ticket(&mut self, hash: [u8; 32], ticket: &str)
        ensures
            final(self).mirror_tickets(hash@) == push_unique(old(self).mirror_tickets(hash@), ticket@),
            forall|h: Seq<u8>| h != hash@ ==> #[trigger] final(self).mirror_tickets(h) == old(self).mirror_tickets(h),
            final(self).same_names(old(self)),
    {
        match self.find_mirror(&hash) {
            Some(i) => {
                proof {
                    lemma_first_match_is(self.mirrors@, mirror_key(hash@), i as int);
                }
                let ghost before = self.mirrors@;
                let mut e = self.mirrors.remove(i);
                push_unique_text(&mut e.tickets, ticket);
                self.mirrors.insert(i, e);
                proof {
                    let after = self.mirrors@;
                    assert(after =~= before.update(i as int, e));
                    assert forall|h: Seq<u8>| true implies #[trigger] first_match(after, mirror_key(h)) == first_match(
                        before,
                        mirror_key(h),
                    ) by {
                        lemma_first_match_update(before, mirror_key(h), i as int, e);
                    }
                    assert forall|h: Seq<u8>| h != hash@ implies #[trigger] self.mirror_tickets(h) == old(self).mirror_tickets(h) by {
                        assert(first_match(after, mirror_key(h)) == first_match(before, mirror_key(h)));
                        if first_match(before, mirror_key(h)) is Some {
                            let k = first_match(before, mirror_key(h))->0;
                            assert(is_first_match(before, mirror_key(h), k)) by {
                                let kk = choose|kk: int| is_first_match(before, mirror_key(h), kk);
                            }
                            assert(k != i);
                        }
                    }
                    assert(first_match(after, mirror_key(hash@)) == Some(i as int));
                }
            },
            None => {
                let ghost before = self.mirrors@;
                let mut tickets: Vec<String> = Vec::new();
                tickets.push(ticket.to_string());
                let e = MirrorEntry { hash, tickets };
                self.mirrors.push(e);
                proof {
                    let after = self.mirrors@;
                    assert(after == before.push(e));
                    assert forall|h: Seq<u8>| h != hash@ implies #[trigger] self.mirror_tickets(h) == old(self).mirror_tickets(h) by {
                        lemma_first_match_push(before, mirror_key(h), e);
                        if first_match(before, mirror_key(h)) is Some {
                            let k = first_match(before, mirror_key(h))->0;
                            assert(after[k] == before[k]);
                        }
                    }
                    lemma_first_match_push(before, mirror_key(hash@), e);
                    assert(first_match(after, mirror_key(hash@)) == Some(before.len() as int));
                    assert(texts(e.tickets@) =~= seq![ticket@]);
                    assert(push_unique(Seq::<Seq<char>>::empty(), ticket@) =~= seq![ticket@]);
                }
            },
        }
    }
}

impl LinkResolver {
    /// Register a mirror ticket of the blob it names.
    pub fn register_mirror(&mut self, ticket: &str, info: TicketInfo) -> (r: Result<()>)
        ensures
            r is Ok,
            final(self).mirror_tickets(info.hash@) == push_unique(old(self).mirror_tickets(info.hash@), ticket@),
            forall|h: Seq<u8>| h != info.hash@ ==> #[trigger] final(self).mirror_tickets(h) == old(self).mirror_tickets(h),
            final(self).same_names(old(self)),
    {
        let mirror = Mirror::new(ticket, info)?;
        self.add_mirror_ticket(mirror.hash, ticket);
        Ok(())
    }

    /// The same as [`Self::register_mirror`].
    pub fn add_mirror(&mut self, ticket: &str, info: TicketInfo) -> (r: Result<()>)
        ensures
            r is Ok,
            final(self).mirror_tickets(info.hash@) == push_unique(old(self).mirror_tickets(info.hash@), ticket@),
            forall|h: Seq<u8>| h != info.hash@ ==> #[trigger] final(self).mirror_tickets(h) == old(self).mirror_tickets(h),
            final(self).same_names(old(self)),
    {
        self.register_mirror(ticket, info)
    }

    /// Register a provider ticket as a mirror.
    pub fn register_provider_ticket(&mut self, ticket: &str, info: TicketInfo) -> (r: Result<()>)
        ensures
            r is Ok,
            final(self).mirror_tickets(info.hash@) == push_unique(old(self).mirror_tickets(info.hash@), ticket@),
            forall|h: Seq<u8>| h != info.hash@ ==> #[trigger] final(self).mirror_tickets(h) == old(self).mirror_tickets(h),
            final(self).same_names(old(self)),
    {
        self.register_mirror(ticket, info)
    }

    /// Register the ticket of a signed provider lease that verifies at `now`.
    pub fn register_provider_lease_at(&mut self, lease: ProviderLease, evidence: &LeaseEvidence, now: u64) -> (r: Result<
        (),
    >)
        ensures
            r is Ok <==> lease_fields_valid(lease, evidence.ticket) && lease_signature_valid(lease, evidence.unsigned@)
                && lease.expires_at > now,
            r is Ok ==> final(self).mirror_tickets(lease.hash@) == push_unique(
                old(self).mirror_tickets(lease.hash@),
                lease.ticket@,
            ),
            r is Ok ==> forall|h: Seq<u8>| h != lease.hash@ ==> #[trigger] final(self).mirror_tickets(h) == old(
                self,
            ).mirror_tickets(h),
            r is Err ==> *final(self) == *old(self),
            final(self).same_names(old(self)),
    {
        lease.verify_at(evidence.ticket, evidence.unsigned.as_slice(), now)?;
        self.add_mirror_ticket(lease.hash, lease.ticket.as_str());
        Ok(())
    }

    /// Register the ticket of a signed provider lease that verifies now.
    pub fn register_provider_lease(&mut self, lease: ProviderLease, evidence: &LeaseEvidence) -> (r: Result<()>)
        ensures
            r is Ok ==> lease_fields_valid(lease, evidence.ticket) && lease_signature_valid(lease, evidence.unsigned@),
            r is Ok ==> final(self).mirror_tickets(lease.hash@) == push_unique(
                old(self).mirror_tickets(lease.hash@),
                lease.ticket@,
            ),
            r is Err ==> *final(self) == *old(self),
            final(self).same_names(old(self)),
    {
        let now = current_epoch_seconds();
        self.register_provider_lease_at(lease, evidence, now)
    }

    /// The mirror tickets of a hash, in registration order.
    pub fn mirrors(&self, hash: &[u8; 32]) -> (r: Result<Vec<String>>)
        ensures
            r matches Ok(v) && texts(v@) == self.mirror_tickets(hash@),
    {
        match self.find_mirror(hash) {
            Some(i) => {
                proof {
                    lemma_first_match_is(self.mirrors@, mirror_key(hash@), i as int);
                }
                let src = &self.mirrors[i].tickets;
                let mut v: Vec<String> = Vec::new();
                let mut k: usize = 0;
                while k < src.len()
                    invariant
                        k <= src@.len(),
                        texts(v@) == texts(src@.subrange(0, k as int)),
                    decreases src.len() - k,
                {
                    let t = src[k].clone();
                    let ghost before = v@;
                    v.push(t);
                    assert(texts(v@) =~= texts(before).push(src@[k as int]@));
                    assert(texts(src@.subrange(0, k + 1)) =~= texts(src@.subrange(0, k as int)).push(src@[k as int]@));
                    k += 1;
                }
                assert(src@.subrange(0, src@.len() as int) =~= src@);
                Ok(v)
            },
            None => {
                let v: Vec<String> = Vec::new();
                assert(texts(v@) =~= Seq::<Seq<char>>::empty());
                Ok(v)
            },
        }
    }

    fn find_history(&self, p: &[u8; 32], a: &str) -> (r: Option<usize>)
        ensures
            match r {
                Some(i) => is_first_match(self.pointers@, history_key(p@, a@), i as int),
                None => first_match(self.pointers@, history_key(p@, a@)) is None,
            },
    {
        let mut i: usize = 0;
        while i < self.pointers.len()
            invariant
                i <= self.pointers@.len(),
                forall|j: int| 0 <= j < i ==> !history_key(p@, a@)(#[trigger] self.pointers@[j]),
            decreases self.pointers.len() - i,
        {
            if bytes_eq(&self.pointers[i].publisher, p) && str_eq(self.pointers[i].alias.as_str(), a) {
                return Some(i);
            }
            i += 1;
        }
        proof {
            lemma_first_match_none(self.pointers@, history_key(p@, a@));
        }
        None
    }
}

fn find_version(versions: &Vec<StoredPointer>, v: &str) -> (r: Option<usize>)
    ensures
        match r {
            Some(i) => is_first_match(versions@, version_key(v@), i as int),
            None => first_match(versions@, version_key(v@)) is None,
        },
{
    let mut i: usize = 0;
    while i < versions.len()
        invariant
            i <= versions@.len(),
            forall|j: int| 0 <= j < i ==> !version_key(v@)(#[trigger] versions@[j]),
        decreases versions.len() - i,
    {
        match &versions[i].pointer.version {
            Some(x) => {
                if str_eq(x.as_str(), v) {
                    return Some(i);
                }
            },
            None => {},
        }
        i += 1;
    }
    proof {
        lemma_first_match_none(versions@, version_key(v@));
    }
    None
}

/// The pointers published under a publisher and alias, oldest first.
pub open spec fn entries_of(r: LinkResolver, p: Seq<u8>, a: Seq<char>) -> Seq<StoredPointer> {
    match r.history_of(p, a) {
        Some(h) => h.entries@,
        None => seq![],
    }
}

/// The current pointer of a publisher and alias.
pub open spec fn current_of(r: LinkResolver, p: Seq<u8>, a: Seq<char>) -> Option<StoredPointer> {
    match r.history_of(p, a) {
        Some(h) => history_current(h),
        None => None,
    }
}

/// The pointer of a publisher and alias published with version `v`.
pub open spec fn version_of(r: LinkResolver, p: Seq<u8>, a: Seq<char>, v: Seq<char>) -> Option<StoredPointer> {
    match r.history_of(p, a) {
        Some(h) => history_version(h, v),
        None => None,
    }
}

/// Publishing `p` is refused: its sequence does not advance the current
/// pointer's, or its version is already published.
pub open spec fn publish_refused(r: LinkResolver, p: MutablePointer) -> bool {
    ||| (current_of(r, p.publisher@, p.alias@) matches Some(c) && p.sequence <= c.pointer.sequence)
    ||| (p.version matches Some(v) && version_of(r, p.publisher@, p.alias@, v@) is Some)
}

impl LinkResolver {
    /// Accept a signed mutable pointer whose sequence advances the current
    /// one of its publisher and alias, and whose version, if any, is new.
    pub fn publish(&mut self, pointer: MutablePointer, unsigned: &[u8], evidence: Vec<LeaseEvidence>) -> (r: Result<()>)
        ensures
            r is Ok <==> pointer_verifies(pointer, unsigned@, evidence@) && !publish_refused(*old(self), pointer),
            r is Err ==> *final(self) == *old(self),
            r is Ok ==> entries_of(*final(self), pointer.publisher@, pointer.alias@) == entries_of(
                *old(self),
                pointer.publisher@,
                pointer.alias@,
            ).push(StoredPointer { pointer, evidence }),
            r is Ok ==> forall|p: Seq<u8>, a: Seq<char>|
                !(p == pointer.publisher@ && a == pointer.alias@) ==> #[trigger] final(self).history_of(p, a) == old(
                    self,
                ).history_of(p, a),
            final(self).same_mirrors(old(self)),
            final(self).same_revocations(old(self)),
    {
        pointer.verify_signature(unsigned, evidence.as_slice())?;
        let found = self.find_history(&pointer.publisher, pointer.alias.as_str());
        let ghost before = self.pointers@;
        let ghost pkey = history_key(pointer.publisher@, pointer.alias@);
        match found {
            Some(i) => {
                proof {
                    lemma_first_match_is(before, pkey, i as int);
                }
                let n = self.pointers[i].entries.len();
                if n > 0 {
                    if pointer.sequence <= self.pointers[i].entries[n - 1].pointer.sequence {
                        return Err(
                            SyncwebError::InvalidConfig("mutable link sequence must be greater than the current one".to_string()),
                        );
                    }
                }
                match &pointer.version {
                    Some(v) => {
                        match find_version(&self.pointers[i].entries, v.as_str()) {
                            Some(k) => {
                                proof {
                                    lemma_first_match_is(self.pointers@[i as int].entries@, version_key(v@), k as int);
                                }
                                return Err(SyncwebError::InvalidConfig("mutable link version is already published".to_string()));
                            },
                            None => {},
                        }
                    },
                    None => {},
                }
                let mut h = self.pointers.remove(i);
                let ghost old_h = h;
                h.entries.push(StoredPointer { pointer, evidence });
                let ghost new_h = h;
                self.pointers.insert(i, h);
                proof {
                    let after = self.pointers@;
                    assert(after =~= before.update(i as int, new_h));
                    assert forall|p: Seq<u8>, a: Seq<char>| true implies #[trigger] first_match(after, history_key(p, a))
                        == first_match(before, history_key(p, a)) by {
                        lemma_first_match_update(before, history_key(p, a), i as int, new_h);
                    }
                    assert forall|p: Seq<u8>, a: Seq<char>|
                        !(p == pointer.publisher@ && a == pointer.alias@) implies #[trigger] self.history_of(p, a) == old(
                            self,
                        ).history_of(p, a) by {
                        assert(first_match(after, history_key(p, a)) == first_match(before, history_key(p, a)));
                        if first_match(before, history_key(p, a)) is Some {
                            let k = first_match(before, history_key(p, a))->0;
                            assert(is_first_match(before, history_key(p, a), k)) by {
                                let kk = choose|kk: int| is_first_match(before, history_key(p, a), kk);
                            }
                            assert(k != i);
                        }
                    }
                    assert(first_match(after, pkey) == Some(i as int));
                }
            },
            None => {
                let mut entries: Vec<StoredPointer> = Vec::new();
                let publisher = pointer.publisher;
                let alias = pointer.alias.clone();
                entries.push(StoredPointer { pointer, evidence });
                let h = PointerHistory { publisher, alias, entries };
                self.pointers.push(h);
                proof {
                    let after = self.pointers@;
                    assert(after == before.push(h));
                    assert forall|p: Seq<u8>, a: Seq<char>|
                        !(p == pointer.publisher@ && a == pointer.alias@) implies #[trigger] self.history_of(p, a) == old(
                            self,
                        ).history_of(p, a) by {
                        lemma_first_match_push(before, history_key(p, a), h);
                        if first_match(before, history_key(p, a)) is Some {
                            let k = first_match(before, history_key(p, a))->0;
                            assert(after[k] == before[k]);
                        }
                    }
                    lemma_first_match_push(before, pkey, h);
                    assert(h.entries@ =~= Seq::<StoredPointer>::empty().push(StoredPointer { pointer, evidence }));
                }
            },
        }
        Ok(())
    }
}

impl LinkResolver {
    /// The same as [`Self::publish`].
    pub fn register_pointer(&mut self, pointer: MutablePointer, unsigned: &[u8], evidence: Vec<LeaseEvidence>) -> (r:
        Result<()>)
        ensures
            r is Ok <==> pointer_verifies(pointer, unsigned@, evidence@) && !publish_refused(*old(self), pointer),
            r is Err ==> *final(self) == *old(self),
            r is Ok ==> entries_of(*final(self), pointer.publisher@, pointer.alias@) == entries_of(
                *old(self),
                pointer.publisher@,
                pointer.alias@,
            ).push(StoredPointer { pointer, evidence }),
    {
        self.publish(pointer, unsigned, evidence)
    }

    /// The same as [`Self::publish`].
    pub fn update(&mut self, pointer: MutablePointer, unsigned: &[u8], evidence: Vec<LeaseEvidence>) -> (r: Result<()>)
        ensures
            r is Ok <==> pointer_verifies(pointer, unsigned@, evidence@) && !publish_refused(*old(self), pointer),
            r is Err ==> *final(self) == *old(self),
            r is Ok ==> entries_of(*final(self), pointer.publisher@, pointer.alias@) == entries_of(
                *old(self),
                pointer.publisher@,
                pointer.alias@,
            ).push(StoredPointer { pointer, evidence }),
    {
        self.publish(pointer, unsigned, evidence)
    }

    /// The current pointer of a mutable name.
    pub fn current_pointer(&self, link: &NameLink) -> (r: Result<Option<MutablePointer>>)
        ensures
            r is Ok <==> path_segment_ok(link.alias@),
            r is Err ==> r->Err_0 is InvalidConfig,
            r matches Ok(o) ==> match (o, current_of(*self, link.publisher@, link.alias@)) {
                (None, None) => true,
                (Some(p), Some(c)) => p.publisher == c.pointer.publisher && p.alias == c.pointer.alias
                    && p.sequence == c.pointer.sequence && p.manifest == c.pointer.manifest && p.version
                    == c.pointer.version && p.signature == c.pointer.signature && p.providers@ == c.pointer.providers@,
                _ => false,
            },
    {
        link.validate()?;
        match self.find_history(&link.publisher, link.alias.as_str()) {
            Some(i) => {
                proof {
                    lemma_first_match_is(self.pointers@, history_key(link.publisher@, link.alias@), i as int);
                }
                let n = self.pointers[i].entries.len();
                if n == 0 {
                    Ok(None)
                } else {
                    Ok(Some(self.pointers[i].entries[n - 1].pointer.duplicate()))
                }
            },
            None => Ok(None),
        }
    }

    fn revoked_index(&self, m: &[u8; 32], c: &str) -> (r: bool)
        ensures
            r == self.is_revoked_key(m@, c@),
    {
        let mut i: usize = 0;
        while i < self.revoked.len()
            invariant
                i <= self.revoked@.len(),
                forall|k: int| 0 <= k < i ==> !((#[trigger] self.revoked@[k]).0@ == m@ && self.revoked@[k].1@ == c@),
            decreases self.revoked.len() - i,
        {
            if bytes_eq(&self.revoked[i].0, m) && str_eq(self.revoked[i].1.as_str(), c) {
                return true;
            }
            i += 1;
        }
        false
    }

    /// Revoke a private capability.
    pub fn revoke(&mut self, link: &PrivateLink) -> (r: Result<()>)
        ensures
            r is Ok <==> private_link_ok(link.capability@, link.expires_at),
            r is Err ==> r->Err_0 is InvalidConfig && *final(self) == *old(self),
            r is Ok ==> forall|m: Seq<u8>, c: Seq<char>| #[trigger] final(self).is_revoked_key(m, c) == (old(
                self,
            ).is_revoked_key(m, c) || (m == link.manifest@ && c == link.capability@)),
            final(self).same_mirrors(old(self)),
            forall|p: Seq<u8>, a: Seq<char>| #[trigger] final(self).history_of(p, a) == old(self).history_of(p, a),
    {
        link.validate()?;
        if !self.revoked_index(&link.manifest, link.capability.as_str()) {
            let ghost before = self.revoked@;
            let key = link.revocation_key();
            self.revoked.push(key);
            proof {
                assert forall|m: Seq<u8>, c: Seq<char>| #[trigger] self.is_revoked_key(m, c) == (old(self).is_revoked_key(m, c)
                    || (m == link.manifest@ && c == link.capability@)) by {
                    if old(self).is_revoked_key(m, c) {
                        let k = choose|k: int| 0 <= k < before.len() && (#[trigger] before[k]).0@ == m && before[k].1@ == c;
                        assert(self.revoked@[k] == before[k]);
                    }
                    if m == link.manifest@ && c == link.capability@ {
                        assert(self.revoked@[before.len() as int] == key);
                    }
                    if self.is_revoked_key(m, c) {
                        let k = choose|k: int|
                            0 <= k < self.revoked@.len() && (#[trigger] self.revoked@[k]).0@ == m && self.revoked@[k].1@ == c;
                        if k < before.len() {
                            assert(self.revoked@[k] == before[k]);
                        }
                    }
                }
            }
        }
        Ok(())
    }

    /// The same as [`Self::revoke`].
    pub fn revoke_private(&mut self, link: &PrivateLink) -> (r: Result<()>)
        ensures
            r is Ok <==> private_link_ok(link.capability@, link.expires_at),
            r is Err ==> *final(self) == *old(self),
            r is Ok ==> forall|m: Seq<u8>, c: Seq<char>| #[trigger] final(self).is_revoked_key(m, c) == (old(
                self,
            ).is_revoked_key(m, c) || (m == link.manifest@ && c == link.capability@)),
    {
        self.revoke(link)
    }

    /// Whether a private capability has been revoked.
    pub fn is_revoked(&self, link: &PrivateLink) -> (r: Result<bool>)
        ensures
            r is Ok <==> private_link_ok(link.capability@, link.expires_at),
            r is Err ==> r->Err_0 is InvalidConfig,
            r matches Ok(b) ==> b == self.is_revoked_key(link.manifest@, link.capability@),
    {
        link.validate()?;
        Ok(self.revoked_index(&link.manifest, link.capability.as_str()))
    }
}

/// The `i`-th lease verifies at `now` against what was reported of it.
pub open spec fn lease_active_verified(ls: Seq<ProviderLease>, ev: Seq<LeaseEvidence>, i: int, now: u64) -> bool {
    lease_fields_valid(ls[i], evidence_ticket(ev, i)) && lease_signature_valid(ls[i], evidence_unsigned(ev, i))
        && ls[i].expires_at > now
}

/// The leases still active at `now` and their tickets, each ticket once;
/// `None` when an active lease fails to verify.
pub open spec fn lease_walk(ls: Seq<ProviderLease>, ev: Seq<LeaseEvidence>, now: u64) -> Option<
    (Seq<ProviderLease>, Seq<Seq<char>>),
>
    decreases ls.len(),
{
    if ls.len() == 0 {
        Some((seq![], seq![]))
    } else {
        match lease_walk(ls.drop_last(), ev, now) {
            None => None,
            Some((ps, ts)) => {
                let i = ls.len() - 1;
                if ls[i].expires_at <= now {
                    Some((ps, ts))
                } else if lease_active_verified(ls, ev, i, now) {
                    Some((ps.push(ls[i]), push_unique(ts, ls[i].ticket@)))
                } else {
                    None
                }
            },
        }
    }
}

proof fn lemma_walk_prefix(ls: Seq<ProviderLease>, ev: Seq<LeaseEvidence>, now: u64, i: int)
    requires
        0 <= i < ls.len(),
    ensures
        lease_walk(ls.take(i + 1), ev, now) == match lease_walk(ls.take(i), ev, now) {
            None => None,
            Some((ps, ts)) => if ls[i].expires_at <= now {
                Some((ps, ts))
            } else if lease_active_verified(ls, ev, i, now) {
                Some((ps.push(ls[i]), push_unique(ts, ls[i].ticket@)))
            } else {
                None
            },
        },
{
    let t = ls.take(i + 1);
    assert(t.drop_last() =~= ls.take(i));
    assert(t[i] == ls[i]);
    assert(lease_active_verified(t, ev, i, now) == lease_active_verified(ls, ev, i, now));
}

/// The resolution of `manifest` with the given pointer fields: the active
/// verified leases, their tickets, then the mirror tickets not yet listed.
pub open spec fn resolution_ok(
    r: LinkResolver,
    manifest: [u8; 32],
    version: Option<String>,
    sequence: Option<u64>,
    ls: Seq<ProviderLease>,
    ev: Seq<LeaseEvidence>,
    now: u64,
    res: Result<LinkResolution>,
) -> bool {
    match lease_walk(ls, ev, now) {
        None => res is Err,
        Some((ps, ts)) => res matches Ok(x) && x.manifest == manifest && x.version == version && x.sequence == sequence
            && x.providers@ == ps && texts(x.tickets@) == add_all_unique(ts, r.mirror_tickets(manifest@)),
    }
}

impl LinkResolver {
    fn resolution_for_hash(
        &self,
        manifest: [u8; 32],
        version: Option<String>,
        sequence: Option<u64>,
        providers: &Vec<ProviderLease>,
        evidence: &Vec<LeaseEvidence>,
        now: u64,
    ) -> (r: Result<LinkResolution>)
        ensures
            resolution_ok(*self, manifest, version, sequence, providers@, evidence@, now, r),
    {
        let mut tickets: Vec<String> = Vec::new();
        let mut active: Vec<ProviderLease> = Vec::new();
        let mut i: usize = 0;
        while i < providers.len()
            invariant
                i <= providers@.len(),
                lease_walk(providers@.take(i as int), evidence@, now) matches Some((ps, ts)) && active@ == ps
                    && texts(tickets@) == ts,
            decreases providers.len() - i,
        {
            proof {
                lemma_walk_prefix(providers@, evidence@, now, i as int);
            }
            let l = &providers[i];
            if l.expires_at <= now {
                i += 1;
                continue;
            }
            let ticket = if i < evidence.len() {
                evidence[i].ticket
            } else {
                None
            };
            let empty: Vec<u8> = Vec::new();
            let unsigned_i: &[u8] = if i < evidence.len() {
                evidence[i].unsigned.as_slice()
            } else {
                empty.as_slice()
            };
            assert(unsigned_i@ == evidence_unsigned(evidence@, i as int));
            assert(ticket == evidence_ticket(evidence@, i as int));
            match l.verify_at(ticket, unsigned_i, now) {
                Ok(()) => {},
                Err(e) => {
                    proof {
                        assert(!lease_active_verified(providers@, evidence@, i as int, now));
                        assert(lease_walk(providers@.take(i + 1), evidence@, now) is None);
                        lemma_walk_none_extends(providers@, evidence@, now, i + 1);
                        assert(providers@.take(providers@.len() as int) =~= providers@);
                    }
                    return Err(e);
                },
            }
            push_unique_text(&mut tickets, l.ticket.as_str());
            active.push(l.clone());
            i += 1;
        }
        assert(providers@.take(providers@.len() as int) =~= providers@);
        match self.find_mirror(&manifest) {
            Some(m) => {
                proof {
                    lemma_first_match_is(self.mirrors@, mirror_key(manifest@), m as int);
                }
                let ms = &self.mirrors[m].tickets;
                let ghost ts0 = texts(tickets@);
                let mut k: usize = 0;
                while k < ms.len()
                    invariant
                        k <= ms@.len(),
                        texts(tickets@) == add_all_unique(ts0, texts(ms@).take(k as int)),
                    decreases ms.len() - k,
                {
                    push_unique_text(&mut tickets, ms[k].as_str());
                    proof {
                        let t = texts(ms@).take(k + 1);
                        assert(t.drop_last() =~= texts(ms@).take(k as int));
                        assert(t.last() == ms@[k as int]@);
                    }
                    k += 1;
                }
                assert(texts(ms@).take(ms@.len() as int) =~= texts(ms@));
            },
            None => {
                assert(self.mirror_tickets(manifest@) =~= Seq::<Seq<char>>::empty());
            },
        }
        Ok(LinkResolution { manifest, version, sequence, providers: active, tickets })
    }
}

proof fn lemma_walk_none_extends(ls: Seq<ProviderLease>, ev: Seq<LeaseEvidence>, now: u64, i: int)
    requires
        0 <= i <= ls.len(),
        lease_walk(ls.take(i), ev, now) is None,
    ensures
        lease_walk(ls.take(ls.len() as int), ev, now) is None,
    decreases ls.len() - i,
{
    if i < ls.len() {
        lemma_walk_prefix(ls, ev, now, i);
        lemma_walk_none_extends(ls, ev, now, i + 1);
    }
}

/// The pointer a name link selects: the one published with the requested
/// version, or the current one.
pub open spec fn pinned_pointer(r: LinkResolver, p: Seq<u8>, a: Seq<char>, version: Option<Seq<char>>) -> Option<
    StoredPointer,
> {
    match version {
        Some(v) => version_of(r, p, a, v),
        None => current_of(r, p, a),
    }
}

/// What resolving `link` at `now` gives: the resolution of the link's hash
/// or selected pointer, or an error where the link is invalid, expired,
/// revoked, or names nothing published.
pub open spec fn resolve_spec(
    r: LinkResolver,
    link: Link,
    version: Option<Seq<char>>,
    now: u64,
    res: Result<LinkResolution>,
) -> bool {
    match link {
        Link::Content(c) => resolution_ok(r, c.hash, None, None, seq![], seq![], now, res),
        Link::Private(l) => if !private_link_ok(l.capability@, l.expires_at) || l.expires_at <= now || r.is_revoked_key(
            l.manifest@,
            l.capability@,
        ) {
            res matches Err(SyncwebError::InvalidConfig(_))
        } else {
            resolution_ok(r, l.manifest, None, None, seq![], seq![], now, res)
        },
        Link::Name(n) => if !path_segment_ok(n.alias@) {
            res matches Err(SyncwebError::InvalidConfig(_))
        } else {
            match pinned_pointer(r, n.publisher@, n.alias@, version) {
                None => res matches Err(SyncwebError::InvalidConfig(_)),
                Some(sp) => resolution_ok(
                    r,
                    sp.pointer.manifest,
                    sp.pointer.version,
                    Some(sp.pointer.sequence),
                    sp.pointer.providers@,
                    sp.evidence@,
                    now,
                    res,
                ),
            }
        },
    }
}

/// The text of an optional string slice.
pub open spec fn opt_text(v: Option<&str>) -> Option<Seq<char>> {
    match v {
        Some(s) => Some(s@),
        None => None,
    }
}

/// The text of an optional string.
pub open spec fn opt_string_text(v: Option<String>) -> Option<Seq<char>> {
    match v {
        Some(s) => Some(s@),
        None => None,
    }
}

impl NameLink {
    /// A copy of the link.
    pub fn duplicate(&self) -> (l: Self)
        ensures
            l == *self,
    {
        NameLink { publisher: self.publisher, alias: self.alias.clone() }
    }
}

impl LinkResolver {
    /// Resolve a link at `now`, selecting `version` of a mutable name where
    /// one is given.
    pub fn resolve_pinned_at(&self, link: &Link, version: Option<&str>, now: u64) -> (r: Result<LinkResolution>)
        ensures
            resolve_spec(*self, *link, opt_text(version), now, r),
    {
        let none_leases: Vec<ProviderLease> = Vec::new();
        let none_evidence: Vec<LeaseEvidence> = Vec::new();
        match link {
            Link::Content(c) => {
                assert(none_leases@ =~= Seq::<ProviderLease>::empty());
                assert(none_evidence@ =~= Seq::<LeaseEvidence>::empty());
                self.resolution_for_hash(c.hash, None, None, &none_leases, &none_evidence, now)
            },
            Link::Private(l) => {
                l.validate()?;
                if l.is_expired_at(now) {
                    return Err(SyncwebError::InvalidConfig("private link has expired".to_string()));
                }
                if self.revoked_index(&l.manifest, l.capability.as_str()) {
                    return Err(SyncwebError::InvalidConfig("private link has been revoked".to_string()));
                }
                assert(none_leases@ =~= Seq::<ProviderLease>::empty());
                assert(none_evidence@ =~= Seq::<LeaseEvidence>::empty());
                self.resolution_for_hash(l.manifest, None, None, &none_leases, &none_evidence, now)
            },
            Link::Name(n) => {
                n.validate()?;
                let i = match self.find_history(&n.publisher, n.alias.as_str()) {
                    Some(i) => i,
                    None => {
                        return Err(SyncwebError::InvalidConfig("mutable link has no published pointer".to_string()));
                    },
                };
                proof {
                    lemma_first_match_is(self.pointers@, history_key(n.publisher@, n.alias@), i as int);
                }
                let entries = &self.pointers[i].entries;
                let k = match version {
                    Some(v) => match find_version(entries, v) {
                        Some(k) => {
                            proof {
                                lemma_first_match_is(entries@, version_key(v@), k as int);
                            }
                            k
                        },
                        None => {
                            return Err(SyncwebError::InvalidConfig("mutable link version not found".to_string()));
                        },
                    },
                    None => {
                        if entries.len() == 0 {
                            return Err(SyncwebError::InvalidConfig("mutable link has no current pointer".to_string()));
                        }
                        entries.len() - 1
                    },
                };
                let sp = &entries[k];
                self.resolution_for_hash(
                    sp.pointer.manifest,
                    clone_opt_string(&sp.pointer.version),
                    Some(sp.pointer.sequence),
                    &sp.pointer.providers,
                    &sp.evidence,
                    now,
                )
            },
        }
    }

    /// Resolve a link with explicit version and time options; without a
    /// time, the current time is used.
    pub fn resolve_with_options(&self, link: &Link, options: &ResolveOptions) -> (r: Result<LinkResolution>)
        ensures
            exists|now: u64|
                (options.now matches Some(n) ==> now == n) && #[trigger] resolve_spec(
                    *self,
                    *link,
                    opt_string_text(options.version),
                    now,
                    r,
                ),
    {
        let now = match options.now {
            Some(n) => n,
            None => current_epoch_seconds(),
        };
        let version: Option<&str> = match &options.version {
            Some(v) => Some(v.as_str()),
            None => None,
        };
        assert(opt_text(version) == opt_string_text(options.version));
        self.resolve_pinned_at(link, version, now)
    }

    /// Resolve a link at the current time.
    pub fn resolve(&self, link: &Link) -> (r: Result<LinkResolution>)
        ensures
            exists|now: u64| #[trigger] resolve_spec(*self, *link, None, now, r),
    {
        let options = ResolveOptions::default();
        let r = self.resolve_with_options(link, &options);
        assert(opt_string_text(options.version) == Option::<Seq<char>>::None);
        r
    }

    /// Resolve a link at an explicit time.
    pub fn resolve_at(&self, link: &Link, now: u64) -> (r: Result<LinkResolution>)
        ensures
            resolve_spec(*self, *link, None, now, r),
    {
        self.resolve_pinned_at(link, None, now)
    }

    /// Resolve a mutable link to an exact version, at the current time.
    pub fn resolve_version(&self, link: &NameLink, version: &str) -> (r: Result<LinkResolution>)
        ensures
            exists|now: u64| #[trigger] resolve_spec(*self, Link::Name(*link), Some(version@), now, r),
    {
        let now = current_epoch_seconds();
        let l = Link::Name(link.duplicate());
        self.resolve_pinned_at(&l, Some(version), now)
    }

    /// Parse and resolve a link URI at the current time: a URI that is no
    /// link fails; a link is resolved as `resolve` does, at the time read.
    pub fn resolve_uri(&self, uri: &str) -> (r: Result<LinkResolution>)
        ensures
            !uri_parses(uri@) ==> r is Err,
            uri_parses(uri@) ==> exists|l: Link, now: u64| uri_link(uri@, l) && #[trigger] resolve_spec(*self, l, None, now, r),
    {
        let link = Link::parse(uri)?;
        proof {
            assert(uri_link(uri@, link));
        }
        let r = self.resolve(&link);
        proof {
            let now = choose|now: u64| #[trigger] resolve_spec(*self, link, None, now, r);
            assert(uri_link(uri@, link) && resolve_spec(*self, link, None, now, r));
        }
        r
    }
}

/// Fallback over a resolution's tickets: what to try next after each
/// failure, and the error once every ticket failed.
#[derive(Debug)]
pub struct MirrorFallback {
    count: usize,
    next: usize,
    failures: Vec<String>,
}

/// The next step of a fallback.
#[derive(Debug)]
pub enum FetchStep {
    /// Fetch with the ticket at this position.
    Try(usize),
    /// Stop with this error.
    Failed(SyncwebError),
}

/// The failure texts joined with `; `.
pub open spec fn join_failures(fs: Seq<Seq<char>>) -> Seq<char>
    decreases fs.len(),
{
    if fs.len() == 0 {
        seq![]
    } else if fs.len() == 1 {
        fs[0]
    } else {
        join_failures(fs.drop_last()) + "; "@ + fs.last()
    }
}

impl MirrorFallback {
    /// The number of tickets tried so far.
    pub closed spec fn tried(&self) -> nat {
        self.next as nat
    }

    /// The number of tickets.
    pub closed spec fn ticket_count(&self) -> nat {
        self.count as nat
    }

    /// The failure texts so far, in order.
    pub closed spec fn failure_texts(&self) -> Seq<Seq<char>> {
        texts(self.failures@)
    }

    /// Start a fallback over `count` tickets: try the first, or fail when
    /// there is none.
    pub fn start(count: usize) -> (r: (MirrorFallback, FetchStep))
        ensures
            r.0.tried() == 0,
            r.0.ticket_count() == count,
            r.0.failure_texts() == Seq::<Seq<char>>::empty(),
            count == 0 ==> r.1 matches FetchStep::Failed(SyncwebError::InvalidConfig(_)),
            count > 0 ==> r.1 matches FetchStep::Try(0),
    {
        let f = MirrorFallback { count, next: 0, failures: Vec::new() };
        assert(texts(f.failures@) =~= Seq::<Seq<char>>::empty());
        if count == 0 {
            (f, FetchStep::Failed(SyncwebError::InvalidConfig("link has no provider tickets".to_string())))
        } else {
            (f, FetchStep::Try(0))
        }
    }

    /// Record that the last tried ticket failed with `error`: try the next
    /// ticket, or fail with every failure once all were tried.
    pub fn failed(&mut self, error: &str) -> (step: FetchStep)
        requires
            old(self).tried() < old(self).ticket_count(),
        ensures
            final(self).ticket_count() == old(self).ticket_count(),
            final(self).tried() == old(self).tried() + 1,
            final(self).failure_texts() == old(self).failure_texts().push(error@),
            final(self).tried() < final(self).ticket_count() ==> (step matches FetchStep::Try(i) && i == final(self).tried()),
            final(self).tried() == final(self).ticket_count() ==> (step matches FetchStep::Failed(
                SyncwebError::InvalidConfig(m),
            ) && m@ == "all mirror providers failed: "@ + join_failures(final(self).failure_texts())),
    {
        let ghost before = self.failures@;
        self.failures.push(error.to_string());
        assert(texts(self.failures@) =~= texts(before).push(error@));
        self.next = self.next + 1;
        if self.next < self.count {
            return FetchStep::Try(self.next);
        }
        let mut msg = chars_of("all mirror providers failed: ");
        let ghost prefix = msg@;
        let mut i: usize = 0;
        while i < self.failures.len()
            invariant
                i <= self.failures@.len(),
                msg@ == prefix + join_failures(texts(self.failures@).take(i as int)),
            decreases self.failures.len() - i,
        {
            if i > 0 {
                msg = concat_chars(&msg, &chars_of("; "));
            }
            msg = concat_chars(&msg, &chars_of(self.failures[i].as_str()));
            proof {
                let t = texts(self.failures@).take(i + 1);
                assert(t.drop_last() =~= texts(self.failures@).take(i as int));
                if i == 0 {
                    assert(t.len() == 1);
                    assert(join_failures(texts(self.failures@).take(0)) =~= Seq::<char>::empty());
                }
            }
            i += 1;
        }
        assert(texts(self.failures@).take(self.failures@.len() as int) =~= texts(self.failures@));
        FetchStep::Failed(SyncwebError::InvalidConfig(string_of(&msg)))
    }
}

/// The texts of errors.
pub open spec fn error_texts(errs: Seq<SyncwebError>) -> Seq<Seq<char>> {
    errs.map_values(|e: SyncwebError| error_text(e))
}

/// Fetching with each of the first `errs.len()` tickets failed, with the
/// errors `errs` in order.
pub open spec fn fetches_failed<T, F: Fn(&String) -> Result<T>>(
    fetch: F,
    tickets: Seq<String>,
    errs: Seq<SyncwebError>,
) -> bool {
    errs.len() <= tickets.len() && forall|j: int|
        0 <= j < errs.len() ==> call_ensures(fetch, (&tickets[j],), Err::<T, SyncwebError>(#[trigger] errs[j]))
}

/// Fetch with each ticket in turn until one succeeds: the first success is
/// the result. Without tickets it fails at once; when every fetch fails,
/// the error lists each failure's text in order, joined with `; `.
pub fn fetch_from_mirrors<T, F: Fn(&String) -> Result<T>>(tickets: &[String], fetch: &F) -> (r: Result<T>)
    requires
        forall|i: int| 0 <= i < tickets@.len() ==> call_requires(*fetch, (&#[trigger] tickets@[i],)),
    ensures
        tickets@.len() == 0 ==> (r matches Err(SyncwebError::InvalidConfig(m)) && m@
            == "link has no provider tickets"@),
        r is Ok ==> exists|errs: Seq<SyncwebError>| #[trigger] fetches_failed(*fetch, tickets@, errs) && errs.len()
            < tickets@.len() && call_ensures(*fetch, (&tickets@[errs.len() as int],), r),
        tickets@.len() > 0 && r is Err ==> exists|errs: Seq<SyncwebError>| #[trigger] fetches_failed(*fetch, tickets@, errs)
            && errs.len() == tickets@.len() && (r matches Err(SyncwebError::InvalidConfig(m)) && m@
            == "all mirror providers failed: "@ + join_failures(error_texts(errs))),
{
    if tickets.len() == 0 {
        return Err(SyncwebError::InvalidConfig("link has no provider tickets".to_string()));
    }
    let mut failures: Vec<String> = Vec::new();
    let ghost mut errs: Seq<SyncwebError> = seq![];
    let mut i: usize = 0;
    while i < tickets.len()
        invariant
            i <= tickets@.len(),
            errs.len() == i,
            fetches_failed(*fetch, tickets@, errs),
            texts(failures@) == error_texts(errs),
            forall|k: int| 0 <= k < tickets@.len() ==> call_requires(*fetch, (&#[trigger] tickets@[k],)),
        decreases tickets.len() - i,
    {
        let outcome = fetch(&tickets[i]);
        match outcome {
            Ok(v) => {
                let r: Result<T> = Ok(v);
                assert(call_ensures(*fetch, (&tickets@[errs.len() as int],), r));
                return r;
            },
            Err(e) => {
                let text = e.to_string();
                proof {
                    let next = errs.push(e);
                    assert forall|j: int| 0 <= j < next.len() implies call_ensures(
                        *fetch,
                        (&tickets@[j],),
                        Err::<T, SyncwebError>(#[trigger] next[j]),
                    ) by {
                        if j < errs.len() {
                            assert(next[j] == errs[j]);
                            assert(Err::<T, SyncwebError>(next[j]) == Err::<T, SyncwebError>(errs[j]));
                        }
                    }
                    assert(error_texts(next) =~= error_texts(errs).push(error_text(e)));
                    assert(texts(failures@.push(text)) =~= texts(failures@).push(text@));
                    errs = next;
                }
                failures.push(text);
            },
        }
        i += 1;
    }
    let mut msg = chars_of("all mirror providers failed: ");
    let ghost prefix = msg@;
    let mut k: usize = 0;
    while k < failures.len()
        invariant
            k <= failures@.len(),
            msg@ == prefix + join_failures(texts(failures@).take(k as int)),
        decreases failures.len() - k,
    {
        if k > 0 {
            msg = concat_chars(&msg, &chars_of("; "));
        }
        msg = concat_chars(&msg, &chars_of(failures[k].as_str()));
        proof {
            let t = texts(failures@).take(k + 1);
            assert(t.drop_last() =~= texts(failures@).take(k as int));
            if k == 0 {
                assert(t.len() == 1);
                assert(join_failures(texts(failures@).take(0)) =~= Seq::<char>::empty());
            }
        }
        k += 1;
    }
    assert(texts(failures@).take(failures@.len() as int) =~= texts(failures@));
    Err(SyncwebError::InvalidConfig(string_of(&msg)))
}

/// Adding a ticket unless it is present keeps a ticket list free of
/// repeats, and the ticket is then in the list. A resolver starts with no
/// tickets and adds each one this way, so its ticket lists hold no repeats.
pub proof fn law_mirror_tickets_stay_distinct(ts: Seq<Seq<char>>, t: Seq<char>)
    requires
        ts.no_duplicates(),
    ensures
        push_unique(ts, t).no_duplicates(),
        push_unique(ts, t).contains(t),
{
    if !ts.contains(t) {
        let u = ts.push(t);
        assert(u[ts.len() as int] == t);
        assert forall|i: int, j: int| 0 <= i < u.len() && 0 <= j < u.len() && i != j implies u[i] != u[j] by {
            if i < ts.len() && j < ts.len() {
                assert(u[i] == ts[i] && u[j] == ts[j]);
            } else if i < ts.len() {
                assert(u[i] == ts[i]);
            } else {
                assert(u[j] == ts[j]);
            }
        }
    }
}

/// Adding the tickets of a list without repeats, one by one and each unless
/// present, to no tickets gives that list.
pub proof fn lemma_add_distinct_tickets(ms: Seq<Seq<char>>)
    requires
        ms.no_duplicates(),
    ensures
        add_all_unique(seq![], ms) == ms,
    decreases ms.len(),
{
    if ms.len() > 0 {
        let init = ms.drop_last();
        assert(init.no_duplicates()) by {
            assert forall|i: int, j: int| 0 <= i < init.len() && 0 <= j < init.len() && i != j implies init[i]
                != init[j] by {
                assert(init[i] == ms[i] && init[j] == ms[j]);
            }
        }
        lemma_add_distinct_tickets(init);
        assert(!init.contains(ms.last())) by {
            if init.contains(ms.last()) {
                let i = choose|i: int| 0 <= i < init.len() && init[i] == ms.last();
                assert(ms[i] == ms[ms.len() - 1]);
            }
        }
        assert(init.push(ms.last()) =~= ms);
    }
}

/// A valid private link resolves exactly when it has not expired and has
/// not been revoked; it then resolves to its manifest with no version,
/// sequence or providers, and the manifest's mirror tickets (each once, in
/// the order they were added).
pub proof fn law_private_links_resolve(
    r: LinkResolver,
    l: PrivateLink,
    version: Option<Seq<char>>,
    now: u64,
    res: Result<LinkResolution>,
)
    requires
        private_link_ok(l.capability@, l.expires_at),
        resolve_spec(r, Link::Private(l), version, now, res),
    ensures
        res is Err <==> (l.expires_at <= now || r.is_revoked_key(l.manifest@, l.capability@)),
        res matches Ok(x) ==> {
            &&& x.manifest == l.manifest
            &&& x.version is None
            &&& x.sequence is None
            &&& x.providers@.len() == 0
            &&& texts(x.tickets@) == add_all_unique(seq![], r.mirror_tickets(l.manifest@))
        },
        r.mirror_tickets(l.manifest@).no_duplicates() ==> (res matches Ok(x) ==> texts(x.tickets@)
            == r.mirror_tickets(l.manifest@)),
{
    assert(lease_walk(seq![], seq![], now) == Some((Seq::<ProviderLease>::empty(), Seq::<Seq<char>>::empty())));
    if r.mirror_tickets(l.manifest@).no_duplicates() {
        lemma_add_distinct_tickets(r.mirror_tickets(l.manifest@));
    }
}

/// Once a pointer is published it is its name's current pointer, and, when
/// it carries a version, the pointer that version resolves to.
pub proof fn law_published_pointer_resolves(
    before: LinkResolver,
    after: LinkResolver,
    sp: StoredPointer,
)
    requires
        !publish_refused(before, sp.pointer),
        entries_of(after, sp.pointer.publisher@, sp.pointer.alias@) == entries_of(
            before,
            sp.pointer.publisher@,
            sp.pointer.alias@,
        ).push(sp),
    ensures
        current_of(after, sp.pointer.publisher@, sp.pointer.alias@) == Some(sp),
        sp.pointer.version matches Some(v) ==> version_of(after, sp.pointer.publisher@, sp.pointer.alias@, v@) == Some(
            sp,
        ),
{
    let p = sp.pointer.publisher@;
    let a = sp.pointer.alias@;
    let old_entries = entries_of(before, p, a);
    assert(after.history_of(p, a) is Some) by {
        if after.history_of(p, a) is None {
            assert(entries_of(after, p, a).len() == old_entries.len() + 1);
        }
    }
    let h = after.history_of(p, a)->0;
    assert(h.entries@ == old_entries.push(sp));
    if let Some(v) = sp.pointer.version {
        let key = version_key(v@);
        assert(first_match(old_entries, key) is None) by {
            match before.history_of(p, a) {
                Some(hb) => {
                    assert(history_version(hb, v@) is None);
                },
                None => {
                    assert(old_entries.len() == 0);
                    lemma_first_match_none(old_entries, key);
                },
            }
        }
        lemma_first_match_push(old_entries, key, sp);
        assert(key(sp));
    }
}

/// What publishing answers: a pointer is accepted exactly when it verifies,
/// its sequence is greater than the current pointer's (if there is one) and
/// its version (if any) is not yet published under its name; an accepted
/// pointer becomes the name's current pointer and the one its version
/// resolves to, and a refused one leaves the resolver as it was.
pub proof fn law_publish_outcome(
    before: LinkResolver,
    after: LinkResolver,
    pointer: MutablePointer,
    unsigned: Seq<u8>,
    evidence: Vec<LeaseEvidence>,
    r: Result<()>,
)
    requires
        r is Ok <==> pointer_verifies(pointer, unsigned, evidence@) && !publish_refused(before, pointer),
        r is Err ==> after == before,
        r is Ok ==> entries_of(after, pointer.publisher@, pointer.alias@) == entries_of(
            before,
            pointer.publisher@,
            pointer.alias@,
        ).push(StoredPointer { pointer, evidence }),
    ensures
        r is Ok <==> {
            &&& pointer_verifies(pointer, unsigned, evidence@)
            &&& current_of(before, pointer.publisher@, pointer.alias@) matches Some(c) ==> pointer.sequence
                > c.pointer.sequence
            &&& pointer.version matches Some(v) ==> version_of(before, pointer.publisher@, pointer.alias@, v@) is None
        },
        r is Ok ==> current_of(after, pointer.publisher@, pointer.alias@) == Some(StoredPointer { pointer, evidence }),
        r is Ok ==> (pointer.version matches Some(v) ==> version_of(after, pointer.publisher@, pointer.alias@, v@)
            == Some(StoredPointer { pointer, evidence })),
        r is Err ==> after == before,
{
    if r is Ok {
        law_published_pointer_resolves(before, after, StoredPointer { pointer, evidence });
    }
}

/// The errors of fetch outcomes that each failed.
pub open spec fn outcome_errors<T>(outcomes: Seq<Result<T>>) -> Seq<SyncwebError> {
    outcomes.map_values(|o: Result<T>| o->Err_0)
}

/// With a fetch whose outcome for each ticket is fixed, fetching from
/// mirrors fails at once without tickets; otherwise it succeeds exactly when
/// some ticket's fetch does, with the outcome of the first such ticket, and
/// when every fetch fails its error lists the failures in ticket order.
pub proof fn law_mirrors_tried_in_order<T, F: Fn(&String) -> Result<T>>(
    fetch: F,
    tickets: Seq<String>,
    outcomes: Seq<Result<T>>,
    r: Result<T>,
)
    requires
        outcomes.len() == tickets.len(),
        forall|i: int, x: Result<T>|
            0 <= i < tickets.len() && #[trigger] call_ensures(fetch, (&tickets[i],), x) ==> x == outcomes[i],
        tickets.len() == 0 ==> (r matches Err(SyncwebError::InvalidConfig(m)) && m@ == "link has no provider tickets"@),
        r is Ok ==> exists|errs: Seq<SyncwebError>| #[trigger] fetches_failed(fetch, tickets, errs) && errs.len()
            < tickets.len() && call_ensures(fetch, (&tickets[errs.len() as int],), r),
        tickets.len() > 0 && r is Err ==> exists|errs: Seq<SyncwebError>| #[trigger] fetches_failed(fetch, tickets, errs)
            && errs.len() == tickets.len() && (r matches Err(SyncwebError::InvalidConfig(m)) && m@
            == "all mirror providers failed: "@ + join_failures(error_texts(errs))),
    ensures
        tickets.len() == 0 ==> (r matches Err(SyncwebError::InvalidConfig(m)) && m@ == "link has no provider tickets"@),
        r is Ok <==> exists|k: int| 0 <= k < outcomes.len() && #[trigger] outcomes[k] is Ok,
        r is Ok ==> exists|k: int|
            0 <= k < outcomes.len() && r == #[trigger] outcomes[k] && forall|j: int| 0 <= j < k ==> outcomes[j] is Err,
        tickets.len() > 0 && r is Err ==> (r matches Err(SyncwebError::InvalidConfig(m)) && m@
            == "all mirror providers failed: "@ + join_failures(error_texts(outcome_errors(outcomes)))),
{
    if r is Ok {
        let errs = choose|errs: Seq<SyncwebError>| #[trigger] fetches_failed(fetch, tickets, errs) && errs.len()
            < tickets.len() && call_ensures(fetch, (&tickets[errs.len() as int],), r);
        let k = errs.len() as int;
        assert(r == outcomes[k]);
        assert forall|j: int| 0 <= j < k implies outcomes[j] is Err by {
            assert(call_ensures(fetch, (&tickets[j],), Err::<T, SyncwebError>(errs[j])));
        }
        assert(outcomes[k] is Ok);
    } else if tickets.len() > 0 {
        let errs = choose|errs: Seq<SyncwebError>| #[trigger] fetches_failed(fetch, tickets, errs) && errs.len()
            == tickets.len() && (r matches Err(SyncwebError::InvalidConfig(m)) && m@ == "all mirror providers failed: "@
            + join_failures(error_texts(errs)));
        assert forall|j: int| 0 <= j < outcomes.len() implies outcomes[j] == Err::<T, SyncwebError>(errs[j]) by {
            assert(call_ensures(fetch, (&tickets[j],), Err::<T, SyncwebError>(errs[j])));
        }
        assert(outcome_errors(outcomes) =~= errs);
        assert forall|k: int| 0 <= k < outcomes.len() implies !(#[trigger] outcomes[k] is Ok) by {
            assert(outcomes[k] == Err::<T, SyncwebError>(errs[k]));
        }
    }
}

} // verus!
