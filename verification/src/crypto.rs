//! Digests, signatures and hex text, taken from the `blake3`,
//! `ed25519-dalek` and `hex` crates.
use vstd::prelude::*;

use ed25519_dalek::{Signer, Verifier};

verus! {

/// The BLAKE3 digest of `data` (32 bytes).
pub uninterp spec fn blake3_digest(data: Seq<u8>) -> Seq<u8>;

/// The Ed25519 public key of a 32-byte secret key.
pub uninterp spec fn ed25519_public_of(secret: Seq<u8>) -> Seq<u8>;

/// The Ed25519 signature of `msg` under a 32-byte secret key.
pub uninterp spec fn ed25519_signature_of(secret: Seq<u8>, msg: Seq<u8>) -> Seq<u8>;

/// Whether 32 bytes encode a usable Ed25519 public key.
pub uninterp spec fn ed25519_key_valid(public: Seq<u8>) -> bool;

/// Whether `sig` is an Ed25519 signature of `msg` under `public`.
pub uninterp spec fn ed25519_accepts(public: Seq<u8>, msg: Seq<u8>, sig: Seq<u8>) -> bool;

/// `blake3::hash`: the BLAKE3 digest of a byte string.
///
/// The contract names the digest and says nothing more of it.
#[verifier::external_body]
pub fn blake3_hash(data: &[u8]) -> (r: [u8; 32])
    ensures
        r@ == blake3_digest(data@),
{
    *blake3::hash(data).as_bytes()
}

/// `blake3::Hasher`, an incremental BLAKE3 hash state.
#[verifier::external_type_specification]
#[verifier::external_body]
pub struct ExBlake3Hasher(blake3::Hasher);

/// The bytes a BLAKE3 hasher has been fed, in order.
pub uninterp spec fn hasher_input(h: blake3::Hasher) -> Seq<u8>;

/// `blake3::Hasher::new`: a hasher fed nothing yet.
#[verifier::external_body]
pub fn blake3_hasher_new() -> (h: blake3::Hasher)
    ensures
        hasher_input(h) == Seq::<u8>::empty(),
{
    blake3::Hasher::new()
}

/// `blake3::Hasher::update`: feeds `data` after what the hasher was fed.
#[verifier::external_body]
pub fn blake3_hasher_update(h: &mut blake3::Hasher, data: &[u8])
    ensures
        hasher_input(*final(h)) == hasher_input(*old(h)) + data@,
{
    h.update(data);
}

/// `blake3::Hasher::finalize`: the BLAKE3 digest of everything the hasher
/// was fed, the same as `blake3::hash` of those bytes.
#[verifier::external_body]
pub fn blake3_hasher_finalize(h: &blake3::Hasher) -> (d: [u8; 32])
    ensures
        d@ == blake3_digest(hasher_input(*h)),
{
    *h.finalize().as_bytes()
}

/// `ed25519_dalek::SigningKey::verifying_key` of the key made from 32
/// secret bytes: the public key, named; being the encoding of a curve point
/// the crate made, it is a usable public key.
#[verifier::external_body]
pub fn ed25519_public_key(secret: &[u8; 32]) -> (r: [u8; 32])
    ensures
        r@ == ed25519_public_of(secret@),
        ed25519_key_valid(r@),
{
    ed25519_dalek::SigningKey::from_bytes(secret).verifying_key().to_bytes()
}

/// `ed25519_dalek::Signer::sign` with the key made from 32 secret bytes.
///
/// Ed25519 signing is deterministic, so the signature is named; the
/// contract also states the scheme's correctness: the public key of the
/// secret accepts the signature it made.
#[verifier::external_body]
pub fn ed25519_sign(secret: &[u8; 32], msg: &[u8]) -> (r: [u8; 64])
    ensures
        r@ == ed25519_signature_of(secret@, msg@),
        ed25519_accepts(ed25519_public_of(secret@), msg@, r@),
{
    ed25519_dalek::SigningKey::from_bytes(secret).sign(msg).to_bytes()
}

/// `ed25519_dalek::VerifyingKey::from_bytes` succeeds on these bytes.
#[verifier::external_body]
pub fn ed25519_key_is_valid(public: &[u8; 32]) -> (b: bool)
    ensures
        b == ed25519_key_valid(public@),
{
    ed25519_dalek::VerifyingKey::from_bytes(public).is_ok()
}

/// `ed25519_dalek::Verifier::verify` of `sig` over `msg` under a valid key.
#[verifier::external_body]
pub fn ed25519_verify(public: &[u8; 32], msg: &[u8], sig: &[u8; 64]) -> (b: bool)
    requires
        ed25519_key_valid(public@),
    ensures
        b == ed25519_accepts(public@, msg@, sig@),
{
    match ed25519_dalek::VerifyingKey::from_bytes(public) {
        Ok(key) => key.verify(msg, &ed25519_dalek::Signature::from_bytes(sig)).is_ok(),
        Err(_) => false,
    }
}

/// The lower-case hex digit of a value below sixteen.
pub open spec fn hex_digit(n: u8) -> char {
    if n < 10 {
        ((48 + n) as u8) as char
    } else {
        ((87 + n) as u8) as char
    }
}

/// Lower-case hex text of bytes, two digits per byte.
pub open spec fn hex_text(b: Seq<u8>) -> Seq<char>
    decreases b.len(),
{
    if b.len() == 0 {
        seq![]
    } else {
        hex_text(b.drop_last()) + seq![hex_digit(b.last() / 16), hex_digit(b.last() % 16)]
    }
}

/// The value of a hex digit of either case.
pub open spec fn hex_value(c: char) -> Option<u8> {
    if '0' <= c && c <= '9' {
        Some(((c as u32) - 48) as u8)
    } else if 'a' <= c && c <= 'f' {
        Some(((c as u32) - 87) as u8)
    } else if 'A' <= c && c <= 'F' {
        Some(((c as u32) - 55) as u8)
    } else {
        None
    }
}

/// The bytes that hex text denotes; `None` for an odd length or a
/// character that is not a hex digit.
pub open spec fn hex_bytes(s: Seq<char>) -> Option<Seq<u8>>
    decreases s.len(),
{
    if s.len() % 2 == 1 {
        None
    } else if s.len() == 0 {
        Some(seq![])
    } else {
        match (
            hex_bytes(s.subrange(0, s.len() - 2)),
            hex_value(s[s.len() - 2]),
            hex_value(s[s.len() - 1]),
        ) {
            (Some(p), Some(h), Some(l)) => Some(p.push((h * 16 + l) as u8)),
            _ => None,
        }
    }
}

/// `hex::encode`: lower-case hex text of the bytes.
#[verifier::external_body]
pub fn hex_encode(b: &[u8]) -> (s: String)
    ensures
        s@ == hex_text(b@),
{
    hex::encode(b)
}

/// `hex::decode`: the bytes hex text denotes, or the text of the crate's
/// error where it reports one. What that text says is not stated.
#[verifier::external_body]
pub fn hex_decode(s: &str) -> (r: core::result::Result<Vec<u8>, String>)
    ensures
        match r {
            Ok(v) => hex_bytes(s@) == Some(v@),
            Err(_) => hex_bytes(s@) is None,
        },
{
    hex::decode(s).map_err(|error| error.to_string())
}

} // verus!
