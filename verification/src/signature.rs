//! Ed25519 signatures carried as lower-case hex, shared by the signed
//! payloads (member lists, name pointers, filter lists).
use vstd::prelude::*;

use crate::crypto::{
    ed25519_accepts, ed25519_key_is_valid, ed25519_key_valid, ed25519_public_key, ed25519_public_of,
    ed25519_sign, ed25519_signature_of, ed25519_verify, hex_bytes, hex_decode, hex_encode, hex_text,
};
use crate::error::{Result, SyncwebError};

verus! {

/// Hex text of the public key of a 32-byte secret key.
pub fn public_key_hex(secret: &[u8; 32]) -> (s: String)
    ensures
        s@ == hex_text(ed25519_public_of(secret@)),
        ed25519_key_valid(ed25519_public_of(secret@)),
        ed25519_public_of(secret@).len() == 32,
{
    let public = ed25519_public_key(secret);
    hex_encode(&public)
}

/// Hex text of the signature of `message` under a 32-byte secret key.
pub fn sign_hex(secret: &[u8; 32], message: &[u8]) -> (s: String)
    ensures
        s@ == hex_text(ed25519_signature_of(secret@, message@)),
        ed25519_accepts(ed25519_public_of(secret@), message@, ed25519_signature_of(secret@, message@)),
        ed25519_signature_of(secret@, message@).len() == 64,
{
    let sig = ed25519_sign(secret, message);
    hex_encode(&sig)
}

/// The 32-byte key that hex text denotes, when it is a usable key.
pub open spec fn decoded_key(text: Seq<char>) -> Option<Seq<u8>> {
    match hex_bytes(text) {
        Some(b) => if b.len() == 32 && ed25519_key_valid(b) {
            Some(b)
        } else {
            None
        },
        None => None,
    }
}

/// The 64-byte signature that hex text denotes.
pub open spec fn decoded_signature(text: Seq<char>) -> Option<Seq<u8>> {
    match hex_bytes(text) {
        Some(b) => if b.len() == 64 {
            Some(b)
        } else {
            None
        },
        None => None,
    }
}

/// A hex key accepts a hex signature over `message`.
pub open spec fn hex_signature_valid(key: Seq<char>, message: Seq<u8>, signature: Seq<char>) -> bool {
    &&& decoded_key(key) matches Some(k)
    &&& decoded_signature(signature) matches Some(s)
    &&& ed25519_accepts(k, message, s)
}

/// Decode a hex public key of 32 bytes that is a usable key.
pub fn decode_verifying_key(encoded: &str) -> (r: Result<[u8; 32]>)
    ensures
        r is Ok <==> decoded_key(encoded@) is Some,
        r is Ok ==> r->Ok_0@ == decoded_key(encoded@)->0,
        r is Err ==> r->Err_0 is InvalidSignature,
{
    let bytes = match hex_decode(encoded) {
        Ok(b) => b,
        Err(_) => return Err(SyncwebError::InvalidSignature("invalid public key hex".to_string())),
    };
    if bytes.len() != 32 {
        return Err(SyncwebError::InvalidSignature("public key must be 32 bytes".to_string()));
    }
    let mut key: [u8; 32] = [0u8; 32];
    let mut i: usize = 0;
    while i < 32
        invariant
            i <= 32,
            bytes@.len() == 32,
            forall|q: int| 0 <= q < i ==> key@[q] == bytes@[q],
        decreases 32 - i,
    {
        key[i] = bytes[i];
        i += 1;
    }
    assert(key@ =~= bytes@);
    if !ed25519_key_is_valid(&key) {
        return Err(SyncwebError::InvalidSignature("invalid public key".to_string()));
    }
    Ok(key)
}

/// Decode a hex signature of 64 bytes.
pub fn decode_signature(encoded: &str) -> (r: Result<[u8; 64]>)
    ensures
        r is Ok <==> decoded_signature(encoded@) is Some,
        r is Ok ==> r->Ok_0@ == decoded_signature(encoded@)->0,
        r is Err ==> r->Err_0 is InvalidSignature,
{
    let bytes = match hex_decode(encoded) {
        Ok(b) => b,
        Err(_) => return Err(SyncwebError::InvalidSignature("invalid signature hex".to_string())),
    };
    if bytes.len() != 64 {
        return Err(SyncwebError::InvalidSignature("invalid signature length".to_string()));
    }
    let mut sig: [u8; 64] = [0u8; 64];
    let mut i: usize = 0;
    while i < 64
        invariant
            i <= 64,
            bytes@.len() == 64,
            forall|q: int| 0 <= q < i ==> sig@[q] == bytes@[q],
        decreases 64 - i,
    {
        sig[i] = bytes[i];
        i += 1;
    }
    assert(sig@ =~= bytes@);
    Ok(sig)
}

/// Verify a hex signature over `message` against a hex public key.
pub fn verify_hex(public_key_hex: &str, message: &[u8], signature_hex: &str) -> (r: Result<()>)
    ensures
        r is Ok <==> hex_signature_valid(public_key_hex@, message@, signature_hex@),
        r is Err ==> r->Err_0 is InvalidSignature,
{
    let key = decode_verifying_key(public_key_hex)?;
    let sig = decode_signature(signature_hex)?;
    if !ed25519_verify(&key, message, &sig) {
        return Err(SyncwebError::InvalidSignature("signature verification failed".to_string()));
    }
    Ok(())
}

/// Hex text decodes back to the bytes it was made from.
pub proof fn lemma_hex_text_decodes(b: Seq<u8>)
    ensures
        hex_bytes(hex_text(b)) == Some(b),
{
    crate::resilience::lemma_hex_round_trip(b);
}

/// A signature made with a secret key verifies, in hex, against the hex of
/// that key's public key.
pub proof fn law_sign_hex_verifies(secret: Seq<u8>, message: Seq<u8>)
    requires
        ed25519_key_valid(ed25519_public_of(secret)),
        ed25519_public_of(secret).len() == 32,
        ed25519_signature_of(secret, message).len() == 64,
        ed25519_accepts(ed25519_public_of(secret), message, ed25519_signature_of(secret, message)),
    ensures
        hex_signature_valid(
            hex_text(ed25519_public_of(secret)),
            message,
            hex_text(ed25519_signature_of(secret, message)),
        ),
{
    crate::resilience::lemma_hex_round_trip(ed25519_public_of(secret));
    crate::resilience::lemma_hex_round_trip(ed25519_signature_of(secret, message));
}

} // verus!
