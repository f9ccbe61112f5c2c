//! Signed gossip envelopes: `[public key: 32][signature: 64][content]`.
use vstd::prelude::*;

use crate::crypto::{
    ed25519_accepts, ed25519_key_is_valid, ed25519_key_valid, ed25519_public_key, ed25519_public_of,
    ed25519_sign, ed25519_signature_of, ed25519_verify,
};
use crate::error::{Result, SyncwebError};
use crate::identity::{iroh_key_is_valid, iroh_key_valid};

verus! {

/// Length of the envelope header: a 32-byte key and a 64-byte signature.
pub const HEADER_LEN: usize = 96;

/// The envelope of `content` signed with a 32-byte secret key.
pub open spec fn envelope(secret: Seq<u8>, content: Seq<u8>) -> Seq<u8> {
    ed25519_public_of(secret) + ed25519_signature_of(secret, content) + content
}

/// What an envelope carries when it verifies: the signer's key and the
/// content.
pub open spec fn opened(wire: Seq<u8>) -> Option<(Seq<u8>, Seq<u8>)> {
    if wire.len() < 96 {
        None
    } else {
        let key = wire.subrange(0, 32);
        let sig = wire.subrange(32, 96);
        let content = wire.subrange(96, wire.len() as int);
        if ed25519_key_valid(key) && ed25519_accepts(key, content, sig) {
            Some((key, content))
        } else {
            None
        }
    }
}

/// Ed25519-signed gossip envelope that proves the sending node's identity.
#[derive(Clone, Copy, Debug)]
pub struct SignedMessage;

fn copy_into(dst: &mut Vec<u8>, src: &[u8])
    ensures
        final(dst)@ == old(dst)@ + src@,
{
    let ghost start = dst@;
    let mut i: usize = 0;
    while i < src.len()
        invariant
            i <= src.len(),
            dst@ == start + src@.subrange(0, i as int),
        decreases src.len() - i,
    {
        dst.push(src[i]);
        i += 1;
        assert(dst@ =~= start + src@.subrange(0, i as int));
    }
    assert(src@.subrange(0, src@.len() as int) =~= src@);
}

fn key_array(bytes: &[u8]) -> (k: [u8; 32])
    requires
        bytes@.len() >= 32,
    ensures
        k@ == bytes@.subrange(0, 32),
{
    let mut k: [u8; 32] = [0u8; 32];
    let mut i: usize = 0;
    while i < 32
        invariant
            i <= 32,
            bytes@.len() >= 32,
            forall|q: int| 0 <= q < i ==> k@[q] == bytes@[q],
        decreases 32 - i,
    {
        k[i] = bytes[i];
        i += 1;
    }
    assert(k@ =~= bytes@.subrange(0, 32));
    k
}

fn signature_array(bytes: &[u8]) -> (s: [u8; 64])
    requires
        bytes@.len() >= 96,
    ensures
        s@ == bytes@.subrange(32, 96),
{
    let mut s: [u8; 64] = [0u8; 64];
    let mut i: usize = 0;
    while i < 64
        invariant
            i <= 64,
            bytes@.len() >= 96,
            forall|q: int| 0 <= q < i ==> s@[q] == bytes@[32 + q],
        decreases 64 - i,
    {
        s[i] = bytes[32 + i];
        i += 1;
    }
    assert(s@ =~= bytes@.subrange(32, 96));
    s
}

impl SignedMessage {
    /// Sign `content` with a 32-byte secret key, giving the envelope.
    ///
    /// The envelope opens to the signer's public key and the content.
    pub fn sign(secret: &[u8; 32], content: &[u8]) -> (w: Vec<u8>)
        ensures
            w@ == envelope(secret@, content@),
            opened(w@) == Some((ed25519_public_of(secret@), content@)),
    {
        let public = ed25519_public_key(secret);
        let signature = ed25519_sign(secret, content);
        let mut wire: Vec<u8> = Vec::new();
        copy_into(&mut wire, &public);
        copy_into(&mut wire, &signature);
        copy_into(&mut wire, content);
        proof {
            let w = wire@;
            assert(w.subrange(0, 32) =~= public@);
            assert(w.subrange(32, 96) =~= signature@);
            assert(w.subrange(96, w.len() as int) =~= content@);
        }
        wire
    }

    /// Verify an envelope and hand back the signer's key and the content.
    pub fn verify(wire_bytes: &[u8]) -> (r: Result<([u8; 32], Vec<u8>)>)
        ensures
            r is Ok <==> opened(wire_bytes@) is Some,
            match r {
                Ok(p) => opened(wire_bytes@) == Some((p.0@, p.1@)),
                Err(_) => true,
            },
            r is Err ==> r->Err_0 is Operation,
    {
        if wire_bytes.len() < HEADER_LEN {
            return Err(SyncwebError::operation("signed message too short", "need at least 96 bytes"));
        }
        let key = key_array(wire_bytes);
        let signature = signature_array(wire_bytes);
        let content = crate::text::slice_bytes(wire_bytes, HEADER_LEN, wire_bytes.len());
        if !ed25519_key_is_valid(&key) {
            return Err(SyncwebError::operation("invalid Ed25519 verifying key", "key bytes are not a curve point"));
        }
        if !ed25519_verify(&key, &content, &signature) {
            return Err(SyncwebError::operation("gossip message signature verification failed", "signature does not match"));
        }
        Ok((key, content))
    }

    /// Verify an envelope and require it to come from `expected_node_id`.
    pub fn verify_with_expected(wire_bytes: &[u8], expected_node_id: &[u8; 32]) -> (r: Result<Vec<u8>>)
        ensures
            r is Ok <==> (opened(wire_bytes@) matches Some((k, c)) && iroh_key_valid(k) && k == expected_node_id@),
            match r {
                Ok(c) => opened(wire_bytes@) matches Some(p) && c@ == p.1,
                Err(_) => true,
            },
            r is Err ==> r->Err_0 is Operation,
    {
        let (key, content) = Self::verify(wire_bytes)?;
        if !iroh_key_is_valid(&key) {
            return Err(SyncwebError::operation("failed to derive NodeId from verifying key", "invalid key"));
        }
        if !crate::resilience::bytes_eq(&key, expected_node_id) {
            return Err(SyncwebError::operation("gossip message NodeId mismatch", "unexpected signer"));
        }
        Ok(content)
    }

    /// The length of the signing header in bytes.
    pub fn header_len() -> (n: usize)
        ensures
            n == 96,
    {
        HEADER_LEN
    }
}

} // verus!
