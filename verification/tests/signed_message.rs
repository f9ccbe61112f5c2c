use ed25519_dalek::SigningKey;
use syncweb_core::signed_message::SignedMessage;

const HEADER_LEN: usize = 96;

fn seed_for(count: u64) -> [u8; 32] {
    let mut seed = [0_u8; 32];
    seed[..8].copy_from_slice(&count.to_le_bytes());
    seed
}

fn verifying_key_bytes(seed: &[u8; 32]) -> [u8; 32] {
    SigningKey::from_bytes(seed).verifying_key().to_bytes()
}

#[test]
fn test_sign_and_verify_roundtrip() {
    let secret = seed_for(1);
    let content = b"hello gossip";
    let wire = SignedMessage::sign(&secret, content);
    let (key, decoded) = SignedMessage::verify(&wire).unwrap();
    assert_eq!(decoded, content);
    assert_eq!(key, verifying_key_bytes(&secret));
}

#[test]
fn test_verify_rejects_tampered_content() {
    let wire = SignedMessage::sign(&seed_for(2), b"hello");
    let mut tampered = wire;
    *tampered.get_mut(HEADER_LEN).expect("tampered should be long enough to have HEADER_LEN") ^= 0xFF;
    assert!(SignedMessage::verify(&tampered).is_err());
}

#[test]
fn test_verify_rejects_tampered_signature() {
    let wire = SignedMessage::sign(&seed_for(3), b"hello");
    let mut tampered = wire;
    *tampered.get_mut(40).expect("tampered should be long enough to have byte at index 40") ^= 0xFF;
    assert!(SignedMessage::verify(&tampered).is_err());
}

#[test]
fn test_verify_rejects_short_message() {
    assert!(SignedMessage::verify(&[0_u8; 32]).is_err());
    assert!(SignedMessage::verify(&[0_u8; 95]).is_err());
}

#[test]
fn test_verify_rejects_empty_message() {
    assert!(SignedMessage::verify(&[]).is_err());
}

#[test]
fn test_node_id_derived_from_verifying_key() {
    let secret = seed_for(4);
    let wire = SignedMessage::sign(&secret, b"hello");
    let (key, _) = SignedMessage::verify(&wire).unwrap();
    let node_id = iroh_base::PublicKey::from_bytes(&key).unwrap();
    let expected = iroh_base::PublicKey::from_bytes(&verifying_key_bytes(&secret)).unwrap();
    assert_eq!(node_id, expected);
}

#[test]
fn test_verify_with_expected_success() {
    let secret = seed_for(5);
    let node_id = verifying_key_bytes(&secret);
    let wire = SignedMessage::sign(&secret, b"hello");
    let content = SignedMessage::verify_with_expected(&wire, &node_id).unwrap();
    assert_eq!(content, b"hello");
}

#[test]
fn test_verify_with_expected_rejects_wrong_key() {
    let alice = seed_for(6);
    let bob = seed_for(7);
    let bob_node_id = verifying_key_bytes(&bob);
    let wire = SignedMessage::sign(&alice, b"hello");
    assert!(SignedMessage::verify_with_expected(&wire, &bob_node_id).is_err());
}

#[test]
fn test_header_len_constant() {
    assert_eq!(SignedMessage::header_len(), 96);
}

#[test]
fn signed_wire_layout_is_key_signature_content() {
    let secret = seed_for(8);
    let wire = SignedMessage::sign(&secret, b"abc");
    assert_eq!(wire.len(), HEADER_LEN + 3);
    assert_eq!(&wire[..32], &verifying_key_bytes(&secret));
    assert_eq!(&wire[HEADER_LEN..], b"abc");
}
