use syncweb_core::crypto::ed25519_public_key;
use syncweb_core::error::SyncwebError;
use syncweb_core::identity::{luhn32, DeviceId};
use syncweb_core::relay::{
    check_frame_length, relay_address, JoinRelayRequest, JoinSessionRequest, RelayConfig, RelayMessage,
    SessionInvitation, TransportFallback, MAX_FRAME_SIZE,
};
use syncweb_core::signature::{decode_signature, decode_verifying_key, public_key_hex, sign_hex, verify_hex};

fn device(seed: u8) -> DeviceId {
    DeviceId::from_node_id(ed25519_public_key(&[seed; 32]))
}

#[test]
fn syncthing_device_ids_round_trip() {
    let id = device(7);
    let text = id.to_syncthing();
    assert_eq!(text.len(), 63);
    assert_eq!(text.matches('-').count(), 7);
    let parsed = DeviceId::from_syncthing(&text).expect("own text parses");
    assert_eq!(parsed.node_id(), id.node_id());
    let compact = text.replace('-', "").to_lowercase();
    assert_eq!(DeviceId::from_syncthing(&compact).expect("compact lower case parses").node_id(), id.node_id());
}

#[test]
fn syncthing_device_ids_reject_bad_checks_and_lengths() {
    let text = device(7).to_syncthing();
    let mut chars: Vec<char> = text.chars().collect();
    let i = 3;
    chars[i] = if chars[i] == 'A' { 'B' } else { 'A' };
    let tampered: String = chars.into_iter().collect();
    assert!(matches!(DeviceId::from_syncthing(&tampered), Err(SyncwebError::InvalidIdentity(_))));
    assert!(matches!(DeviceId::from_syncthing("ABC"), Err(SyncwebError::InvalidIdentity(_))));
}

#[test]
fn luhn_check_character_matches_syncthing() {
    // Weighting from the rightmost character, the folded products of
    // "MFZWI3DBONSGY" sum to 189, so the check value is 3 ('D').
    assert_eq!(luhn32(b"MFZWI3DBONSGY").unwrap(), b'D');
    assert_eq!(luhn32(b"A").unwrap(), b'A');
    assert!(matches!(luhn32(b"abc!"), Err(SyncwebError::InvalidIdentity(_))));
}

#[test]
fn relay_messages_encode_and_decode() {
    let d = device(3);
    let key = [9_u8; 32];
    let messages = vec![
        RelayMessage::JoinRelayRequest(JoinRelayRequest { device_id: d }),
        RelayMessage::SessionInvitation(SessionInvitation { session_key: key, server_socket: true }),
        RelayMessage::JoinSessionRequest(JoinSessionRequest { session_key: key, device_id: d }),
        RelayMessage::ResponseSuccess,
        RelayMessage::ResponseNotFound,
        RelayMessage::RelayFull,
    ];
    let expected_lengths = [33, 34, 65, 1, 1, 1];
    for (m, len) in messages.iter().zip(expected_lengths) {
        let bytes = m.encode();
        assert_eq!(bytes.len(), len);
        let decoded = RelayMessage::decode(&bytes).expect("encoded message decodes");
        assert_eq!(decoded.encode(), bytes);
    }
    assert_eq!(RelayMessage::ResponseSuccess.encode(), vec![4]);
    assert!(RelayMessage::decode(&[]).is_err());
    assert!(RelayMessage::decode(&[9]).is_err());
    assert!(RelayMessage::decode(&[4, 0]).is_err());
    let mut invitation = vec![2_u8];
    invitation.extend_from_slice(&[1; 32]);
    invitation.push(2);
    assert!(RelayMessage::decode(&invitation).is_err());
}

#[test]
fn relay_frames_and_addresses_are_checked() {
    assert!(check_frame_length(MAX_FRAME_SIZE).is_ok());
    assert!(matches!(check_frame_length(MAX_FRAME_SIZE + 1), Err(SyncwebError::InvalidConfig(_))));
    assert_eq!(relay_address("tcp://relay.example:22067").unwrap(), "relay.example:22067");
    assert!(relay_address("http://relay.example:22067").is_err());
    assert!(relay_address("tcp://relay.example").is_err());
    assert!(relay_address("tcp://relay.example:1/path").is_err());
    assert!(relay_address("tcp://").is_err());
}

#[test]
fn relay_fallback_follows_its_configuration() {
    let fallback = TransportFallback::default();
    assert!(fallback.check_enabled().is_ok());
    assert_eq!(fallback.config().timeout, 10);
    let off = TransportFallback::new(RelayConfig { relay_urls: Vec::new(), timeout: 5, auto_fallback: false });
    assert!(matches!(off.check_enabled(), Err(SyncwebError::InvalidConfig(_))));
}

#[test]
fn hex_signatures_verify_and_reject_tampering() {
    let secret = [5_u8; 32];
    let public = public_key_hex(&secret);
    assert_eq!(public, hex::encode(ed25519_public_key(&secret)));
    let sig = sign_hex(&secret, b"hello");
    assert_eq!(sig.len(), 128);
    assert!(verify_hex(&public, b"hello", &sig).is_ok());
    assert!(matches!(verify_hex(&public, b"hellp", &sig), Err(SyncwebError::InvalidSignature(_))));
    assert!(decode_verifying_key("zz").is_err());
    assert!(decode_signature(&sig[..64]).is_err());
    assert_eq!(decode_signature(&sig).unwrap().len(), 64);
}

#[test]
fn device_ids_hold_valid_keys() {
    let key = ed25519_public_key(&[5; 32]);
    assert_eq!(DeviceId::from_key_bytes(key).unwrap().node_id(), key);
}
