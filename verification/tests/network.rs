use syncweb_core::network::{MemberEntry, MemberRole};
use syncweb_core::crypto::ed25519_public_key;
use syncweb_core::docs::ProvisionKind;
use syncweb_core::error::SyncwebError;
use syncweb_core::network::{
    network_topic, parse_public_key, Network, NetworkEventType, NetworkId, NetworkOptions, SignedMemberList,
};
use syncweb_core::signature::public_key_hex;

#[test]
fn network_ids_hash_the_name_and_round_trip_as_hex() {
    let id = NetworkId::from_name("friends");
    let expected = blake3::hash(b"network:friends");
    assert_eq!(id.as_bytes(), expected.as_bytes());
    let text = id.to_string();
    assert_eq!(text, hex::encode(expected.as_bytes()));
    let back = NetworkId::from_str(&text).expect("own text parses");
    assert_eq!(back.as_bytes(), id.as_bytes());
    assert!(matches!(NetworkId::from_str("abcd"), Err(SyncwebError::InvalidConfig(_))));
    assert!(matches!(NetworkId::from_str("zz"), Err(SyncwebError::InvalidConfig(_))));
}

#[test]
fn network_topic_hashes_the_id_text() {
    let id = NetworkId::from_name("friends");
    let mut seed = b"syncweb/net/".to_vec();
    seed.extend_from_slice(id.to_string().as_bytes());
    assert_eq!(&network_topic(&id), blake3::hash(&seed).as_bytes());
}

#[test]
fn new_networks_start_with_their_owner() {
    let owner = ed25519_public_key(&[1_u8; 32]);
    let open = Network::new("  friends  ", owner, NetworkOptions::default().with_label("Friends"));
    assert_eq!(open.name, "friends");
    assert_eq!(open.label, "Friends");
    assert!(open.is_member(&owner));
    assert!(!open.is_member(&[2_u8; 32]));
    assert!(!open.is_invite_only());
    assert_eq!(open.id.as_bytes(), NetworkId::from_name("friends").as_bytes());
    let closed = Network::new("club", owner, NetworkOptions::default().invite_only(true));
    assert!(closed.is_invite_only());
    assert!(closed.shared_secret.is_some());
}

#[test]
fn node_ids_parse_as_iroh_keys() {
    let key = ed25519_public_key(&[3_u8; 32]);
    assert_eq!(parse_public_key(&hex::encode(key)).unwrap(), key);
    assert!(matches!(parse_public_key("not a key"), Err(SyncwebError::InvalidTicket(_))));
}

#[test]
fn member_lists_are_signed_by_their_owner() {
    let secret = [4_u8; 32];
    let owner = public_key_hex(&secret);
    let mut list = SignedMemberList::new("net", &owner);
    assert_eq!(list.sequence, 0);
    assert!(list.sign(&secret).is_ok());
    assert!(list.verify().is_ok());
    list.sequence = 7;
    assert!(matches!(list.verify(), Err(SyncwebError::InvalidSignature(_))));
    let mut foreign = SignedMemberList::new("net", &owner);
    assert!(matches!(foreign.sign(&[5_u8; 32]), Err(SyncwebError::InvalidSignature(_))));
}

#[test]
fn member_lists_sign_their_json_without_the_signature() {
    let mut list = SignedMemberList::new("n\"1", "ab");
    list.updated_at = 5;
    list.members = vec![
        MemberEntry { key: "k1".to_string(), joined_at: 3, role: MemberRole::Admin },
        MemberEntry { key: "k\n2".to_string(), joined_at: 4, role: MemberRole::Member },
    ];
    list.signature = "ignored".to_string();
    let text = String::from_utf8(list.unsigned_bytes()).unwrap();
    assert_eq!(
        text,
        "{\"network_id\":\"n\\\"1\",\"owner\":\"ab\",\"sequence\":0,\"members\":[{\"key\":\"k1\",\"joined_at\":3,\"role\":\"Admin\"},{\"key\":\"k\\n2\",\"joined_at\":4,\"role\":\"Member\"}],\"updated_at\":5,\"signature\":\"\"}"
    );
}

#[test]
fn event_names_are_snake_case() {
    assert_eq!(NetworkEventType::PeerJoined.as_str(), "peer_joined");
    assert_eq!(NetworkEventType::RelayFailed.as_str(), "relay_failed");
    assert_eq!(NetworkEventType::Kicked.as_str(), "kicked");
}

#[test]
fn provisioned_documents_use_system_keys() {
    assert_eq!(ProvisionKind::Folder.metadata_key(), b"sys/syncweb/mode");
    assert_eq!(ProvisionKind::Catalog.metadata_key(), b"sys/syncweb/catalog/metadata");
    assert_eq!(ProvisionKind::NetworkMembership.metadata_key(), b"sys/network/members");
}
