use syncweb_core::crypto::ed25519_public_key;
use syncweb_core::neighbor::NeighborMap;

const ONE_MINUTE_MS: u64 = 60_000;

fn test_key(id: u8) -> [u8; 32] {
    let mut seed = [0_u8; 32];
    seed[0] = id;
    ed25519_public_key(&seed)
}

#[test]
fn test_insert_and_list() {
    let mut map = NeighborMap::new_without_cleanup(ONE_MINUTE_MS);
    let id = test_key(1);

    map.touch(id, Some("alice"));
    assert_eq!(map.len(), 1);
    assert!(!map.is_empty());

    let peers = map.list();
    assert_eq!(peers.len(), 1);
    assert_eq!(peers.first().unwrap().name.as_deref(), Some("alice"));
}

#[test]
fn test_remove_explicit() {
    let mut map = NeighborMap::new_without_cleanup(ONE_MINUTE_MS);
    let id = test_key(1);
    map.touch(id, None);

    let info = map.remove(&id);
    assert!(info.is_some());
    assert!(map.is_empty());
}

#[test]
fn test_cleanup_preserves_fresh() {
    let mut map = NeighborMap::new_without_cleanup(ONE_MINUTE_MS);
    let alice = test_key(1);
    let bob = test_key(2);

    map.touch(alice, None);
    map.touch(bob, None);

    let removed = map.cleanup();
    assert_eq!(removed, 0);
    assert_eq!(map.len(), 2);
}

#[test]
fn test_mark_disconnected() {
    let mut map = NeighborMap::new_without_cleanup(ONE_MINUTE_MS);
    let id = test_key(1);

    map.touch(id, None);
    assert!(map.list_connected().len() == 1);

    map.mark_disconnected(&id);
    assert!(map.list_connected().is_empty());
    assert_eq!(map.len(), 1);
}

#[test]
fn test_empty_map() {
    let mut map = NeighborMap::new_without_cleanup(ONE_MINUTE_MS);
    assert!(map.list().is_empty());
    assert!(map.is_empty());
    assert_eq!(map.cleanup(), 0);
}

#[test]
fn test_multiple_peers() {
    let mut map = NeighborMap::new_without_cleanup(ONE_MINUTE_MS);
    let ids: Vec<[u8; 32]> = (0..5).map(test_key).collect();

    for id in &ids {
        map.touch(*id, None);
    }

    assert_eq!(map.len(), 5);
    assert_eq!(map.list().len(), 5);

    let _ = map.remove(ids.first().unwrap());
    assert_eq!(map.len(), 4);

    let _ = map.cleanup();
    assert_eq!(map.len(), 4);
}

#[test]
fn cleanup_at_removes_only_expired_peers() {
    let mut map = NeighborMap::new_without_cleanup(50);
    map.touch_at(test_key(1), None, 1_000);
    map.touch_at(test_key(2), Some("bob"), 1_080);
    assert_eq!(map.list_at(1_100).len(), 1);
    assert_eq!(map.cleanup_at(1_100), 1);
    assert_eq!(map.len(), 1);
    assert_eq!(map.list_at(1_100)[0].name.as_deref(), Some("bob"));
}

#[test]
fn touching_again_resets_the_timer_and_keeps_the_name() {
    let mut map = NeighborMap::new_without_cleanup(500);
    let id = test_key(1);
    map.touch_at(id, Some("alice"), 0);
    map.touch_at(id, None, 250);
    assert_eq!(map.cleanup_at(450), 0);
    assert_eq!(map.len(), 1);
    let peers = map.list_at(700);
    assert_eq!(peers.len(), 1);
    assert_eq!(peers[0].last_seen, 250);
    assert_eq!(peers[0].name.as_deref(), Some("alice"));
    assert_eq!(map.cleanup_at(751), 1);
}

#[test]
fn reconnecting_a_disconnected_peer() {
    let mut map = NeighborMap::new_without_cleanup(ONE_MINUTE_MS);
    let id = test_key(3);
    map.touch_at(id, None, 10);
    map.mark_disconnected(&id);
    assert!(map.list_connected_at(10).is_empty());
    assert_eq!(map.list_at(10).len(), 1);
    map.touch_at(id, None, 20);
    assert_eq!(map.list_connected_at(20).len(), 1);
    map.mark_disconnected(&test_key(4));
    assert_eq!(map.len(), 1);
}
