use p2p3::network::peer_id::PeerId;
use p2p3::network::peer_map::PeerMap;

fn pid(n: u64) -> PeerId {
    PeerId::new(0, 0, 0, n)
}

#[test]
fn peer_ids_are_ordered_word_by_word() {
    let a = PeerId::new(1, 0, 0, 0);
    let b = PeerId::new(0, u64::MAX, u64::MAX, u64::MAX);
    assert!(b.lt(&a));
    assert!(!a.lt(&b));
    assert!(!a.lt(&a));
    assert!(PeerId::new(0, 0, 1, 0).lt(&PeerId::new(0, 0, 1, 1)));
    assert!(PeerId::new(0, 2, 0, 0).lt(&PeerId::new(0, 3, 0, 0)));
}

#[test]
fn peer_map_keeps_keys_in_order() {
    let mut m: PeerMap<u32> = PeerMap::new();
    m.insert(pid(7), 70);
    m.insert(pid(3), 30);
    m.insert(pid(9), 90);
    m.insert(pid(1), 10);
    assert_eq!(m.keys(), vec![pid(1), pid(3), pid(7), pid(9)]);
    assert_eq!(m.len(), 4);
    assert_eq!(m.get(&pid(7)), Some(&70));
    assert_eq!(m.get(&pid(8)), None);
}

#[test]
fn peer_map_insert_replaces_value() {
    let mut m: PeerMap<u32> = PeerMap::new();
    m.insert(pid(5), 1);
    m.insert(pid(5), 2);
    assert_eq!(m.len(), 1);
    assert_eq!(m.get(&pid(5)), Some(&2));
}

#[test]
fn peer_map_remove() {
    let mut m: PeerMap<&str> = PeerMap::new();
    m.insert(pid(2), "b");
    m.insert(pid(1), "a");
    m.insert(pid(3), "c");
    m.remove(&pid(2));
    assert_eq!(m.keys(), vec![pid(1), pid(3)]);
    assert!(!m.contains_key(&pid(2)));
    m.remove(&pid(42));
    assert_eq!(m.len(), 2);
    let entries: Vec<(PeerId, &str)> = m.entries().clone();
    assert_eq!(entries, vec![(pid(1), "a"), (pid(3), "c")]);
}
