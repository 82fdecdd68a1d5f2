use std::collections::HashMap;

use p2p3::network::peer_id::PeerId;
use p2p3::old_copy::msg_passer::MsgPasser;
use p2p3::old_copy::network_manager::{handle_new_peer, Network};

fn pid(n: u64) -> PeerId {
    PeerId::new(0, 0, 0, n)
}

#[test]
fn msg_passer_counts() {
    let mut nodes = HashMap::new();
    nodes.insert(0usize, pid(1));
    let mut mp = MsgPasser::new(pid(9), nodes);
    assert_eq!(mp.get_seq_num(), 0);
    assert_eq!(mp.next_seq_num(), 1);
    mp.inc_seq();
    assert_eq!(mp.get_seq_num(), 2);
    assert_eq!(mp.nodes.get(&0), Some(&pid(1)));
}

#[test]
fn msg_passer_handle_broadcast() {
    let mut mp = MsgPasser::new(pid(9), HashMap::new());
    assert!(mp.handle_broadcast(0));
    assert_eq!(mp.get_seq_num(), 1);
    assert!(!mp.handle_broadcast(0));
    assert_eq!(mp.get_seq_num(), 1);
    assert!(mp.handle_broadcast(5));
    assert_eq!(mp.get_seq_num(), 2);
}

#[test]
fn network_indices_and_peers() {
    let mut net = Network::new(pid(4));
    assert_eq!(net.my_id(), pid(4));
    assert_eq!(net.next_connection_info_index(), 0);
    assert_eq!(net.next_connection_info_index(), 1);
    assert_eq!(handle_new_peer(&mut net, pid(7)), 0);
    assert_eq!(handle_new_peer(&mut net, pid(8)), 1);
    assert_eq!(net.next_peer_index(), 2);
    assert_eq!(net.get_peer_id(1), Some(&pid(8)));
    assert_eq!(net.get_peer_id(5), None);
    assert_eq!(net.get_nodes().len(), 2);
    net.read_config(vec![]);
    assert!(net.config.is_empty());
}

#[test]
fn network_broadcast_forwarding() {
    let mut net = Network::new(pid(4));
    handle_new_peer(&mut net, pid(7));
    handle_new_peer(&mut net, pid(8));
    assert!(net.on_broadcast(pid(4), 10).is_none());
    let mut targets = net.on_broadcast(pid(7), 0).unwrap();
    targets.sort_by_key(|p| p.w3);
    assert_eq!(targets, vec![pid(7), pid(8)]);
    assert!(net.on_broadcast(pid(7), 0).is_none());
    assert!(net.handle_broadcast(1));
    net.inc_seq();
    assert!(!net.handle_broadcast(2));
}

#[test]
fn joined_peer_is_found_under_its_index() {
    let mut net = Network::new(pid(4));
    let i = handle_new_peer(&mut net, pid(11));
    assert_eq!(net.get_peer_id(i), Some(&pid(11)));
}

#[test]
fn broadcast_reaches_each_table_entry_once() {
    let mut net = Network::new(pid(4));
    handle_new_peer(&mut net, pid(7));
    handle_new_peer(&mut net, pid(7));
    handle_new_peer(&mut net, pid(8));
    let mut targets = net.on_broadcast(pid(8), 0).unwrap();
    targets.sort_by_key(|p| p.w3);
    assert_eq!(targets, vec![pid(7), pid(7), pid(8)]);
}
