use p2p3::network::peer_id::PeerId;
use p2p3::network::{ConnOp, Event, Message, MessagePasser, MessagePasserT, MsgKind};

fn pid(n: u64) -> PeerId {
    PeerId::new(0, 0, 0, n)
}

fn msg(seq_num: u32, source: PeerId, text: &str, kind: MsgKind) -> Message {
    Message { seq_num, source, message: text.to_string(), kind }
}

fn same(a: &Message, b: &Message) -> bool {
    a.seq_num == b.seq_num && a.source == b.source && a.message == b.message && a.kind == b.kind
}

#[test]
fn new_node_is_empty() {
    let mut mp = MessagePasser::new(pid(5));
    assert_eq!(mp.get_id(), pid(5));
    assert_eq!(MessagePasserT::get_id(&mp), pid(5));
    assert!(mp.peers().is_empty());
    assert!(mp.connected_peers().is_empty());
    assert!(mp.try_recv_msg().unwrap().is_none());
    assert!(mp.get_their_infos().is_empty());
    let out = mp.take_outgoing();
    assert!(out.sent.is_empty() && out.forwarded.is_empty() && out.conn_ops.is_empty());
}

#[test]
fn normal_messages_are_queued_in_order() {
    let mut mp = MessagePasser::new(pid(5));
    assert!(mp.on_recv_msg(msg(1, pid(2), "first", MsgKind::Normal), vec![1]));
    assert!(mp.on_recv_msg(msg(1, pid(2), "second", MsgKind::Normal), vec![2]));
    let a = mp.try_recv_msg().unwrap().unwrap();
    let b = mp.try_recv_msg().unwrap().unwrap();
    assert_eq!(a.message, "first");
    assert_eq!(b.message, "second");
    assert!(mp.try_recv_msg().unwrap().is_none());
    // normal messages do not make the sender a known peer
    assert!(mp.peers().is_empty());
}

#[test]
fn broadcast_is_taken_once_and_passed_around_the_ring() {
    let mut mp = MessagePasser::new(pid(5));
    for p in [1u64, 3, 7, 9] {
        mp.handle_event(Event::NewPeer(pid(p)));
    }
    assert_eq!(mp.peers(), vec![pid(1), pid(3), pid(7), pid(9)]);
    let m = msg(1, pid(7), "hello", MsgKind::Broadcast);
    let bytes = vec![9u8, 8, 7];
    assert!(mp.on_recv_msg(m.clone(), bytes.clone()));
    let out = mp.take_outgoing();
    let targets: Vec<PeerId> = out.forwarded.iter().map(|(p, _)| *p).collect();
    // after 5: 7, 9; before 7: 1, 3
    assert_eq!(targets, vec![pid(7), pid(9), pid(1), pid(3)]);
    assert!(out.forwarded.iter().all(|(_, b)| *b == bytes));
    let got = mp.try_recv_msg().unwrap().unwrap();
    assert!(same(&got, &m));
    // the same message again is dropped
    assert!(!mp.on_recv_msg(m.clone(), bytes.clone()));
    assert!(mp.take_outgoing().forwarded.is_empty());
    assert!(mp.try_recv_msg().unwrap().is_none());
    // an older one too
    assert!(!mp.on_recv_msg(msg(0, pid(7), "old", MsgKind::Broadcast), vec![]));
    // a newer one is taken
    assert!(mp.on_recv_msg(msg(2, pid(7), "newer", MsgKind::Broadcast), vec![]));
}

#[test]
fn broadcast_from_self_is_dropped() {
    let mut mp = MessagePasser::new(pid(5));
    assert!(!mp.on_recv_msg(msg(3, pid(5), "mine", MsgKind::Broadcast), vec![]));
    assert!(mp.peers().is_empty());
    assert!(mp.try_recv_msg().unwrap().is_none());
}

#[test]
fn broadcast_numbered_zero_only_makes_the_source_known() {
    let mut mp = MessagePasser::new(pid(5));
    assert!(!mp.on_recv_msg(msg(0, pid(8), "zero", MsgKind::Broadcast), vec![]));
    assert_eq!(mp.peers(), vec![pid(8)]);
    assert!(mp.try_recv_msg().unwrap().is_none());
}

#[test]
fn broadcast_forwarding_when_source_is_below() {
    let mut mp = MessagePasser::new(pid(5));
    for p in [2u64, 6] {
        mp.handle_event(Event::NewPeer(pid(p)));
    }
    assert!(mp.on_recv_msg(msg(4, pid(3), "x", MsgKind::Broadcast), vec![1]));
    let targets: Vec<PeerId> =
        mp.take_outgoing().forwarded.iter().map(|(p, _)| *p).collect();
    // known peers are now 2, 3, 6: after 5 is 6; before 3 is 2
    assert_eq!(targets, vec![pid(6), pid(2)]);
}

#[test]
fn bootstrap_connect_sends_request_with_our_info() {
    let mut mp = MessagePasser::new(pid(5));
    mp.handle_event(Event::ConnectionInfoPrepared(0, Ok("ours".to_string())));
    assert!(mp.is_prepared(0));
    mp.handle_event(Event::BootstrapConnect(pid(2)));
    assert_eq!(mp.connected_peers(), vec![pid(2)]);
    assert_eq!(mp.peers(), vec![pid(2)]);
    let out = mp.take_outgoing();
    assert_eq!(out.sent.len(), 1);
    assert_eq!(out.sent[0].0, pid(2));
    assert!(same(&out.sent[0].1, &msg(1, pid(5), "ours", MsgKind::BootstrapRequest)));
}

#[test]
fn failed_preparation_changes_nothing() {
    let mut mp = MessagePasser::new(pid(5));
    mp.handle_event(Event::ConnectionInfoPrepared(3, Err("no".to_string())));
    assert!(!mp.is_prepared(3));
}

#[test]
fn bootstrap_request_spreads_news_of_newcomer() {
    let mut mp = MessagePasser::new(pid(5));
    mp.handle_event(Event::BootstrapAccept(pid(1)));
    mp.handle_event(Event::BootstrapAccept(pid(9)));
    let _ = mp.take_outgoing();
    assert!(mp.on_recv_msg(msg(1, pid(1), "info1", MsgKind::BootstrapRequest), vec![]));
    let out = mp.take_outgoing();
    let dests: Vec<PeerId> = out.sent.iter().map(|(p, _)| *p).collect();
    assert_eq!(dests, vec![pid(1), pid(9)]);
    for (_, m) in out.sent.iter() {
        assert!(same(m, &msg(1, pid(1), "info1", MsgKind::BootstrapNewPeer)));
    }
}

#[test]
fn new_peer_news_is_stored_answered_and_told_to_later_newcomers() {
    let mut mp = MessagePasser::new(pid(5));
    mp.handle_event(Event::ConnectionInfoPrepared(0, Ok("mine".to_string())));
    mp.handle_event(Event::BootstrapConnect(pid(4)));
    let _ = mp.take_outgoing();
    let news = msg(1, pid(8), "info8", MsgKind::BootstrapNewPeer);
    assert!(mp.needs_their_info(&news));
    assert!(mp.on_recv_msg(news.clone(), vec![]));
    assert!(!mp.needs_their_info(&news));
    let out = mp.take_outgoing();
    assert_eq!(out.sent.len(), 1);
    assert_eq!(out.sent[0].0, pid(4));
    assert!(same(&out.sent[0].1, &msg(2, pid(5), "mine", MsgKind::BootstrapResponse)));
    // the same news again is dropped
    assert!(!mp.on_recv_msg(news.clone(), vec![]));
    assert!(mp.take_outgoing().sent.is_empty());
    // news of another newcomer
    assert!(mp.on_recv_msg(msg(1, pid(3), "info3", MsgKind::BootstrapNewPeer), vec![]));
    assert_eq!(
        mp.get_their_infos(),
        vec![(pid(3), "info3".to_string()), (pid(8), "info8".to_string())]
    );
    let _ = mp.take_outgoing();
    // a newcomer joining through us hears of both, in order of identity
    mp.handle_event(Event::BootstrapAccept(pid(6)));
    let out = mp.take_outgoing();
    assert_eq!(out.sent.len(), 2);
    assert_eq!(out.sent[0].0, pid(6));
    assert!(same(&out.sent[0].1, &msg(4, pid(3), "info3", MsgKind::Bootstrap)));
    assert!(same(&out.sent[1].1, &msg(5, pid(8), "info8", MsgKind::Bootstrap)));
}

#[test]
fn bootstrap_connects_through_prepared_info_once() {
    let mut mp = MessagePasser::new(pid(5));
    mp.handle_event(Event::ConnectionInfoPrepared(0, Ok("mine".to_string())));
    let m = msg(1, pid(7), "theirs", MsgKind::Bootstrap);
    assert!(mp.needs_their_info(&m));
    assert!(mp.on_recv_msg(m.clone(), vec![]));
    let ops = mp.take_outgoing().conn_ops;
    assert_eq!(ops.len(), 2);
    assert!(matches!(ops[0], ConnOp::Prepare(0)));
    assert!(matches!(&ops[1], ConnOp::Connect(0, s) if s == "theirs"));
    assert!(!mp.is_prepared(0));
    // token 0 is used up: only new information is asked for
    assert!(mp.on_recv_msg(m, vec![]));
    let ops = mp.take_outgoing().conn_ops;
    assert_eq!(ops.len(), 1);
    assert!(matches!(ops[0], ConnOp::Prepare(1)));
}

#[test]
fn bootstrap_from_connected_peer_is_ignored() {
    let mut mp = MessagePasser::new(pid(5));
    mp.handle_event(Event::BootstrapAccept(pid(7)));
    let _ = mp.take_outgoing();
    assert!(mp.is_connected(&pid(7)));
    assert!(mp.on_recv_msg(msg(1, pid(7), "theirs", MsgKind::Bootstrap), vec![]));
    assert!(mp.take_outgoing().conn_ops.is_empty());
}

#[test]
fn bootstrap_response_is_passed_on_and_connects() {
    let mut mp = MessagePasser::new(pid(5));
    mp.handle_event(Event::BootstrapAccept(pid(1)));
    mp.handle_event(Event::ConnectionInfoPrepared(0, Ok("mine".to_string())));
    let _ = mp.take_outgoing();
    let r = msg(3, pid(8), "info8", MsgKind::BootstrapResponse);
    assert!(mp.needs_their_info(&r));
    assert!(mp.on_recv_msg(r.clone(), vec![]));
    let out = mp.take_outgoing();
    assert_eq!(out.sent.len(), 1);
    assert_eq!(out.sent[0].0, pid(1));
    assert!(same(&out.sent[0].1, &r));
    assert_eq!(out.conn_ops.len(), 2);
    assert!(matches!(&out.conn_ops[1], ConnOp::Connect(0, s) if s == "info8"));
    // again: dropped, nothing sent, no connection
    assert!(!mp.needs_their_info(&r));
    assert!(!mp.on_recv_msg(r, vec![]));
    let out = mp.take_outgoing();
    assert!(out.sent.is_empty() && out.conn_ops.is_empty());
    // our own response is dropped
    assert!(!mp.on_recv_msg(msg(9, pid(5), "x", MsgKind::BootstrapResponse), vec![]));
}

#[test]
fn lost_peer_is_forgotten() {
    let mut mp = MessagePasser::new(pid(5));
    mp.handle_event(Event::NewPeer(pid(2)));
    mp.handle_event(Event::NewPeer(pid(3)));
    mp.handle_event(Event::LostPeer(pid(2)));
    assert_eq!(mp.peers(), vec![pid(3)]);
    mp.handle_event(Event::BootstrapFinished);
    mp.handle_event(Event::Unhandled);
    assert_eq!(mp.peers(), vec![pid(3)]);
}

#[test]
fn new_message_event_takes_the_message() {
    let mut mp = MessagePasser::new(pid(5));
    mp.handle_event(Event::NewMessage(pid(2), msg(1, pid(2), "hi", MsgKind::Normal), vec![0]));
    assert_eq!(mp.try_recv_msg().unwrap().unwrap().message, "hi");
}

#[test]
fn connect_and_prepare_tokens() {
    let mut mp = MessagePasser::new(pid(5));
    assert_eq!(mp.prepare_connection_info(), 0);
    assert_eq!(mp.prepare_connection_info(), 1);
    assert!(!mp.connect(0, "x".to_string()));
    mp.handle_event(Event::ConnectionInfoPrepared(0, Ok("i".to_string())));
    assert!(mp.connect(0, "y".to_string()));
    let ops = mp.take_outgoing().conn_ops;
    assert_eq!(ops.len(), 5);
    assert!(matches!(ops[0], ConnOp::Prepare(0)));
    assert!(matches!(ops[1], ConnOp::Prepare(1)));
    assert!(matches!(ops[2], ConnOp::Prepare(2)));
    assert!(matches!(ops[3], ConnOp::Prepare(3)));
    assert!(matches!(&ops[4], ConnOp::Connect(0, s) if s == "y"));
}

#[test]
fn bootstrap_start_needs_a_known_peer() {
    let mut mp = MessagePasser::new(pid(5));
    mp.bootstrap_start("mine".to_string());
    assert!(mp.take_outgoing().sent.is_empty());
    mp.handle_event(Event::BootstrapConnect(pid(2)));
    let _ = mp.take_outgoing();
    mp.bootstrap_start("mine".to_string());
    let out = mp.take_outgoing();
    assert_eq!(out.sent.len(), 1);
    assert!(same(&out.sent[0].1, &msg(2, pid(5), "mine", MsgKind::Bootstrap)));
}

#[test]
fn counters_in_range() {
    let mp = MessagePasser::new(pid(5));
    assert!(mp.can_recv(&msg(1, pid(2), "", MsgKind::BootstrapRequest)));
    assert!(mp.can_handle(&Event::BootstrapAccept(pid(3))));
    assert!(!mp.needs_their_info(&msg(1, pid(2), "", MsgKind::Normal)));
}

#[test]
fn kind_names() {
    assert_eq!(MsgKind::Broadcast.name(), "Broadcast");
    assert_eq!(MsgKind::Normal.name(), "Normal");
    assert_eq!(MsgKind::Bootstrap.name(), "Bootstrap");
    assert_eq!(MsgKind::BootstrapRequest.name(), "BootstrapRequest");
    assert_eq!(MsgKind::BootstrapResponse.name(), "BootstrapResponse");
    assert_eq!(MsgKind::BootstrapNewPeer.name(), "BootstrapNewPeer");
}

#[test]
fn trait_broadcast_reaches_every_known_peer() {
    let mut mp = MessagePasser::new(pid(5));
    mp.handle_event(Event::NewPeer(pid(9)));
    mp.handle_event(Event::NewPeer(pid(1)));
    assert!(mp.broadcast("all".to_string()).is_ok());
    let out = mp.take_outgoing();
    let dests: Vec<PeerId> = out.sent.iter().map(|(p, _)| *p).collect();
    assert_eq!(dests, vec![pid(1), pid(9)]);
    for (_, m) in out.sent.iter() {
        assert!(same(m, &msg(1, pid(5), "all", MsgKind::Broadcast)));
    }
    assert!(mp.send(pid(1), "one".to_string()).is_ok());
    let out = mp.take_outgoing();
    assert_eq!(out.sent.len(), 1);
    assert!(same(&out.sent[0].1, &msg(2, pid(5), "one", MsgKind::Normal)));
    assert_eq!(mp.next_seq_num(), 3);
}

#[test]
fn trait_broadcast_bootstrap_reaches_connected_peers() {
    let mut mp = MessagePasser::new(pid(5));
    mp.handle_event(Event::BootstrapAccept(pid(4)));
    mp.handle_event(Event::NewPeer(pid(6)));
    let _ = mp.take_outgoing();
    let m = msg(7, pid(2), "x", MsgKind::BootstrapNewPeer);
    assert!(mp.broadcast_bootstrap(m.clone()).is_ok());
    let out = mp.take_outgoing();
    assert_eq!(out.sent.len(), 1);
    assert_eq!(out.sent[0].0, pid(4));
    assert!(same(&out.sent[0].1, &m));
    assert!(mp.send_msg(pid(6), m.clone()).is_ok());
    assert_eq!(mp.take_outgoing().sent.len(), 1);
}

#[test]
fn message_intake_keeps_connected_peers_and_infos() {
    let mut mp = MessagePasser::new(pid(5));
    mp.handle_event(Event::BootstrapAccept(pid(2)));
    assert!(mp.on_recv_msg(msg(1, pid(8), "info8", MsgKind::BootstrapNewPeer), vec![]));
    assert!(mp.on_recv_msg(msg(2, pid(8), "other", MsgKind::BootstrapNewPeer), vec![]));
    assert_eq!(mp.connected_peers(), vec![pid(2)]);
    assert_eq!(mp.get_their_infos(), vec![(pid(8), "info8".to_string())]);
    assert_eq!(mp.peers(), vec![pid(2), pid(8)]);
}

#[test]
fn connected_list_grows_by_joins_only() {
    let mut mp = MessagePasser::new(pid(5));
    mp.handle_event(Event::NewPeer(pid(3)));
    mp.handle_event(Event::LostPeer(pid(3)));
    assert!(mp.connected_peers().is_empty());
    mp.handle_event(Event::BootstrapConnect(pid(3)));
    mp.handle_event(Event::BootstrapAccept(pid(1)));
    assert_eq!(mp.connected_peers(), vec![pid(3), pid(1)]);
}
