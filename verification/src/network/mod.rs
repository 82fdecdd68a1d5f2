//! The message passer of a node: message kinds, the state of a node, and
//! what it does with each message and each network event.

pub mod bootstrap_handler;

pub mod peer_id;
pub mod peer_map;
pub mod properties;

use std::collections::HashSet;
use vstd::prelude::*;

use self::peer_id::{peer_lt, PeerId};
use self::peer_map::{in_order, PeerMap};

verus! {

broadcast use vstd::std_specs::hash::group_hash_axioms;

/// What a message is for.
#[derive(Clone, Copy, Debug, PartialEq, Eq, Structural)]
pub enum MsgKind {
    /// A message for one peer.
    Normal,
    /// A message for every peer, passed on around the ring of peers.
    Broadcast,
    /// The connection information of a known peer, sent to a newcomer.
    Bootstrap,
    /// A newcomer's connection information, sent to the peer it joined.
    BootstrapRequest,
    /// A peer's answer to a newcomer, with its own connection information.
    BootstrapResponse,
    /// The news of a newcomer, passed on to the connected peers.
    BootstrapNewPeer,
}

/// The name of a kind, as it is shown to the user.
pub open spec fn kind_name(kind: MsgKind) -> &'static str {
    match kind {
        MsgKind::Broadcast => "Broadcast",
        MsgKind::Normal => "Normal",
        MsgKind::Bootstrap => "Bootstrap",
        MsgKind::BootstrapRequest => "BootstrapRequest",
        MsgKind::BootstrapResponse => "BootstrapResponse",
        MsgKind::BootstrapNewPeer => "BootstrapNewPeer",
    }
}

impl MsgKind {
    /// The name of the kind, as it is shown to the user.
    pub fn name(&self) -> (r: &'static str)
        ensures
            r == kind_name(*self),
    {
        match self {
            MsgKind::Broadcast => "Broadcast",
            MsgKind::Normal => "Normal",
            MsgKind::Bootstrap => "Bootstrap",
            MsgKind::BootstrapRequest => "BootstrapRequest",
            MsgKind::BootstrapResponse => "BootstrapResponse",
            MsgKind::BootstrapNewPeer => "BootstrapNewPeer",
        }
    }
}

/// A message between peers.
#[derive(Clone, Debug)]
pub struct Message {
    /// The sender's sequence number for this message.
    pub seq_num: u32,
    /// The peer the message comes from.
    pub source: PeerId,
    /// The text of the message.
    pub message: String,
    pub kind: MsgKind,
}

impl Message {
    /// A copy of the message.
    pub fn duplicate(&self) -> (r: Message)
        ensures
            r == *self,
    {
        Message {
            seq_num: self.seq_num,
            source: self.source,
            message: self.message.clone(),
            kind: self.kind,
        }
    }
}

/// The message sent to each peer that `broadcast` reaches.
pub open spec fn broadcast_message(source: PeerId, text: String, seq_num: u32) -> Message {
    Message { seq_num, source, message: text, kind: MsgKind::Broadcast }
}

/// The message that `send` hands over.
pub open spec fn normal_message(source: PeerId, text: String, seq_num: u32) -> Message {
    Message { seq_num, source, message: text, kind: MsgKind::Normal }
}

/// Each peer of `peers` paired with the message `m`.
pub open spec fn addressed(peers: Seq<PeerId>, m: Message) -> Seq<(PeerId, Message)> {
    peers.map_values(|p: PeerId| (p, m))
}

/// What a node sends and how it reads its own state: the operations that
/// `broadcast`, `broadcast_bootstrap` and `send` are built from.
///
/// The state is seen through a few views: the node's identity, its message
/// counter, the peers it knows (`peers`), the peers it is connected to
/// (`connected_peers`) and the messages it has handed over for sending.
pub trait MessagePasserT: Sized {
    /// The state is well formed.
    spec fn inv(&self) -> bool;

    /// The node's identity.
    spec fn id_view(&self) -> PeerId;

    /// The last sequence number the node has given out.
    spec fn seq_view(&self) -> u32;

    /// The peers the node knows, as `peers` lists them.
    spec fn peers_view(&self) -> Seq<PeerId>;

    /// The peers the node is connected to, as `connected_peers` lists them.
    spec fn connected_view(&self) -> Seq<PeerId>;

    /// The messages handed over for sending, oldest first, with their destinations.
    spec fn sent_view(&self) -> Seq<(PeerId, Message)>;

    /// `other` agrees with `self` on everything but the sequence counter and
    /// the messages handed over for sending.
    spec fn agrees_besides_sending(&self, other: &Self) -> bool;

    /// Agreement is reflexive and transitive, and keeps the other views.
    proof fn lemma_agrees(&self, b: &Self, c: &Self)
        ensures
            self.agrees_besides_sending(self),
            self.agrees_besides_sending(b) && b.agrees_besides_sending(c)
                ==> self.agrees_besides_sending(c),
            self.agrees_besides_sending(b) ==> {
                &&& self.inv() == b.inv()
                &&& self.id_view() == b.id_view()
                &&& self.peers_view() == b.peers_view()
                &&& self.connected_view() == b.connected_view()
            },
    ;

    /// Hands `msg` over for sending to `dst`.
    fn send_msg(&mut self, dst: PeerId, msg: Message) -> (r: Result<(), String>)
        requires
            old(self).inv(),
        ensures
            r is Ok,
            final(self).sent_view() == old(self).sent_view().push((dst, msg)),
            final(self).seq_view() == old(self).seq_view(),
            old(self).agrees_besides_sending(final(self)),
    ;

    /// Takes the oldest received message, if there is one.
    fn try_recv_msg(&mut self) -> (r: Result<Option<Message>, String>)
        requires
            old(self).inv(),
        ensures
            final(self).inv(),
    ;

    /// Gives out the next sequence number.
    fn next_seq_num(&mut self) -> (r: u32)
        requires
            old(self).inv(),
            old(self).seq_view() < u32::MAX,
        ensures
            r == old(self).seq_view() + 1,
            final(self).seq_view() == r,
            final(self).sent_view() == old(self).sent_view(),
            old(self).agrees_besides_sending(final(self)),
    ;

    /// The node's identity.
    fn get_id(&self) -> (r: PeerId)
        ensures
            r == self.id_view(),
    ;

    /// The peers the node knows.
    fn peers(&self) -> (r: Vec<PeerId>)
        requires
            self.inv(),
        ensures
            r@ == self.peers_view(),
    ;

    /// The peers the node is connected to.
    fn connected_peers(&self) -> (r: Vec<PeerId>)
        ensures
            r@ == self.connected_view(),
    ;

    /// Sends the text `msg` to every known peer, under one new sequence number.
    fn broadcast(&mut self, msg: String) -> (r: Result<(), String>)
        requires
            old(self).inv(),
            old(self).seq_view() < u32::MAX,
        ensures
            r is Ok,
            final(self).seq_view() == old(self).seq_view() + 1,
            final(self).sent_view() == old(self).sent_view() + addressed(
                old(self).peers_view(),
                broadcast_message(old(self).id_view(), msg, (old(self).seq_view() + 1) as u32),
            ),
            old(self).agrees_besides_sending(final(self)),
    {
        let msg = Message {
            source: self.get_id(),
            message: msg,
            kind: MsgKind::Broadcast,
            seq_num: self.next_seq_num(),
        };
        let ghost mid = *self;
        proof {
            old(self).lemma_agrees(&mid, &mid);
        }
        let peers = self.peers();
        let n = peers.len();
        let mut i: usize = 0;
        while i < n
            invariant
                n == peers@.len(),
                i <= n,
                peers@ == old(self).peers_view(),
                msg == broadcast_message(old(self).id_view(), msg.message, (old(self).seq_view() + 1) as u32),
                self.inv(),
                self.seq_view() == old(self).seq_view() + 1,
                self.sent_view() == old(self).sent_view() + addressed(peers@.take(i as int), msg),
                old(self).agrees_besides_sending(self),
            decreases n - i,
        {
            let ghost before = *self;
            let _ = self.send_msg(peers[i], msg.duplicate());
            proof {
                old(self).lemma_agrees(&before, self);
                before.lemma_agrees(self, self);
                assert(peers@.take(i + 1) =~= peers@.take(i as int).push(peers@[i as int]));
                assert(addressed(peers@.take(i + 1), msg) =~= addressed(peers@.take(i as int), msg).push(
                    (peers@[i as int], msg),
                ));
            }
            i += 1;
        }
        assert(peers@.take(n as int) =~= peers@);
        Ok(())
    }

    /// Sends `broadcast_message` to every connected peer.
    fn broadcast_bootstrap(&mut self, broadcast_message: Message) -> (r: Result<(), String>)
        requires
            old(self).inv(),
        ensures
            r is Ok,
            final(self).seq_view() == old(self).seq_view(),
            final(self).sent_view() == old(self).sent_view() + addressed(
                old(self).connected_view(),
                broadcast_message,
            ),
            old(self).agrees_besides_sending(final(self)),
    {
        let nodes = self.connected_peers();
        proof {
            old(self).lemma_agrees(self, self);
        }
        let n = nodes.len();
        let mut i: usize = 0;
        while i < n
            invariant
                n == nodes@.len(),
                i <= n,
                nodes@ == old(self).connected_view(),
                self.inv(),
                self.seq_view() == old(self).seq_view(),
                self.sent_view() == old(self).sent_view() + addressed(
                    nodes@.take(i as int),
                    broadcast_message,
                ),
                old(self).agrees_besides_sending(self),
            decreases n - i,
        {
            let ghost before = *self;
            let _ = self.send_msg(nodes[i], broadcast_message.duplicate());
            proof {
                old(self).lemma_agrees(&before, self);
                before.lemma_agrees(self, self);
                assert(nodes@.take(i + 1) =~= nodes@.take(i as int).push(nodes@[i as int]));
                assert(addressed(nodes@.take(i + 1), broadcast_message) =~= addressed(
                    nodes@.take(i as int),
                    broadcast_message,
                ).push((nodes@[i as int], broadcast_message)));
            }
            i += 1;
        }
        assert(nodes@.take(n as int) =~= nodes@);
        Ok(())
    }

    /// Sends the text `msg` to `dst`, under a new sequence number.
    fn send(&mut self, dst: PeerId, msg: String) -> (r: Result<(), String>)
        requires
            old(self).inv(),
            old(self).seq_view() < u32::MAX,
        ensures
            r is Ok,
            final(self).seq_view() == old(self).seq_view() + 1,
            final(self).sent_view() == old(self).sent_view().push(
                (dst, normal_message(old(self).id_view(), msg, (old(self).seq_view() + 1) as u32)),
            ),
            old(self).agrees_besides_sending(final(self)),
    {
        let msg = Message {
            source: self.get_id(),
            message: msg,
            kind: MsgKind::Normal,
            seq_num: self.next_seq_num(),
        };
        let ghost mid = *self;
        proof {
            old(self).lemma_agrees(&mid, &mid);
        }
        let _ = self.send_msg(dst, msg);
        proof {
            old(self).lemma_agrees(&mid, self);
        }
        Ok(())
    }
}

/// Something the node asks of its connection service.
#[derive(Clone, Debug)]
pub enum ConnOp {
    /// Prepare connection information under this token.
    Prepare(u32),
    /// Connect with the connection information prepared under the token to
    /// the peer whose connection information is the given JSON text.
    Connect(u32, String),
}

/// A network event, in the terms of the library.
pub enum Event {
    /// A message arrived from a peer: the peer, the decoded message and its bytes.
    NewMessage(PeerId, Message, Vec<u8>),
    /// Connection information was prepared under the token: the JSON text of
    /// what the other side needs to connect to us, or the reason it failed.
    ConnectionInfoPrepared(u32, Result<String, String>),
    /// We joined the network through this peer.
    BootstrapConnect(PeerId),
    /// This peer joined the network through us.
    BootstrapAccept(PeerId),
    /// Joining the network is over.
    BootstrapFinished,
    /// A connection to this peer was made.
    NewPeer(PeerId),
    /// The connection to this peer was lost.
    LostPeer(PeerId),
    /// Any other event.
    Unhandled,
}

/// What a node hands over to its transport: messages to send, received
/// bytes to pass on, and requests to its connection service.
pub struct Outgoing {
    pub sent: Vec<(PeerId, Message)>,
    pub forwarded: Vec<(PeerId, Vec<u8>)>,
    pub conn_ops: Vec<ConnOp>,
}

/// The state of a node, as the contracts speak of it.
pub struct PasserView {
    /// The node's identity.
    pub id: PeerId,
    /// The last sequence number the node gave out.
    pub seq: u32,
    /// The next token for connection information.
    pub token: u32,
    /// For each known peer, the last sequence number taken from it.
    pub peer_seqs: Map<PeerId, u32>,
    /// The JSON connection information of the peers that joined the network,
    /// as the text of their `BootstrapNewPeer` message. The transport hands
    /// that text over in the canonical form of the JSON encoder (it decodes
    /// the information and encodes it again), so it is the text that
    /// encoding the information gives.
    pub their_infos: Map<PeerId, String>,
    /// The tokens under which connection information is ready.
    pub prepared: Set<u32>,
    /// The JSON text of our own connection information.
    pub my_info: String,
    /// The peers we are connected to, in the order they came.
    pub nodes: Seq<PeerId>,
    /// Received messages for the user, oldest first.
    pub queue: Seq<Message>,
    /// Messages handed over for sending.
    pub sent: Seq<(PeerId, Message)>,
    /// Received bytes handed over to be passed on.
    pub forwarded: Seq<(PeerId, Seq<u8>)>,
    /// Requests handed over to the connection service.
    pub conn_ops: Seq<ConnOp>,
}

/// The identities after `id`.
pub open spec fn after(id: PeerId) -> spec_fn(PeerId) -> bool {
    |k: PeerId| peer_lt(id, k)
}

/// The identities before `id`.
pub open spec fn before(id: PeerId) -> spec_fn(PeerId) -> bool {
    |k: PeerId| peer_lt(k, id)
}

/// The peers a broadcast from `source` is passed on to by `me`: the known
/// peers after `me`, then the known peers before `source`, each part in
/// increasing order.
pub open spec fn forward_targets(keys: Seq<PeerId>, me: PeerId, source: PeerId) -> Seq<PeerId> {
    keys.filter(after(me)) + keys.filter(before(source))
}

/// Each target paired with `bytes`.
pub open spec fn bytes_to(targets: Seq<PeerId>, bytes: Seq<u8>) -> Seq<(PeerId, Seq<u8>)> {
    targets.map_values(|p: PeerId| (p, bytes))
}

/// The `Bootstrap` messages that tell `to` the connection information of
/// each peer in `infos`, in increasing order of identity, numbered from
/// `seq + 1` on. Each carries the information's JSON text as it is held,
/// which is its canonical encoding (see `PasserView::their_infos`).
pub open spec fn bootstrap_infos(to: PeerId, infos: Map<PeerId, String>, seq: u32) -> Seq<
    (PeerId, Message),
> {
    let ids = in_order(infos.dom());
    Seq::new(
        ids.len(),
        |i: int|
            (
                to,
                Message {
                    seq_num: (seq + 1 + i) as u32,
                    source: ids[i],
                    message: infos[ids[i]],
                    kind: MsgKind::Bootstrap,
                },
            ),
    )
}

impl PasserView {
    /// The state apart from the sequence counter and the messages handed
    /// over for sending.
    pub open spec fn besides_sending(self) -> PasserView {
        PasserView { seq: 0, sent: Seq::empty(), ..self }
    }

    /// The known peers, in increasing order.
    pub open spec fn peer_order(self) -> Seq<PeerId> {
        in_order(self.peer_seqs.dom())
    }

    /// The last sequence number taken from `source`; 0 for an unknown peer.
    pub open spec fn last_seq(self, source: PeerId) -> u32 {
        if self.peer_seqs.contains_key(source) {
            self.peer_seqs[source]
        } else {
            0
        }
    }

    /// A message numbered `seq_num` from `source` has not been taken yet.
    pub open spec fn is_fresh(self, source: PeerId, seq_num: u32) -> bool {
        self.last_seq(source) < seq_num
    }

    /// Notes that a message numbered `seq_num` came from `source`: the peer
    /// becomes known, and its number is raised to `seq_num` where lower.
    pub open spec fn record(self, source: PeerId, seq_num: u32) -> PasserView {
        PasserView {
            peer_seqs: self.peer_seqs.insert(
                source,
                if self.is_fresh(source, seq_num) {
                    seq_num
                } else {
                    self.last_seq(source)
                },
            ),
            ..self
        }
    }

    /// Hands `m` over for sending to each connected peer.
    pub open spec fn send_to_connected(self, m: Message) -> PasserView {
        PasserView { sent: self.sent + addressed(self.nodes, m), ..self }
    }

    /// Gives out a sequence number.
    pub open spec fn bump_seq(self) -> PasserView {
        PasserView { seq: (self.seq + 1) as u32, ..self }
    }

    /// Prepares connection information under a new token, then connects to
    /// the peer with `their_info` through what was prepared under `i`, if
    /// that is ready.
    pub open spec fn connect(self, i: u32, their_info: String) -> PasserView {
        let ops = self.conn_ops.push(ConnOp::Prepare(self.token));
        PasserView {
            token: (self.token + 1) as u32,
            prepared: self.prepared.remove(i),
            conn_ops: if self.prepared.contains(i) {
                ops.push(ConnOp::Connect(i, their_info))
            } else {
                ops
            },
            ..self
        }
    }

    /// Connects to `source` through token 0 unless it is connected already.
    pub open spec fn connect_unless_connected(self, source: PeerId, their_info: String) -> PasserView {
        if self.nodes.contains(source) {
            self
        } else {
            self.connect(0, their_info)
        }
    }

    /// The state after taking in `msg`, whose bytes are `bytes`, and whether
    /// the message was taken (not dropped as our own or as one seen before).
    pub open spec fn recv(self, msg: Message, bytes: Seq<u8>) -> (PasserView, bool) {
        let src = msg.source;
        match msg.kind {
            MsgKind::Normal => (PasserView { queue: self.queue.push(msg), ..self }, true),
            MsgKind::Broadcast => {
                if src == self.id {
                    (self, false)
                } else if !self.is_fresh(src, msg.seq_num) {
                    (self.record(src, msg.seq_num), false)
                } else {
                    let r = self.record(src, msg.seq_num);
                    (
                        PasserView {
                            queue: r.queue.push(msg),
                            forwarded: r.forwarded + bytes_to(
                                forward_targets(r.peer_order(), self.id, src),
                                bytes,
                            ),
                            ..r
                        },
                        true,
                    )
                }
            },
            MsgKind::BootstrapRequest => {
                let m = Message {
                    seq_num: (self.seq + 1) as u32,
                    source: src,
                    message: msg.message,
                    kind: MsgKind::BootstrapNewPeer,
                };
                (self.bump_seq().send_to_connected(m), true)
            },
            MsgKind::BootstrapResponse => {
                if src == self.id {
                    (self, false)
                } else if !self.is_fresh(src, msg.seq_num) {
                    (self.record(src, msg.seq_num), false)
                } else {
                    (
                        self.record(src, msg.seq_num).send_to_connected(msg).connect_unless_connected(
                            src,
                            msg.message,
                        ),
                        true,
                    )
                }
            },
            MsgKind::BootstrapNewPeer => {
                let t = if self.their_infos.contains_key(src) {
                    self
                } else {
                    PasserView { their_infos: self.their_infos.insert(src, msg.message), ..self }
                };
                if !self.is_fresh(src, msg.seq_num) {
                    (t.record(src, msg.seq_num), false)
                } else {
                    let m = Message {
                        seq_num: (self.seq + 1) as u32,
                        source: self.id,
                        message: self.my_info,
                        kind: MsgKind::BootstrapResponse,
                    };
                    (t.record(src, msg.seq_num).bump_seq().send_to_connected(m), true)
                }
            },
            MsgKind::Bootstrap => (self.connect_unless_connected(src, msg.message), true),
        }
    }

    /// Taking in `msg` keeps the counters in range.
    pub open spec fn can_recv(self, msg: Message) -> bool {
        let src = msg.source;
        match msg.kind {
            MsgKind::BootstrapRequest => self.seq < u32::MAX,
            MsgKind::BootstrapResponse => src == self.id || !self.is_fresh(src, msg.seq_num)
                || self.nodes.contains(src) || self.token < u32::MAX,
            MsgKind::BootstrapNewPeer => !self.is_fresh(src, msg.seq_num) || self.seq < u32::MAX,
            MsgKind::Bootstrap => self.nodes.contains(src) || self.token < u32::MAX,
            _ => true,
        }
    }

    /// Taking in `msg` reads the connection information in its text.
    pub open spec fn reads_their_info(self, msg: Message) -> bool {
        let src = msg.source;
        match msg.kind {
            MsgKind::Bootstrap => true,
            MsgKind::BootstrapResponse => src != self.id && self.is_fresh(src, msg.seq_num),
            MsgKind::BootstrapNewPeer => !self.their_infos.contains_key(src),
            _ => false,
        }
    }

    /// A peer joined through us or we joined through it: it becomes a
    /// connected peer and a known peer with number 0.
    pub open spec fn joined(self, p: PeerId) -> PasserView {
        PasserView { nodes: self.nodes.push(p), peer_seqs: self.peer_seqs.insert(p, 0), ..self }
    }

    /// The state after the event `e`.
    pub open spec fn on_event(self, e: Event) -> PasserView {
        match e {
            Event::NewMessage(_, msg, bytes) => self.recv(msg, bytes@).0,
            Event::ConnectionInfoPrepared(token, Ok(info)) => PasserView {
                prepared: self.prepared.insert(token),
                my_info: info,
                ..self
            },
            Event::ConnectionInfoPrepared(_, Err(_)) => self,
            Event::BootstrapConnect(p) => {
                let j = self.joined(p);
                let m = Message {
                    seq_num: (self.seq + 1) as u32,
                    source: self.id,
                    message: self.my_info,
                    kind: MsgKind::BootstrapRequest,
                };
                PasserView { seq: (self.seq + 1) as u32, sent: j.sent.push((p, m)), ..j }
            },
            Event::BootstrapAccept(p) => {
                let j = self.joined(p);
                PasserView {
                    seq: (self.seq + in_order(self.their_infos.dom()).len()) as u32,
                    sent: j.sent + bootstrap_infos(p, self.their_infos, self.seq),
                    ..j
                }
            },
            Event::BootstrapFinished => self,
            Event::NewPeer(p) => PasserView { peer_seqs: self.peer_seqs.insert(p, 0), ..self },
            Event::LostPeer(p) => PasserView { peer_seqs: self.peer_seqs.remove(p), ..self },
            Event::Unhandled => self,
        }
    }

    /// The event `e` keeps the counters in range.
    pub open spec fn can_handle(self, e: Event) -> bool {
        match e {
            Event::NewMessage(_, msg, _) => self.can_recv(msg),
            Event::BootstrapConnect(_) => self.seq < u32::MAX,
            Event::BootstrapAccept(_) => self.seq + in_order(self.their_infos.dom()).len() <= u32::MAX,
            _ => true,
        }
    }
}

/// The state of a node: its identity and counters, the peers it knows and
/// is connected to, the connection information it holds, the messages it
/// received for the user, and what it has handed over to its transport.
pub struct MessagePasser {
    my_id: PeerId,
    seq_num: u32,
    peer_seqs: PeerMap<u32>,
    conn_token: u32,
    conn_infos: HashSet<u32>,
    their_infos: PeerMap<String>,
    my_info: String,
    nodes: Vec<PeerId>,
    recv_queue: Vec<Message>,
    sent: Vec<(PeerId, Message)>,
    forwarded: Vec<(PeerId, Vec<u8>)>,
    conn_ops: Vec<ConnOp>,
}

/// The bytes of each forwarded entry, by their view.
pub open spec fn forwarded_view(v: Seq<(PeerId, Vec<u8>)>) -> Seq<(PeerId, Seq<u8>)> {
    v.map_values(|e: (PeerId, Vec<u8>)| (e.0, e.1@))
}

impl View for MessagePasser {
    type V = PasserView;

    closed spec fn view(&self) -> PasserView {
        PasserView {
            id: self.my_id,
            seq: self.seq_num,
            token: self.conn_token,
            peer_seqs: self.peer_seqs@,
            their_infos: self.their_infos@,
            prepared: self.conn_infos@,
            my_info: self.my_info,
            nodes: self.nodes@,
            queue: self.recv_queue@,
            sent: self.sent@,
            forwarded: forwarded_view(self.forwarded@),
            conn_ops: self.conn_ops@,
        }
    }
}

impl MessagePasser {
    /// The maps of the state keep their entries in order.
    pub closed spec fn wf(&self) -> bool {
        self.peer_seqs.wf() && self.their_infos.wf()
    }

    /// The views of `MessagePasserT` are parts of the node's state.
    pub proof fn lemma_trait_views(&self)
        ensures
            self.inv() == self.wf(),
            self.id_view() == self@.id,
            self.seq_view() == self@.seq,
            self.peers_view() == self@.peer_order(),
            self.connected_view() == self@.nodes,
            self.sent_view() == self@.sent,
    {
    }

    /// A node with identity `my_id` that knows no peer and holds nothing yet.
    pub fn new(my_id: PeerId) -> (r: MessagePasser)
        ensures
            r.wf(),
            r@.id == my_id,
            r@.seq == 0,
            r@.token == 0,
            r@.peer_seqs == Map::<PeerId, u32>::empty(),
            r@.their_infos == Map::<PeerId, String>::empty(),
            r@.prepared == Set::<u32>::empty(),
            r@.my_info@ == Seq::<char>::empty(),
            r@.nodes == Seq::<PeerId>::empty(),
            r@.queue == Seq::<Message>::empty(),
            r@.sent == Seq::<(PeerId, Message)>::empty(),
            r@.forwarded == Seq::<(PeerId, Seq<u8>)>::empty(),
            r@.conn_ops == Seq::<ConnOp>::empty(),
    {
        let r = MessagePasser {
            my_id,
            seq_num: 0,
            peer_seqs: PeerMap::new(),
            conn_token: 0,
            conn_infos: HashSet::new(),
            their_infos: PeerMap::new(),
            my_info: String::new(),
            nodes: Vec::new(),
            recv_queue: Vec::new(),
            sent: Vec::new(),
            forwarded: Vec::new(),
            conn_ops: Vec::new(),
        };
        assert(forwarded_view(r.forwarded@) =~= Seq::<(PeerId, Seq<u8>)>::empty());
        r
    }

    /// The node's identity.
    pub fn get_id(&self) -> (r: PeerId)
        ensures
            r == self@.id,
    {
        self.my_id
    }

    /// Prepares connection information under a new token and returns the token.
    pub fn prepare_connection_info(&mut self) -> (r: u32)
        requires
            old(self).wf(),
            old(self)@.token < u32::MAX,
        ensures
            final(self).wf(),
            r == old(self)@.token,
            final(self)@ == (PasserView {
                token: (r + 1) as u32,
                conn_ops: old(self)@.conn_ops.push(ConnOp::Prepare(r)),
                ..old(self)@
            }),
    {
        let token = self.conn_token;
        self.conn_ops.push(ConnOp::Prepare(token));
        self.conn_token = token + 1;
        token
    }

    /// Whether connection information is ready under `tok`.
    pub fn is_prepared(&self, tok: u32) -> (r: bool)
        ensures
            r == self@.prepared.contains(tok),
    {
        self.conn_infos.contains(&tok)
    }

    /// Prepares connection information under a new token, then connects to
    /// the peer with `their_info` through the information prepared under
    /// `i`, if it is ready. Returns whether it was.
    pub fn connect(&mut self, i: u32, their_info: String) -> (r: bool)
        requires
            old(self).wf(),
            old(self)@.token < u32::MAX,
        ensures
            final(self).wf(),
            r == old(self)@.prepared.contains(i),
            final(self)@ == old(self)@.connect(i, their_info),
    {
        self.prepare_connection_info();
        if self.conn_infos.contains(&i) {
            self.conn_infos.remove(&i);
            self.conn_ops.push(ConnOp::Connect(i, their_info));
            true
        } else {
            assert(self.conn_infos@.remove(i) =~= self.conn_infos@);
            false
        }
    }

    /// The JSON connection information of the peers that joined, in
    /// increasing order of identity.
    pub fn get_their_infos(&self) -> (r: Vec<(PeerId, String)>)
        requires
            self.wf(),
        ensures
            r@ == in_order(self@.their_infos.dom()).map_values(
                |k: PeerId| (k, self@.their_infos[k]),
            ),
    {
        proof {
            self.their_infos.lemma_key_seq();
        }
        let entries = self.their_infos.entries();
        let n = entries.len();
        let mut r: Vec<(PeerId, String)> = Vec::new();
        let mut i: usize = 0;
        while i < n
            invariant
                n == entries@.len(),
                entries@ == self.their_infos.entry_seq(),
                self.their_infos.wf(),
                i <= n,
                r@ == self.their_infos.key_seq().take(i as int).map_values(
                    |k: PeerId| (k, self.their_infos@[k]),
                ),
            decreases n - i,
        {
            proof {
                self.their_infos.lemma_entry(i as int);
            }
            r.push((entries[i].0, entries[i].1.clone()));
            i += 1;
            assert(r@ =~= self.their_infos.key_seq().take(i as int).map_values(
                |k: PeerId| (k, self.their_infos@[k]),
            ));
        }
        assert(self.their_infos.key_seq().take(n as int) =~= self.their_infos.key_seq());
        r
    }

    /// Takes what the node has handed over to its transport, leaving none.
    pub fn take_outgoing(&mut self) -> (r: Outgoing)
        requires
            old(self).wf(),
        ensures
            final(self).wf(),
            r.sent@ == old(self)@.sent,
            forwarded_view(r.forwarded@) == old(self)@.forwarded,
            r.conn_ops@ == old(self)@.conn_ops,
            final(self)@ == (PasserView {
                sent: Seq::empty(),
                forwarded: Seq::empty(),
                conn_ops: Seq::empty(),
                ..old(self)@
            }),
    {
        let mut sent = Vec::new();
        let mut forwarded = Vec::new();
        let mut conn_ops = Vec::new();
        std::mem::swap(&mut sent, &mut self.sent);
        std::mem::swap(&mut forwarded, &mut self.forwarded);
        std::mem::swap(&mut conn_ops, &mut self.conn_ops);
        assert(forwarded_view(self.forwarded@) =~= Seq::<(PeerId, Seq<u8>)>::empty());
        Outgoing { sent, forwarded, conn_ops }
    }
}

impl MessagePasser {
    /// The last sequence number taken from `source`; 0 for an unknown peer.
    fn last_seq_of(&self, source: &PeerId) -> (r: u32)
        requires
            self.wf(),
        ensures
            r == self@.last_seq(*source),
    {
        match self.peer_seqs.get(source) {
            Some(r) => *r,
            None => 0,
        }
    }

    /// Notes that a message numbered `seq_num` came from `source`, and
    /// returns whether it had not been taken yet.
    fn record_seq(&mut self, source: PeerId, seq_num: u32) -> (fresh: bool)
        requires
            old(self).wf(),
        ensures
            final(self).wf(),
            fresh == old(self)@.is_fresh(source, seq_num),
            final(self)@ == old(self)@.record(source, seq_num),
    {
        let last = self.last_seq_of(&source);
        if last >= seq_num {
            self.peer_seqs.insert(source, last);
            false
        } else {
            self.peer_seqs.insert(source, seq_num);
            true
        }
    }

    /// Whether the node is connected to `p`.
    pub fn is_connected(&self, p: &PeerId) -> (r: bool)
        ensures
            r == self@.nodes.contains(*p),
    {
        let n = self.nodes.len();
        let mut i: usize = 0;
        while i < n
            invariant
                n == self.nodes@.len(),
                i <= n,
                forall|j: int| 0 <= j < i ==> self.nodes@[j] != *p,
            decreases n - i,
        {
            if self.nodes[i] == *p {
                return true;
            }
            i += 1;
        }
        false
    }

    /// The peers a broadcast from `source` is passed on to.
    fn targets_of(&self, source: &PeerId) -> (r: Vec<PeerId>)
        requires
            self.wf(),
        ensures
            r@ == forward_targets(self@.peer_order(), self.my_id, *source),
    {
        let keys = self.peer_seqs.keys();
        let n = keys.len();
        let mut r: Vec<PeerId> = Vec::new();
        let mut i: usize = 0;
        while i < n
            invariant
                n == keys@.len(),
                i <= n,
                r@ == keys@.take(i as int).filter(after(self.my_id)),
            decreases n - i,
        {
            if self.my_id.lt(&keys[i]) {
                r.push(keys[i]);
            }
            proof {
                reveal_with_fuel(Seq::<PeerId>::filter, 1);
                assert(keys@.take(i + 1).drop_last() =~= keys@.take(i as int));
            }
            i += 1;
        }
        assert(keys@.take(n as int) =~= keys@);
        let ghost first = r@;
        let mut j: usize = 0;
        while j < n
            invariant
                n == keys@.len(),
                j <= n,
                first == keys@.filter(after(self.my_id)),
                r@ == first + keys@.take(j as int).filter(before(*source)),
            decreases n - j,
        {
            if keys[j].lt(source) {
                r.push(keys[j]);
            }
            proof {
                reveal_with_fuel(Seq::<PeerId>::filter, 1);
                assert(keys@.take(j + 1).drop_last() =~= keys@.take(j as int));
            }
            j += 1;
            assert(r@ =~= first + keys@.take(j as int).filter(before(*source)));
        }
        assert(keys@.take(n as int) =~= keys@);
        r
    }

    /// Hands `bytes` over to be passed on to each of `targets`.
    fn forward_bytes(&mut self, targets: &Vec<PeerId>, bytes: &Vec<u8>)
        requires
            old(self).wf(),
        ensures
            final(self).wf(),
            final(self)@ == (PasserView {
                forwarded: old(self)@.forwarded + bytes_to(targets@, bytes@),
                ..old(self)@
            }),
    {
        let n = targets.len();
        let mut i: usize = 0;
        while i < n
            invariant
                n == targets@.len(),
                i <= n,
                self.wf(),
                self@ == (PasserView {
                    forwarded: old(self)@.forwarded + bytes_to(targets@.take(i as int), bytes@),
                    ..old(self)@
                }),
            decreases n - i,
        {
            let b = bytes.clone();
            assert(b@ =~= bytes@);
            let ghost prev = self.forwarded@;
            self.forwarded.push((targets[i], b));
            proof {
                assert(forwarded_view(self.forwarded@) =~= forwarded_view(prev).push(
                    (targets@[i as int], bytes@),
                ));
                assert(targets@.take(i + 1) =~= targets@.take(i as int).push(targets@[i as int]));
                assert(bytes_to(targets@.take(i + 1), bytes@) =~= bytes_to(
                    targets@.take(i as int),
                    bytes@,
                ).push((targets@[i as int], bytes@)));
            }
            i += 1;
            assert(forwarded_view(self.forwarded@) =~= old(self)@.forwarded + bytes_to(
                targets@.take(i as int),
                bytes@,
            ));
        }
        assert(targets@.take(n as int) =~= targets@);
    }

    /// Hands over, for `to`, one `Bootstrap` message for each peer whose
    /// connection information the node holds.
    fn send_their_infos(&mut self, to: PeerId)
        requires
            old(self).wf(),
            old(self)@.seq + in_order(old(self)@.their_infos.dom()).len() <= u32::MAX,
        ensures
            final(self).wf(),
            final(self)@ == (PasserView {
                seq: (old(self)@.seq + in_order(old(self)@.their_infos.dom()).len()) as u32,
                sent: old(self)@.sent + bootstrap_infos(to, old(self)@.their_infos, old(self)@.seq),
                ..old(self)@
            }),
    {
        proof {
            self.their_infos.lemma_key_seq();
        }
        let ghost infos = self@.their_infos;
        let ghost seq0 = self@.seq;
        let ghost all = bootstrap_infos(to, infos, seq0);
        let entries = self.their_infos.entries();
        let n = entries.len();
        let mut i: usize = 0;
        while i < n
            invariant
                n == entries@.len(),
                entries@ == self.their_infos.entry_seq(),
                self.their_infos.wf(),
                self.their_infos@ == infos,
                self.their_infos.key_seq() == in_order(infos.dom()),
                all == bootstrap_infos(to, infos, seq0),
                all.len() == n,
                seq0 + n <= u32::MAX,
                i <= n,
                self.wf(),
                self@ == (PasserView {
                    seq: (seq0 + i) as u32,
                    sent: old(self)@.sent + all.take(i as int),
                    ..old(self)@
                }),
            decreases n - i,
        {
            proof {
                self.their_infos.lemma_entry(i as int);
            }
            self.seq_num = self.seq_num + 1;
            let m = Message {
                source: entries[i].0,
                message: entries[i].1.clone(),
                kind: MsgKind::Bootstrap,
                seq_num: self.seq_num,
            };
            self.sent.push((to, m));
            i += 1;
            assert(self.sent@ =~= old(self)@.sent + all.take(i as int));
        }
        assert(all.take(n as int) =~= all);
    }

    /// Takes in a message from a peer; returns whether it was taken (not
    /// dropped as our own or as one seen before).
    ///
    /// A normal message goes to the user. A broadcast goes to the user and
    /// is passed on around the ring, once per source and number. The
    /// bootstrap messages spread the connection information of newcomers
    /// and connect the node to the peers it learns of.
    pub fn on_recv_msg(&mut self, msg: Message, bytes: Vec<u8>) -> (accepted: bool)
        requires
            old(self).wf(),
            old(self)@.can_recv(msg),
        ensures
            final(self).wf(),
            (final(self)@, accepted) == old(self)@.recv(msg, bytes@),
    {
        let src = msg.source;
        match msg.kind {
            MsgKind::Normal => {
                self.recv_queue.push(msg);
                true
            },
            MsgKind::Broadcast => {
                if src == self.my_id {
                    return false;
                }
                if !self.record_seq(src, msg.seq_num) {
                    return false;
                }
                let targets = self.targets_of(&src);
                self.recv_queue.push(msg);
                self.forward_bytes(&targets, &bytes);
                true
            },
            MsgKind::BootstrapRequest => {
                let peer_message = Message {
                    source: src,
                    message: msg.message,
                    kind: MsgKind::BootstrapNewPeer,
                    seq_num: self.next_seq_num(),
                };
                let _ = self.broadcast_bootstrap(peer_message);
                true
            },
            MsgKind::BootstrapResponse => {
                if src == self.my_id {
                    return false;
                }
                if !self.record_seq(src, msg.seq_num) {
                    return false;
                }
                let their_info = msg.message.clone();
                let _ = self.broadcast_bootstrap(msg);
                if !self.is_connected(&src) {
                    self.connect(0, their_info);
                }
                true
            },
            MsgKind::BootstrapNewPeer => {
                if !self.their_infos.contains_key(&src) {
                    self.their_infos.insert(src, msg.message);
                }
                if !self.record_seq(src, msg.seq_num) {
                    return false;
                }
                let my_info_message = Message {
                    source: self.my_id,
                    message: self.my_info.clone(),
                    kind: MsgKind::BootstrapResponse,
                    seq_num: self.next_seq_num(),
                };
                let _ = self.broadcast_bootstrap(my_info_message);
                true
            },
            MsgKind::Bootstrap => {
                if !self.is_connected(&src) {
                    self.connect(0, msg.message);
                }
                true
            },
        }
    }

    /// Takes in a network event.
    pub fn handle_event(&mut self, event: Event)
        requires
            old(self).wf(),
            old(self)@.can_handle(event),
        ensures
            final(self).wf(),
            final(self)@ == old(self)@.on_event(event),
    {
        match event {
            Event::NewMessage(_peer_id, msg, bytes) => {
                let _ = self.on_recv_msg(msg, bytes);
            },
            Event::ConnectionInfoPrepared(token, result) => {
                match result {
                    Ok(info) => {
                        self.conn_infos.insert(token);
                        self.my_info = info;
                    },
                    Err(_) => {},
                }
            },
            Event::BootstrapConnect(peer_id) => {
                self.nodes.push(peer_id);
                self.peer_seqs.insert(peer_id, 0);
                let my_info_message = Message {
                    source: self.my_id,
                    message: self.my_info.clone(),
                    kind: MsgKind::BootstrapRequest,
                    seq_num: self.next_seq_num(),
                };
                let _ = self.send_msg(peer_id, my_info_message);
            },
            Event::BootstrapAccept(peer_id) => {
                self.nodes.push(peer_id);
                self.peer_seqs.insert(peer_id, 0);
                self.send_their_infos(peer_id);
            },
            Event::BootstrapFinished => {},
            Event::NewPeer(peer_id) => {
                self.peer_seqs.insert(peer_id, 0);
            },
            Event::LostPeer(peer_id) => {
                self.peer_seqs.remove(&peer_id);
            },
            Event::Unhandled => {},
        }
    }

    /// Starts joining: sends our connection information, as a `Bootstrap`
    /// message, to every connected peer, provided the node knows a peer.
    pub fn bootstrap_start(&mut self, my_info: String)
        requires
            old(self).wf(),
            old(self)@.peer_order().len() == 0 || old(self)@.seq < u32::MAX,
        ensures
            final(self).wf(),
            final(self)@ == if old(self)@.peer_order().len() == 0 {
                old(self)@
            } else {
                old(self)@.bump_seq().send_to_connected(
                    Message {
                        seq_num: (old(self)@.seq + 1) as u32,
                        source: old(self)@.id,
                        message: my_info,
                        kind: MsgKind::Bootstrap,
                    },
                )
            },
    {
        let peers = self.peers();
        if peers.len() == 0 {
            return;
        }
        let broadcast_message = Message {
            source: self.my_id,
            message: my_info,
            kind: MsgKind::Bootstrap,
            seq_num: self.next_seq_num(),
        };
        let _ = self.broadcast_bootstrap(broadcast_message);
    }

    /// Whether the node can give out another sequence number.
    pub fn seq_num_available(&self) -> (r: bool)
        ensures
            r == (self@.seq < u32::MAX),
    {
        self.seq_num < u32::MAX
    }

    /// Whether the node can give out another connection token.
    pub fn token_available(&self) -> (r: bool)
        ensures
            r == (self@.token < u32::MAX),
    {
        self.conn_token < u32::MAX
    }

    /// Whether taking in `msg` reads the connection information in its text.
    pub fn needs_their_info(&self, msg: &Message) -> (r: bool)
        requires
            self.wf(),
        ensures
            r == self@.reads_their_info(*msg),
    {
        match msg.kind {
            MsgKind::Bootstrap => true,
            MsgKind::BootstrapResponse => msg.source != self.my_id && self.last_seq_of(&msg.source)
                < msg.seq_num,
            MsgKind::BootstrapNewPeer => !self.their_infos.contains_key(&msg.source),
            _ => false,
        }
    }

    /// Whether taking in `msg` keeps the counters in range.
    pub fn can_recv(&self, msg: &Message) -> (r: bool)
        requires
            self.wf(),
        ensures
            r == self@.can_recv(*msg),
    {
        let src = msg.source;
        match msg.kind {
            MsgKind::BootstrapRequest => self.seq_num < u32::MAX,
            MsgKind::BootstrapResponse => src == self.my_id || self.last_seq_of(&src) >= msg.seq_num
                || self.is_connected(&src) || self.conn_token < u32::MAX,
            MsgKind::BootstrapNewPeer => self.last_seq_of(&src) >= msg.seq_num || self.seq_num
                < u32::MAX,
            MsgKind::Bootstrap => self.is_connected(&src) || self.conn_token < u32::MAX,
            _ => true,
        }
    }

    /// Whether the event `e` keeps the counters in range.
    pub fn can_handle(&self, e: &Event) -> (r: bool)
        requires
            self.wf(),
        ensures
            r == self@.can_handle(*e),
    {
        match e {
            Event::NewMessage(_, msg, _) => self.can_recv(msg),
            Event::BootstrapConnect(_) => self.seq_num < u32::MAX,
            Event::BootstrapAccept(_) => {
                let n = self.their_infos.len();
                n <= u32::MAX as usize && self.seq_num <= u32::MAX - n as u32
            },
            _ => true,
        }
    }
}

impl MessagePasserT for MessagePasser {
    closed spec fn inv(&self) -> bool {
        self.wf()
    }

    closed spec fn id_view(&self) -> PeerId {
        self.my_id
    }

    closed spec fn seq_view(&self) -> u32 {
        self.seq_num
    }

    closed spec fn peers_view(&self) -> Seq<PeerId> {
        in_order(self.peer_seqs@.dom())
    }

    closed spec fn connected_view(&self) -> Seq<PeerId> {
        self.nodes@
    }

    closed spec fn sent_view(&self) -> Seq<(PeerId, Message)> {
        self.sent@
    }

    closed spec fn agrees_besides_sending(&self, other: &Self) -> bool {
        &&& self.wf() == other.wf()
        &&& self@.besides_sending() == other@.besides_sending()
    }

    proof fn lemma_agrees(&self, b: &Self, c: &Self) {
        if self.agrees_besides_sending(b) {
            assert(self@.besides_sending().id == b@.besides_sending().id);
            assert(self@.besides_sending().peer_seqs == b@.besides_sending().peer_seqs);
            assert(self@.besides_sending().nodes == b@.besides_sending().nodes);
            assert(self.inv() == b.inv());
            assert(self.id_view() == b.id_view());
            assert(self.peers_view() == b.peers_view());
            assert(self.connected_view() == b.connected_view());
        }
    }

    fn send_msg(&mut self, dst: PeerId, msg: Message) -> (r: Result<(), String>)
        ensures
            final(self).wf(),
            final(self)@ == (PasserView { sent: old(self)@.sent.push((dst, msg)), ..old(self)@ }),
    {
        self.sent.push((dst, msg));
        Ok(())
    }

    fn try_recv_msg(&mut self) -> (r: Result<Option<Message>, String>)
        ensures
            old(self)@.queue.len() == 0 ==> r == Ok::<Option<Message>, String>(None),
            old(self)@.queue.len() == 0 ==> final(self)@ == old(self)@,
            old(self)@.queue.len() > 0 ==> r == Ok::<Option<Message>, String>(
                Some(old(self)@.queue[0]),
            ),
            old(self)@.queue.len() > 0 ==> final(self)@ == (PasserView {
                queue: old(self)@.queue.drop_first(),
                ..old(self)@
            }),
    {
        if self.recv_queue.len() == 0 {
            Ok(None)
        } else {
            let m = self.recv_queue.remove(0);
            assert(self.recv_queue@ =~= old(self)@.queue.drop_first());
            Ok(Some(m))
        }
    }

    fn next_seq_num(&mut self) -> (r: u32)
        ensures
            final(self).wf(),
            final(self)@ == old(self)@.bump_seq(),
    {
        self.seq_num = self.seq_num + 1;
        self.seq_num
    }

    fn get_id(&self) -> (r: PeerId) {
        self.my_id
    }

    fn peers(&self) -> (r: Vec<PeerId>) {
        self.peer_seqs.keys()
    }

    fn connected_peers(&self) -> (r: Vec<PeerId>) {
        let n = self.nodes.len();
        let mut r: Vec<PeerId> = Vec::new();
        let mut i: usize = 0;
        while i < n
            invariant
                n == self.nodes@.len(),
                i <= n,
                r@ == self.nodes@.take(i as int),
            decreases n - i,
        {
            r.push(self.nodes[i]);
            i += 1;
            assert(r@ =~= self.nodes@.take(i as int));
        }
        assert(r@ =~= self.nodes@);
        r
    }
}

} // verus!
