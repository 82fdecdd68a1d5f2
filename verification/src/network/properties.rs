//! Properties of the message passer that span several steps.

use vstd::prelude::*;

use super::peer_id::{lemma_lt_irreflexive, peer_lt, PeerId};
use super::peer_map::lists_in_order;
use super::{
    after, before, bootstrap_infos, forward_targets, ConnOp, Event, Message, MessagePasser,
    MsgKind, PasserView,
};

verus! {

broadcast use vstd::seq_lib::group_filter_ensures;

/// A broadcast, a bootstrap response or the news of a newcomer is taken at
/// most once: handing the same message to the node a second time changes
/// nothing, and the node drops it.
pub proof fn lemma_taken_at_most_once(s: PasserView, m: Message, bytes: Seq<u8>)
    requires
        m.kind == MsgKind::Broadcast || m.kind == MsgKind::BootstrapResponse || m.kind
            == MsgKind::BootstrapNewPeer,
    ensures
        s.recv(m, bytes).0.recv(m, bytes) == (s.recv(m, bytes).0, false),
{
    let s1 = s.recv(m, bytes).0;
    let src = m.source;
    if m.kind == MsgKind::BootstrapNewPeer || src != s.id {
        assert(s1.peer_seqs.contains_key(src));
        assert(!s1.is_fresh(src, m.seq_num));
        assert(s1.record(src, m.seq_num).peer_seqs =~= s1.peer_seqs);
        assert(s1.record(src, m.seq_num) == s1);
        if m.kind == MsgKind::BootstrapNewPeer {
            assert(s1.their_infos.contains_key(src));
        }
    }
}

/// Taking in a message never lowers the number recorded for a peer; every
/// known peer stays known and the only peer it can make known is the
/// message's source; the connected peers and the identity stay as they are;
/// connection information once held is kept.
pub proof fn lemma_recv_keeps_numbers(s: PasserView, m: Message, bytes: Seq<u8>, x: PeerId)
    ensures
        s.recv(m, bytes).0.last_seq(x) >= s.last_seq(x),
        s.peer_seqs.contains_key(x) ==> s.recv(m, bytes).0.peer_seqs.contains_key(x),
        s.recv(m, bytes).0.peer_seqs.contains_key(x) ==> s.peer_seqs.contains_key(x) || x
            == m.source,
        s.recv(m, bytes).0.nodes == s.nodes,
        s.recv(m, bytes).0.id == s.id,
        s.their_infos.submap_of(s.recv(m, bytes).0.their_infos),
{
}

/// Within the range of the counters, taking in a message never lowers the
/// node's sequence counter.
pub proof fn lemma_recv_keeps_counter(s: PasserView, m: Message, bytes: Seq<u8>)
    requires
        s.can_recv(m),
    ensures
        s.recv(m, bytes).0.seq >= s.seq,
        s.recv(m, bytes).0.token >= s.token,
{
}

/// A message event leaves the node as taking in the message does, under the
/// same condition on the counters.
pub proof fn lemma_message_event_is_recv(s: PasserView, p: PeerId, m: Message, bytes: Vec<u8>)
    ensures
        s.on_event(Event::NewMessage(p, m, bytes)) == s.recv(m, bytes@).0,
        s.can_handle(Event::NewMessage(p, m, bytes)) == s.can_recv(m),
{
}

/// The connected peers only grow, by at most the one peer that joined, and
/// the identity stays as it is.
pub proof fn lemma_connected_only_grow(s: PasserView, e: Event)
    ensures
        s.nodes.is_prefix_of(s.on_event(e).nodes),
        s.on_event(e).nodes.len() <= s.nodes.len() + 1,
        s.on_event(e).id == s.id,
{
    let t = s.on_event(e);
    match e {
        Event::BootstrapConnect(p) => {
            assert(t.nodes == s.nodes.push(p));
        },
        Event::BootstrapAccept(p) => {
            assert(t.nodes == s.nodes.push(p));
        },
        _ => {
            assert(t.nodes == s.nodes);
        },
    }
    assert(s.nodes.is_prefix_of(t.nodes)) by {
        assert(t.nodes.subrange(0, s.nodes.len() as int) =~= s.nodes);
    }
}

/// `peers` lists every known peer once, in increasing order, and the
/// connection information of the peers that joined is held in the same way.
pub proof fn lemma_peers_in_order(p: &MessagePasser)
    requires
        p.wf(),
    ensures
        lists_in_order(p@.peer_order(), p@.peer_seqs.dom()),
        lists_in_order(super::peer_map::in_order(p@.their_infos.dom()), p@.their_infos.dom()),
{
    p.peer_seqs.lemma_key_seq();
    p.their_infos.lemma_key_seq();
}

/// What a filter keeps comes from the filtered sequence.
proof fn lemma_filtered_in(s: Seq<PeerId>, p: spec_fn(PeerId) -> bool, x: PeerId)
    requires
        s.filter(p).contains(x),
    ensures
        s.contains(x),
    decreases s.len(),
{
    reveal_with_fuel(Seq::<PeerId>::filter, 1);
    if s.len() > 0 {
        let rest = s.drop_last();
        let sub = rest.filter(p);
        if sub.contains(x) {
            lemma_filtered_in(rest, p, x);
            let i = choose|i: int| 0 <= i < rest.len() && rest[i] == x;
            assert(s[i] == x);
        } else {
            let f = s.filter(p);
            let i = choose|i: int| 0 <= i < f.len() && f[i] == x;
            if p(s.last()) {
                assert(f == sub.push(s.last()));
                if i < sub.len() {
                    assert(sub[i] == x);
                }
                assert(s[s.len() - 1] == x);
            } else {
                assert(f == sub);
            }
        }
    }
}

/// A broadcast from `source` is passed on exactly to the known peers that
/// come after this node or before `source`; it is passed back to this node
/// only if the node lists itself among its peers.
pub proof fn lemma_forward_targets(keys: Seq<PeerId>, me: PeerId, source: PeerId)
    ensures
        forall|t: PeerId| #[trigger]
            forward_targets(keys, me, source).contains(t) <==> keys.contains(t) && (peer_lt(me, t)
                || peer_lt(t, source)),
        !keys.contains(me) ==> !forward_targets(keys, me, source).contains(me),
{
    let a = keys.filter(after(me));
    let b = keys.filter(before(source));
    assert forall|t: PeerId| #[trigger]
        forward_targets(keys, me, source).contains(t) <==> keys.contains(t) && (peer_lt(me, t)
            || peer_lt(t, source)) by {
        let f = forward_targets(keys, me, source);
        assert(f == a + b);
        if f.contains(t) {
            let i = choose|i: int| 0 <= i < f.len() && f[i] == t;
            if i < a.len() {
                assert(a[i] == t);
                keys.lemma_filter_pred(after(me), i);
                assert(a.contains(t));
                lemma_filtered_in(keys, after(me), t);
                assert(peer_lt(me, t));
            } else {
                assert(b[i - a.len()] == t);
                keys.lemma_filter_pred(before(source), i - a.len());
                assert(b.contains(t));
                lemma_filtered_in(keys, before(source), t);
                assert(peer_lt(t, source));
            }
        }
        if keys.contains(t) && peer_lt(me, t) {
            keys.lemma_filter_contains_rev(after(me), t);
            assert(a.contains(t));
            let i = choose|i: int| 0 <= i < a.len() && a[i] == t;
            assert((a + b)[i] == t);
            assert(f.contains(t));
        }
        if keys.contains(t) && peer_lt(t, source) {
            keys.lemma_filter_contains_rev(before(source), t);
            assert(b.contains(t));
            let i = choose|i: int| 0 <= i < b.len() && b[i] == t;
            assert((a + b)[a.len() + i] == t);
            assert(f.contains(t));
        }
    }
    lemma_lt_irreflexive(me);
}

/// Connection information prepared under a token is used for one
/// connection only: a second connection through the same token, with no
/// new information prepared in between, only asks for new information.
pub proof fn lemma_prepared_used_once(s: PasserView, i: u32, first: String, second: String)
    ensures
        s.connect(i, first).connect(i, second).conn_ops == s.connect(i, first).conn_ops.push(
            ConnOp::Prepare((s.token + 1) as u32),
        ),
        !s.connect(i, first).prepared.contains(i),
{
}

/// The node does not connect again to a peer it is connected to.
pub proof fn lemma_no_reconnect(s: PasserView, m: Message, bytes: Seq<u8>)
    requires
        m.kind == MsgKind::Bootstrap,
        s.nodes.contains(m.source),
    ensures
        s.recv(m, bytes) == (s, true),
{
}

/// The `Bootstrap` messages sent to a newcomer carry consecutive numbers,
/// one for each peer whose connection information the node holds.
pub proof fn lemma_bootstrap_infos_numbered(
    to: PeerId,
    infos: Map<PeerId, String>,
    seq: u32,
    i: int,
    j: int,
)
    requires
        seq + super::peer_map::in_order(infos.dom()).len() <= u32::MAX,
        0 <= i < j < bootstrap_infos(to, infos, seq).len(),
    ensures
        bootstrap_infos(to, infos, seq)[i].1.seq_num < bootstrap_infos(to, infos, seq)[j].1.seq_num,
        bootstrap_infos(to, infos, seq)[i].1.seq_num == seq + 1 + i,
        bootstrap_infos(to, infos, seq)[i].0 == to,
{
}

/// Losing a peer that had just connected, and was unknown before, leaves
/// the node as it was.
pub proof fn lemma_lost_undoes_new_peer(s: PasserView, p: PeerId)
    requires
        !s.peer_seqs.contains_key(p),
    ensures
        s.on_event(Event::NewPeer(p)).on_event(Event::LostPeer(p)) == s,
{
    assert(s.peer_seqs.insert(p, 0).remove(p) =~= s.peer_seqs);
}

/// A broadcast from another node whose number is above the one recorded
/// for its source (0 for an unknown source) is taken, whatever the node's
/// own counter: it is queued for the user and its number is recorded for
/// the source.
pub proof fn lemma_fresh_broadcast_taken(s: PasserView, m: Message, bytes: Seq<u8>)
    requires
        m.kind == MsgKind::Broadcast,
        m.source != s.id,
        if s.peer_seqs.contains_key(m.source) {
            s.peer_seqs[m.source] < m.seq_num
        } else {
            0 < m.seq_num
        },
    ensures
        s.recv(m, bytes).1,
        s.recv(m, bytes).0.queue == s.queue.push(m),
        s.recv(m, bytes).0.peer_seqs == s.peer_seqs.insert(m.source, m.seq_num),
        s.recv(m, bytes).0.seq == s.seq,
        s.recv(m, bytes).0.sent == s.sent,
        s.recv(m, bytes).0.nodes == s.nodes,
{
}

/// A Bootstrap message from a peer that is not connected, with connection
/// information ready under token 0, makes the node prepare new information
/// and connect to that peer through token 0, which is then used up; the
/// other prepared tokens stay prepared.
pub proof fn lemma_bootstrap_connects(s: PasserView, m: Message, bytes: Seq<u8>)
    requires
        m.kind == MsgKind::Bootstrap,
        s.prepared.contains(0),
        !s.nodes.contains(m.source),
    ensures
        s.recv(m, bytes).0.conn_ops == s.conn_ops + seq![
            ConnOp::Prepare(s.token),
            ConnOp::Connect(0, m.message),
        ],
        s.recv(m, bytes).0.prepared == s.prepared.remove(0),
        s.recv(m, bytes).0.token == (s.token + 1) as u32,
{
    assert(s.recv(m, bytes).0.conn_ops =~= s.conn_ops + seq![
        ConnOp::Prepare(s.token),
        ConnOp::Connect(0, m.message),
    ]);
}

/// A bootstrap response from another node, not seen before, from a peer
/// that is not connected, with connection information ready under token 0,
/// ends with a connection to that peer through token 0, which is used up.
pub proof fn lemma_bootstrap_response_connects(s: PasserView, m: Message, bytes: Seq<u8>)
    requires
        m.kind == MsgKind::BootstrapResponse,
        m.source != s.id,
        if s.peer_seqs.contains_key(m.source) {
            s.peer_seqs[m.source] < m.seq_num
        } else {
            0 < m.seq_num
        },
        s.prepared.contains(0),
        !s.nodes.contains(m.source),
    ensures
        s.recv(m, bytes).1,
        s.recv(m, bytes).0.conn_ops == s.conn_ops + seq![
            ConnOp::Prepare(s.token),
            ConnOp::Connect(0, m.message),
        ],
        s.recv(m, bytes).0.prepared == s.prepared.remove(0),
{
    assert(s.recv(m, bytes).0.conn_ops =~= s.conn_ops + seq![
        ConnOp::Prepare(s.token),
        ConnOp::Connect(0, m.message),
    ]);
}

/// Connection information prepared under a token becomes our own
/// information, whatever we held before, and the token becomes ready.
pub proof fn lemma_prepared_info_is_ours(s: PasserView, token: u32, info: String)
    ensures
        s.on_event(Event::ConnectionInfoPrepared(token, Ok(info))).my_info == info,
        s.on_event(Event::ConnectionInfoPrepared(token, Ok(info))).prepared == s.prepared.insert(
            token,
        ),
{
}

/// Connecting through token `i` uses up `i` only: every other prepared
/// token stays prepared. A connection is asked for exactly when `i` was
/// prepared, and new information is prepared under the next token.
pub proof fn lemma_connect_uses_one_token(s: PasserView, i: u32, their_info: String)
    ensures
        s.connect(i, their_info).prepared == s.prepared.remove(i),
        forall|t: u32| t != i && s.prepared.contains(t) ==> #[trigger] s.connect(
            i,
            their_info,
        ).prepared.contains(t),
        s.prepared.contains(i) ==> s.connect(i, their_info).conn_ops == s.conn_ops + seq![
            ConnOp::Prepare(s.token),
            ConnOp::Connect(i, their_info),
        ],
        !s.prepared.contains(i) ==> s.connect(i, their_info).conn_ops == s.conn_ops.push(
            ConnOp::Prepare(s.token),
        ),
{
    assert(s.prepared.contains(i) ==> s.connect(i, their_info).conn_ops =~= s.conn_ops + seq![
        ConnOp::Prepare(s.token),
        ConnOp::Connect(i, their_info),
    ]);
}

} // verus!
