use std::collections::HashMap;
use vstd::prelude::*;
use vstd::std_specs::iter::IteratorSpec;

use crate::network::bootstrap_handler::StaticContactInfo;
use crate::network::peer_id::PeerId;

verus! {

broadcast use vstd::std_specs::hash::group_hash_axioms;

/// A node's numbered table of peers, its counters and the contacts read
/// from the configuration.
pub struct Network {
    pub nodes: HashMap<usize, PeerId>,
    pub peer_index: usize,
    pub connection_info_index: u32,
    pub config: Vec<StaticContactInfo>,
    pub seq_num: u32,
    pub my_id: PeerId,
}

impl Network {
    /// A node `my_id` with no peers, no contacts and every counter at 0.
    pub fn new(my_id: PeerId) -> (r: Network)
        ensures
            r.nodes@ == Map::<usize, PeerId>::empty(),
            r.peer_index == 0,
            r.connection_info_index == 0,
            r.config@ == Seq::<StaticContactInfo>::empty(),
            r.seq_num == 0,
            r.my_id == my_id,
    {
        Network {
            nodes: HashMap::new(),
            peer_index: 0,
            connection_info_index: 0,
            config: Vec::new(),
            seq_num: 0,
            my_id,
        }
    }

    /// A copy of the table of peers.
    pub fn get_nodes(&self) -> (r: HashMap<usize, PeerId>)
        ensures
            r@ == self.nodes@,
    {
        self.nodes.clone()
    }

    /// Returns the next peer index and moves past it.
    pub fn next_peer_index(&mut self) -> (r: usize)
        requires
            old(self).peer_index < usize::MAX,
        ensures
            r == old(self).peer_index,
            final(self).peer_index == r + 1,
            final(self).nodes@ == old(self).nodes@,
            final(self).connection_info_index == old(self).connection_info_index,
            final(self).config@ == old(self).config@,
            final(self).seq_num == old(self).seq_num,
            final(self).my_id == old(self).my_id,
    {
        let ret = self.peer_index;
        self.peer_index += 1;
        ret
    }

    /// Returns the next connection information index and moves past it.
    pub fn next_connection_info_index(&mut self) -> (r: u32)
        requires
            old(self).connection_info_index < u32::MAX,
        ensures
            r == old(self).connection_info_index,
            final(self).connection_info_index == r + 1,
            final(self).nodes@ == old(self).nodes@,
            final(self).peer_index == old(self).peer_index,
            final(self).config@ == old(self).config@,
            final(self).seq_num == old(self).seq_num,
            final(self).my_id == old(self).my_id,
    {
        let ret = self.connection_info_index;
        self.connection_info_index += 1;
        ret
    }

    /// The peer numbered `n`, if any.
    pub fn get_peer_id(&self, n: usize) -> (r: Option<&PeerId>)
        ensures
            r == (if self.nodes@.contains_key(n) {
                Some(&self.nodes@[n])
            } else {
                None
            }),
    {
        self.nodes.get(&n)
    }

    /// Takes a broadcast numbered `msg_seq` when the number is not below the
    /// counter, and then raises the counter by one. Returns whether it took it.
    pub fn handle_broadcast(&mut self, msg_seq: u32) -> (r: bool)
        requires
            msg_seq < old(self).seq_num || old(self).seq_num < u32::MAX,
        ensures
            r == (msg_seq >= old(self).seq_num),
            final(self).seq_num == if r {
                old(self).seq_num + 1
            } else {
                old(self).seq_num as int
            },
            final(self).nodes@ == old(self).nodes@,
            final(self).peer_index == old(self).peer_index,
            final(self).connection_info_index == old(self).connection_info_index,
            final(self).config@ == old(self).config@,
            final(self).my_id == old(self).my_id,
    {
        if msg_seq < self.seq_num {
            return false;
        } else {
            self.inc_seq();
            return true;
        }
    }

    /// Raises the broadcast counter by one.
    pub fn inc_seq(&mut self)
        requires
            old(self).seq_num < u32::MAX,
        ensures
            final(self).seq_num == old(self).seq_num + 1,
            final(self).nodes@ == old(self).nodes@,
            final(self).peer_index == old(self).peer_index,
            final(self).connection_info_index == old(self).connection_info_index,
            final(self).config@ == old(self).config@,
            final(self).my_id == old(self).my_id,
    {
        self.seq_num += 1;
    }

    /// Takes the hard-coded contacts read from the configuration file.
    pub fn read_config(&mut self, hard_coded_contacts: Vec<StaticContactInfo>)
        ensures
            final(self).config@ == hard_coded_contacts@,
            final(self).nodes@ == old(self).nodes@,
            final(self).peer_index == old(self).peer_index,
            final(self).connection_info_index == old(self).connection_info_index,
            final(self).seq_num == old(self).seq_num,
            final(self).my_id == old(self).my_id,
    {
        self.config = hard_coded_contacts;
    }

    /// The node's identity.
    pub fn my_id(&self) -> (r: PeerId)
        ensures
            r == self.my_id,
    {
        self.my_id
    }

    /// Takes in a broadcast from `source` numbered `seq_num`: one from
    /// another node that `handle_broadcast` takes is passed on to every peer
    /// of the table (`Some` of them, in the table's order); otherwise `None`.
    pub fn on_broadcast(&mut self, source: PeerId, seq_num: u32) -> (r: Option<Vec<PeerId>>)
        requires
            source == old(self).my_id || seq_num < old(self).seq_num || old(self).seq_num < u32::MAX,
        ensures
            r is Some <==> source != old(self).my_id && seq_num >= old(self).seq_num,
            final(self).seq_num == if r is Some {
                old(self).seq_num + 1
            } else {
                old(self).seq_num as int
            },
            r matches Some(v) ==> exists|ks: Seq<usize>|
                #![trigger ks.to_set()]
                {
                    &&& ks.no_duplicates()
                    &&& ks.to_set() == old(self).nodes@.dom()
                    &&& v@ == ks.map_values(|k: usize| old(self).nodes@[k])
                },
            final(self).nodes@ == old(self).nodes@,
            final(self).peer_index == old(self).peer_index,
            final(self).connection_info_index == old(self).connection_info_index,
            final(self).config@ == old(self).config@,
            final(self).my_id == old(self).my_id,
    {
        if source != self.my_id && self.handle_broadcast(seq_num) {
            let mut targets: Vec<PeerId> = Vec::new();
            let ghost ks = vstd::std_specs::hash::spec_keys_iter(&self.nodes).remaining().unref();
            for k in it: self.nodes.keys()
                invariant
                    it.seq().unref() == ks,
                    ks.to_set() == self.nodes@.dom(),
                    targets@ == ks.take(it.index() as int).map_values(|k: usize| self.nodes@[k]),
            {
                let ghost i = it.index();
                assert(ks[i] == *k);
                assert(ks.to_set().contains(ks[i]));
                let p = *self.nodes.get(k).unwrap();
                targets.push(p);
                assert(targets@ =~= ks.take(i + 1).map_values(|k: usize| self.nodes@[k]));
            }
            assert(targets@ =~= ks.map_values(|k: usize| self.nodes@[k]));
            assert(ks.no_duplicates());
            Some(targets)
        } else {
            None
        }
    }
}

/// Gives `peer_id` the next peer index of `network` and puts it in the
/// table under that index. Returns the index.
pub fn handle_new_peer(network: &mut Network, peer_id: PeerId) -> (r: usize)
    requires
        old(network).peer_index < usize::MAX,
    ensures
        r == old(network).peer_index,
        final(network).peer_index == r + 1,
        final(network).nodes@ == old(network).nodes@.insert(r, peer_id),
        final(network).connection_info_index == old(network).connection_info_index,
        final(network).config@ == old(network).config@,
        final(network).seq_num == old(network).seq_num,
        final(network).my_id == old(network).my_id,
{
    let peer_index = network.next_peer_index();
    let _ = network.nodes.insert(peer_index, peer_id);
    peer_index
}

/// A peer that `handle_new_peer` put in the table is what `get_peer_id`
/// gives for the index it returned: the table after the call holds the peer
/// under that index.
pub proof fn lemma_new_peer_found(before: Network, after: Network, peer_id: PeerId)
    requires
        after.nodes@ == before.nodes@.insert(before.peer_index, peer_id),
    ensures
        after.nodes@.contains_key(before.peer_index),
        after.nodes@[before.peer_index] == peer_id,
{
}

} // verus!
