use std::collections::HashMap;
use vstd::prelude::*;

use crate::network::peer_id::PeerId;

verus! {

broadcast use vstd::std_specs::hash::group_hash_axioms;

/// A node's message counter and its numbered table of peers.
pub struct MsgPasser {
    pub seq_num: u32,
    pub nodes: HashMap<usize, PeerId>,
    pub my_id: PeerId,
}

impl MsgPasser {
    /// A node `id` with the table `node` and the counter at 0.
    pub fn new(id: PeerId, node: HashMap<usize, PeerId>) -> (r: MsgPasser)
        ensures
            r.seq_num == 0,
            r.my_id == id,
            r.nodes@ == node@,
    {
        MsgPasser { seq_num: 0, nodes: node, my_id: id }
    }

    /// The message counter.
    pub fn get_seq_num(&self) -> (r: u32)
        ensures
            r == self.seq_num,
    {
        self.seq_num
    }

    /// Raises the counter by one and returns it.
    pub fn next_seq_num(&mut self) -> (r: u32)
        requires
            old(self).seq_num < u32::MAX,
        ensures
            r == old(self).seq_num + 1,
            final(self).seq_num == r,
            final(self).my_id == old(self).my_id,
            final(self).nodes@ == old(self).nodes@,
    {
        self.seq_num += 1;
        self.seq_num
    }

    /// Raises the counter by one.
    pub fn inc_seq(&mut self)
        requires
            old(self).seq_num < u32::MAX,
        ensures
            final(self).seq_num == old(self).seq_num + 1,
            final(self).my_id == old(self).my_id,
            final(self).nodes@ == old(self).nodes@,
    {
        self.seq_num += 1;
    }

    /// Takes a broadcast numbered `msg_seq` when the number is not below the
    /// counter, and then raises the counter by one. Returns whether it took it.
    pub fn handle_broadcast(&mut self, msg_seq: u32) -> (r: bool)
        requires
            msg_seq < old(self).seq_num || old(self).seq_num < u32::MAX,
        ensures
            r == (msg_seq >= old(self).seq_num),
            final(self).seq_num == if r {
                old(self).seq_num + 1
            } else {
                old(self).seq_num as int
            },
            final(self).my_id == old(self).my_id,
            final(self).nodes@ == old(self).nodes@,
    {
        if msg_seq < self.seq_num {
            return false;
        } else {
            self.inc_seq();
            return true;
        }
    }
}

} // verus!
