use vstd::prelude::*;

verus! {

/// The identity of a peer: its 256-bit public key, held as four 64-bit
/// words in big-endian order (`w0` holds the first eight bytes).
///
/// Peers are ordered by their keys, byte by byte, which is the order of the
/// words compared one after the other.
#[derive(Clone, Copy, Debug, PartialEq, Eq, Structural, Hash)]
pub struct PeerId {
    pub w0: u64,
    pub w1: u64,
    pub w2: u64,
    pub w3: u64,
}

/// `a` comes strictly before `b` in the order of keys.
pub open spec fn peer_lt(a: PeerId, b: PeerId) -> bool {
    ||| a.w0 < b.w0
    ||| (a.w0 == b.w0 && a.w1 < b.w1)
    ||| (a.w0 == b.w0 && a.w1 == b.w1 && a.w2 < b.w2)
    ||| (a.w0 == b.w0 && a.w1 == b.w1 && a.w2 == b.w2 && a.w3 < b.w3)
}

impl PeerId {
    /// Builds an identity from its four words.
    pub fn new(w0: u64, w1: u64, w2: u64, w3: u64) -> (r: PeerId)
        ensures
            r == (PeerId { w0, w1, w2, w3 }),
    {
        PeerId { w0, w1, w2, w3 }
    }

    /// Whether `self` comes strictly before `other`.
    pub fn lt(&self, other: &PeerId) -> (r: bool)
        ensures
            r == peer_lt(*self, *other),
    {
        if self.w0 != other.w0 {
            self.w0 < other.w0
        } else if self.w1 != other.w1 {
            self.w1 < other.w1
        } else if self.w2 != other.w2 {
            self.w2 < other.w2
        } else {
            self.w3 < other.w3
        }
    }
}

/// No identity comes before itself.
pub proof fn lemma_lt_irreflexive(a: PeerId)
    ensures
        !peer_lt(a, a),
{
}

/// The order of identities is transitive.
pub proof fn lemma_lt_transitive(a: PeerId, b: PeerId, c: PeerId)
    requires
        peer_lt(a, b),
        peer_lt(b, c),
    ensures
        peer_lt(a, c),
{
}

/// Of two distinct identities, one comes before the other.
pub proof fn lemma_lt_total(a: PeerId, b: PeerId)
    ensures
        a == b || peer_lt(a, b) || peer_lt(b, a),
        !(peer_lt(a, b) && peer_lt(b, a)),
{
}

} // verus!
