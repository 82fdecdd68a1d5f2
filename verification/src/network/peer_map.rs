use vstd::prelude::*;

use super::peer_id::{lemma_lt_irreflexive, lemma_lt_total, lemma_lt_transitive, peer_lt, PeerId};

verus! {

/// Every identity of `s` comes strictly before those after it.
pub open spec fn strictly_sorted(s: Seq<PeerId>) -> bool {
    forall|i: int, j: int| 0 <= i < j < s.len() ==> peer_lt(#[trigger] s[i], #[trigger] s[j])
}

/// `s` lists the identities of `dom` in increasing order, each once.
pub open spec fn lists_in_order(s: Seq<PeerId>, dom: Set<PeerId>) -> bool {
    &&& strictly_sorted(s)
    &&& forall|k: PeerId| #[trigger] s.contains(k) <==> dom.contains(k)
}

/// The identities of `dom` in increasing order.
pub open spec fn in_order(dom: Set<PeerId>) -> Seq<PeerId> {
    choose|s: Seq<PeerId>| lists_in_order(s, dom)
}

/// A set has at most one increasing listing.
pub proof fn lemma_in_order_unique(s1: Seq<PeerId>, s2: Seq<PeerId>, dom: Set<PeerId>)
    requires
        lists_in_order(s1, dom),
        lists_in_order(s2, dom),
    ensures
        s1 == s2,
    decreases s1.len(),
{
    if s1.len() == 0 {
        if s2.len() > 0 {
            assert(s2.contains(s2[0]));
            assert(dom.contains(s2[0]));
            assert(s1.contains(s2[0]));
        }
        assert(s1 =~= s2);
    } else {
        if s2.len() == 0 {
            assert(s1.contains(s1[0]));
            assert(dom.contains(s1[0]));
            assert(s2.contains(s1[0]));
        }
        let a = s1[0];
        let b = s2[0];
        assert(s1.contains(a));
        assert(s2.contains(b));
        assert(dom.contains(a) && dom.contains(b));
        assert(s1.contains(b));
        assert(s2.contains(a));
        let j = choose|j: int| 0 <= j < s1.len() && s1[j] == b;
        let k = choose|k: int| 0 <= k < s2.len() && s2[k] == a;
        if a != b {
            assert(j > 0 && k > 0);
            assert(peer_lt(s1[0], s1[j]));
            assert(peer_lt(s2[0], s2[k]));
            lemma_lt_total(a, b);
        }
        let t1 = s1.drop_first();
        let t2 = s2.drop_first();
        let d = dom.remove(a);
        assert forall|x: PeerId| #[trigger] t1.contains(x) <==> d.contains(x) by {
            if t1.contains(x) {
                let i = choose|i: int| 0 <= i < t1.len() && t1[i] == x;
                assert(s1[i + 1] == x);
                assert(peer_lt(s1[0], s1[i + 1]));
                lemma_lt_irreflexive(a);
                assert(s1.contains(x));
            }
            if d.contains(x) {
                assert(s1.contains(x));
                let i = choose|i: int| 0 <= i < s1.len() && s1[i] == x;
                assert(i != 0);
                assert(t1[i - 1] == x);
            }
        }
        assert forall|x: PeerId| #[trigger] t2.contains(x) <==> d.contains(x) by {
            if t2.contains(x) {
                let i = choose|i: int| 0 <= i < t2.len() && t2[i] == x;
                assert(s2[i + 1] == x);
                assert(peer_lt(s2[0], s2[i + 1]));
                lemma_lt_irreflexive(a);
                assert(s2.contains(x));
            }
            if d.contains(x) {
                assert(s2.contains(x));
                let i = choose|i: int| 0 <= i < s2.len() && s2[i] == x;
                assert(i != 0);
                assert(t2[i - 1] == x);
            }
        }
        assert(strictly_sorted(t1)) by {
            assert forall|i: int, j: int| 0 <= i < j < t1.len() implies peer_lt(
                #[trigger] t1[i],
                #[trigger] t1[j],
            ) by {
                assert(peer_lt(s1[i + 1], s1[j + 1]));
            }
        }
        assert(strictly_sorted(t2)) by {
            assert forall|i: int, j: int| 0 <= i < j < t2.len() implies peer_lt(
                #[trigger] t2[i],
                #[trigger] t2[j],
            ) by {
                assert(peer_lt(s2[i + 1], s2[j + 1]));
            }
        }
        lemma_in_order_unique(t1, t2, d);
        assert(s1 =~= s2) by {
            assert forall|i: int| 0 <= i < s1.len() implies s1[i] == s2[i] by {
                if i > 0 {
                    assert(t1[i - 1] == t2[i - 1]);
                }
            }
        }
    }
}

/// A map from peer identities to values that keeps its entries in the order
/// of the identities, each identity at most once.
///
/// The node needs its peers in the order of their identities (broadcasts are
/// passed on by that order). vstd specifies `BTreeMap` only for keys whose
/// `Ord` it models, which are the integer types; `PeerId` is a struct of four
/// words, whose derived `Ord` Verus does not read. So the map is kept here, as
/// a vector sorted by identity, with that order proved.
pub struct PeerMap<V> {
    entries: Vec<(PeerId, V)>,
}

impl<V> PeerMap<V> {
    /// The entries, in increasing order of identity.
    pub closed spec fn entry_seq(self) -> Seq<(PeerId, V)> {
        self.entries@
    }

    /// The identities of the entries, in the order of the entries.
    pub open spec fn key_seq(self) -> Seq<PeerId> {
        self.entry_seq().map_values(|e: (PeerId, V)| e.0)
    }

    /// The entries are ordered strictly by identity.
    pub open spec fn wf(self) -> bool {
        strictly_sorted(self.key_seq())
    }

    /// The map that the entries hold.
    pub open spec fn view(self) -> Map<PeerId, V> {
        Map::new(
            |k: PeerId| self.key_seq().contains(k),
            |k: PeerId| self.entry_seq()[self.key_seq().index_of(k)].1,
        )
    }

    /// The entry at index `i` is the map's entry for its identity.
    pub proof fn lemma_entry(self, i: int)
        requires
            self.wf(),
            0 <= i < self.entry_seq().len(),
        ensures
            self.key_seq()[i] == self.entry_seq()[i].0,
            self.view().contains_key(self.entry_seq()[i].0),
            self.view()[self.entry_seq()[i].0] == self.entry_seq()[i].1,
    {
        let k = self.key_seq()[i];
        assert(self.key_seq().contains(k));
        let j = self.key_seq().index_of(k);
        if j != i {
            if j < i {
                assert(peer_lt(self.key_seq()[j], self.key_seq()[i]));
            } else {
                assert(peer_lt(self.key_seq()[i], self.key_seq()[j]));
            }
            lemma_lt_irreflexive(k);
        }
    }

    /// The identities of the entries are those of the map, in increasing order.
    pub proof fn lemma_key_seq(self)
        requires
            self.wf(),
        ensures
            lists_in_order(self.key_seq(), self.view().dom()),
            self.key_seq() == in_order(self.view().dom()),
            self.key_seq().len() == self.entry_seq().len(),
    {
        let dom = self.view().dom();
        assert(lists_in_order(self.key_seq(), dom));
        let s = in_order(dom);
        lemma_in_order_unique(self.key_seq(), s, dom);
    }

    /// An empty map.
    pub fn new() -> (r: PeerMap<V>)
        ensures
            r.wf(),
            r@ == Map::<PeerId, V>::empty(),
    {
        let r = PeerMap { entries: Vec::new() };
        assert(r@ =~= Map::<PeerId, V>::empty());
        r
    }

    /// The number of entries.
    pub fn len(&self) -> (r: usize)
        requires
            self.wf(),
        ensures
            r == in_order(self@.dom()).len(),
    {
        proof {
            self.lemma_key_seq();
        }
        self.entries.len()
    }

    /// The entries, in increasing order of identity.
    pub fn entries(&self) -> (r: &Vec<(PeerId, V)>)
        ensures
            r@ == self.entry_seq(),
    {
        &self.entries
    }

    /// The value held for `k`, if any.
    pub fn get(&self, k: &PeerId) -> (r: Option<&V>)
        requires
            self.wf(),
        ensures
            r == (if self@.contains_key(*k) {
                Some(&self@[*k])
            } else {
                None
            }),
    {
        let n = self.entries.len();
        let mut i: usize = 0;
        while i < n
            invariant
                n == self.entries@.len(),
                i <= n,
                self.wf(),
                forall|j: int| 0 <= j < i ==> self.key_seq()[j] != *k,
            decreases n - i,
        {
            if self.entries[i].0 == *k {
                proof {
                    self.lemma_entry(i as int);
                }
                return Some(&self.entries[i].1);
            }
            i += 1;
        }
        assert(!self.key_seq().contains(*k));
        None
    }

    /// Whether the map holds a value for `k`.
    pub fn contains_key(&self, k: &PeerId) -> (r: bool)
        requires
            self.wf(),
        ensures
            r == self@.contains_key(*k),
    {
        self.get(k).is_some()
    }

    /// The identities, in increasing order.
    pub fn keys(&self) -> (r: Vec<PeerId>)
        requires
            self.wf(),
        ensures
            r@ == in_order(self@.dom()),
    {
        proof {
            self.lemma_key_seq();
        }
        let n = self.entries.len();
        let mut r: Vec<PeerId> = Vec::new();
        let mut i: usize = 0;
        while i < n
            invariant
                n == self.entries@.len(),
                i <= n,
                r@ == self.key_seq().take(i as int),
            decreases n - i,
        {
            r.push(self.entries[i].0);
            i += 1;
            assert(r@ =~= self.key_seq().take(i as int));
        }
        assert(r@ =~= self.key_seq());
        r
    }

    /// Sets the value for `k` to `v`, adding `k` where it was absent.
    pub fn insert(&mut self, k: PeerId, v: V)
        requires
            old(self).wf(),
        ensures
            final(self).wf(),
            final(self)@ == old(self)@.insert(k, v),
    {
        let n = self.entries.len();
        let mut p: usize = 0;
        while p < n && self.entries[p].0.lt(&k)
            invariant
                n == self.entries@.len(),
                p <= n,
                self.wf(),
                forall|i: int| 0 <= i < p ==> peer_lt(#[trigger] self.key_seq()[i], k),
            decreases n - p,
        {
            p += 1;
        }
        let ghost old_map = self@;
        let ghost old_self = *self;
        if p < n && self.entries[p].0 == k {
            assert(old_self.key_seq()[p as int] == k);
            assert(old_self.key_seq().contains(k));
            self.entries.set(p, (k, v));
            assert(self.key_seq() =~= old_self.key_seq());
            assert(self@ =~= old_map.insert(k, v)) by {
                assert forall|x: PeerId| #[trigger] self@.contains_key(x) <==> old_map.insert(
                    k,
                    v,
                ).contains_key(x) by {}
                assert forall|x: PeerId| #[trigger]
                    self@.contains_key(x) implies self@[x] == old_map.insert(k, v)[x] by {
                    let i = choose|i: int| 0 <= i < self.key_seq().len() && self.key_seq()[i] == x;
                    self.lemma_entry(i);
                    if i != p {
                        old_self.lemma_entry(i);
                        if i < p {
                            assert(peer_lt(old_self.key_seq()[i], old_self.key_seq()[p as int]));
                        } else {
                            assert(peer_lt(old_self.key_seq()[p as int], old_self.key_seq()[i]));
                        }
                        lemma_lt_irreflexive(k);
                    }
                }
            }
        } else {
            proof {
                if p < n {
                    lemma_lt_total(self.key_seq()[p as int], k);
                }
            }
            self.entries.insert(p, (k, v));
            assert(self.key_seq() =~= old_self.key_seq().insert(p as int, k));
            assert(self.wf()) by {
                assert forall|i: int, j: int| 0 <= i < j < self.key_seq().len() implies peer_lt(
                    #[trigger] self.key_seq()[i],
                    #[trigger] self.key_seq()[j],
                ) by {
                    let ks = old_self.key_seq();
                    if j < p {
                        assert(peer_lt(ks[i], ks[j]));
                    } else if j == p {
                        assert(peer_lt(ks[i], k));
                    } else if i < p {
                        assert(peer_lt(ks[i], k));
                        assert(peer_lt(k, ks[p as int]));
                        if j - 1 > p {
                            assert(peer_lt(ks[p as int], ks[j - 1]));
                            lemma_lt_transitive(k, ks[p as int], ks[j - 1]);
                        }
                        lemma_lt_transitive(ks[i], k, ks[j - 1]);
                    } else if i == p {
                        assert(peer_lt(k, ks[p as int]));
                        if j - 1 > p {
                            assert(peer_lt(ks[p as int], ks[j - 1]));
                            lemma_lt_transitive(k, ks[p as int], ks[j - 1]);
                        }
                    } else {
                        assert(peer_lt(ks[i - 1], ks[j - 1]));
                    }
                }
            }
            assert(self@ =~= old_map.insert(k, v)) by {
                assert forall|x: PeerId| #[trigger] self@.contains_key(x) <==> old_map.insert(
                    k,
                    v,
                ).contains_key(x) by {
                    if old_self.key_seq().contains(x) {
                        let i = choose|i: int|
                            0 <= i < old_self.key_seq().len() && old_self.key_seq()[i] == x;
                        if i < p {
                            assert(self.key_seq()[i] == x);
                        } else {
                            assert(self.key_seq()[i + 1] == x);
                        }
                    }
                    if x == k {
                        assert(self.key_seq()[p as int] == x);
                    }
                    if self.key_seq().contains(x) && x != k {
                        let i = choose|i: int|
                            0 <= i < self.key_seq().len() && self.key_seq()[i] == x;
                        if i < p {
                            assert(old_self.key_seq()[i] == x);
                        } else {
                            assert(old_self.key_seq()[i - 1] == x);
                        }
                    }
                }
                assert forall|x: PeerId| #[trigger]
                    self@.contains_key(x) implies self@[x] == old_map.insert(k, v)[x] by {
                    let i = choose|i: int| 0 <= i < self.key_seq().len() && self.key_seq()[i] == x;
                    self.lemma_entry(i);
                    if i < p {
                        old_self.lemma_entry(i);
                    } else if i > p {
                        old_self.lemma_entry(i - 1);
                    }
                }
            }
        }
    }

    /// Removes the value held for `k`, if any.
    pub fn remove(&mut self, k: &PeerId)
        requires
            old(self).wf(),
        ensures
            final(self).wf(),
            final(self)@ == old(self)@.remove(*k),
    {
        let n = self.entries.len();
        let mut p: usize = 0;
        while p < n && self.entries[p].0 != *k
            invariant
                n == self.entries@.len(),
                p <= n,
                self.wf(),
                forall|i: int| 0 <= i < p ==> #[trigger] self.key_seq()[i] != *k,
            decreases n - p,
        {
            p += 1;
        }
        let ghost old_map = self@;
        let ghost old_self = *self;
        if p < n {
            let _ = self.entries.remove(p);
            assert(self.key_seq() =~= old_self.key_seq().remove(p as int));
            assert(self.wf()) by {
                assert forall|i: int, j: int| 0 <= i < j < self.key_seq().len() implies peer_lt(
                    #[trigger] self.key_seq()[i],
                    #[trigger] self.key_seq()[j],
                ) by {
                    let ks = old_self.key_seq();
                    if j < p {
                        assert(peer_lt(ks[i], ks[j]));
                    } else if i < p {
                        assert(peer_lt(ks[i], ks[j + 1]));
                    } else {
                        assert(peer_lt(ks[i + 1], ks[j + 1]));
                    }
                }
            }
            assert(self@ =~= old_map.remove(*k)) by {
                assert forall|x: PeerId| #[trigger] self@.contains_key(x) <==> old_map.remove(
                    *k,
                ).contains_key(x) by {
                    if old_self.key_seq().contains(x) && x != *k {
                        let i = choose|i: int|
                            0 <= i < old_self.key_seq().len() && old_self.key_seq()[i] == x;
                        if i < p {
                            assert(self.key_seq()[i] == x);
                        } else {
                            assert(i != p);
                            assert(self.key_seq()[i - 1] == x);
                        }
                    }
                    if self.key_seq().contains(x) {
                        let i = choose|i: int|
                            0 <= i < self.key_seq().len() && self.key_seq()[i] == x;
                        if i < p {
                            assert(old_self.key_seq()[i] == x);
                            assert(peer_lt(old_self.key_seq()[i], old_self.key_seq()[p as int]));
                            lemma_lt_irreflexive(x);
                        } else {
                            assert(old_self.key_seq()[i + 1] == x);
                            assert(peer_lt(
                                old_self.key_seq()[p as int],
                                old_self.key_seq()[i + 1],
                            ));
                            lemma_lt_irreflexive(x);
                        }
                    }
                }
                assert forall|x: PeerId| #[trigger]
                    self@.contains_key(x) implies self@[x] == old_map.remove(*k)[x] by {
                    let i = choose|i: int| 0 <= i < self.key_seq().len() && self.key_seq()[i] == x;
                    self.lemma_entry(i);
                    if i < p {
                        old_self.lemma_entry(i);
                    } else {
                        old_self.lemma_entry(i + 1);
                    }
                }
            }
        } else {
            assert(!self.key_seq().contains(*k));
            assert(self@ =~= old_map.remove(*k));
        }
    }
}

} // verus!
