//! The peers seen on a gossip topic, with expiry of those not seen for a
//! while. Times are milliseconds on one clock; a peer is fresh while no more
//! than the expiration timeout has passed since it was last seen.
use vstd::prelude::*;

use crate::pairmap::PairMap;

verus! {

/// Information about a known peer.
#[derive(Debug)]
pub struct PeerInfo {
    pub node_id: [u8; 32],
    /// When the peer was last seen, in milliseconds.
    pub last_seen: u64,
    pub name: Option<String>,
    pub connected: bool,
}

impl PeerInfo {
    /// A connected, unnamed peer seen at `now`.
    pub fn new_at(node_id: [u8; 32], now: u64) -> (p: Self)
        ensures
            p.node_id == node_id && p.last_seen == now && p.name is None && p.connected,
    {
        PeerInfo { node_id, last_seen: now, name: None, connected: true }
    }

    /// A connected, unnamed peer seen now, by the wall clock.
    pub fn new(node_id: [u8; 32]) -> (p: Self)
        ensures
            p.node_id == node_id && p.name is None && p.connected,
    {
        Self::new_at(node_id, crate::clock::now_millis())
    }

    /// Mark the peer seen at `now`.
    pub fn touch_at(&mut self, now: u64)
        ensures
            *final(self) == (PeerInfo { last_seen: now, ..*old(self) }),
    {
        self.last_seen = now;
    }

    /// Mark the peer seen now.
    pub fn touch(&mut self)
        ensures
            final(self).node_id == old(self).node_id && final(self).name == old(self).name && final(self).connected
                == old(self).connected,
    {
        self.touch_at(crate::clock::now_millis());
    }

    /// A copy of the peer.
    pub fn duplicate(&self) -> (p: Self)
        ensures
            p == *self,
    {
        let name = match &self.name {
            Some(n) => Some(n.clone()),
            None => None,
        };
        PeerInfo { node_id: self.node_id, last_seen: self.last_seen, name, connected: self.connected }
    }
}

/// The time from `then` to `now`, zero when `then` is later.
pub open spec fn elapsed(now: u64, then: u64) -> nat {
    if now >= then {
        (now - then) as nat
    } else {
        0
    }
}

/// The peer has been seen within `timeout` of `now`.
pub open spec fn is_fresh(p: PeerInfo, now: u64, timeout: u64) -> bool {
    elapsed(now, p.last_seen) <= timeout
}

/// `r` lists the fresh peers of `m` (only the connected ones when asked),
/// each once, as they are stored.
pub open spec fn lists_fresh(
    m: Map<Seq<u8>, PeerInfo>,
    now: u64,
    timeout: u64,
    connected_only: bool,
    r: Seq<PeerInfo>,
) -> bool {
    &&& forall|j: int|
        0 <= j < r.len() ==> {
            &&& m.contains_key(#[trigger] r[j].node_id@)
            &&& m[r[j].node_id@] == r[j]
            &&& is_fresh(r[j], now, timeout)
            &&& (connected_only ==> r[j].connected)
        }
    &&& forall|k: Seq<u8>|
        #![trigger m[k]]
        m.contains_key(k) && is_fresh(m[k], now, timeout) && (connected_only ==> m[k].connected) ==> exists|j: int|
            0 <= j < r.len() && #[trigger] r[j].node_id@ == k
    &&& forall|i: int, j: int| 0 <= i < j < r.len() ==> r[i].node_id@ != r[j].node_id@
}

/// `after` keeps exactly the peers of `before` that are fresh at `now`.
pub open spec fn pruned(before: Map<Seq<u8>, PeerInfo>, after: Map<Seq<u8>, PeerInfo>, now: u64, timeout: u64) -> bool {
    after == Map::new(|k: Seq<u8>| before.contains_key(k) && is_fresh(before[k], now, timeout), |k: Seq<u8>| before[k])
}

/// `after` is `before` with `node` seen at `now`: connected, its name
/// replaced when one is given.
pub open spec fn touched(
    before: Map<Seq<u8>, PeerInfo>,
    after: Map<Seq<u8>, PeerInfo>,
    node: [u8; 32],
    name: Option<Seq<char>>,
    now: u64,
) -> bool {
    &&& after.contains_key(node@)
    &&& after.remove(node@) == before.remove(node@)
    &&& after[node@].node_id == node
    &&& after[node@].last_seen == now
    &&& after[node@].connected
    &&& match name {
        Some(n) => after[node@].name matches Some(s) && s@ == n,
        None => after[node@].name == (if before.contains_key(node@) {
            before[node@].name
        } else {
            None
        }),
    }
}

/// The text of an optional name.
pub open spec fn name_view(name: Option<&str>) -> Option<Seq<char>> {
    match name {
        Some(n) => Some(n@),
        None => None,
    }
}

/// The peers seen on a topic, keyed by node identity.
pub struct NeighborMap {
    /// Each peer is stored under the pair (its identity, its identity).
    peers: PairMap<PeerInfo>,
    /// Milliseconds after which an unseen peer expires.
    expiration_timeout: u64,
}

impl NeighborMap {
    /// The peers, by node identity.
    pub closed spec fn peers(&self) -> Map<Seq<u8>, PeerInfo> {
        Map::new(|k: Seq<u8>| self.peers@.contains_key((k, k)), |k: Seq<u8>| self.peers@[(k, k)])
    }

    /// The expiration timeout in milliseconds.
    pub closed spec fn timeout(&self) -> u64 {
        self.expiration_timeout
    }

    /// Every stored pair is a peer's identity twice, under its own identity.
    pub closed spec fn wf(&self) -> bool {
        &&& self.peers.wf()
        &&& forall|a: Seq<u8>, b: Seq<u8>| #[trigger]
            self.peers@.contains_key((a, b)) ==> a == b && self.peers@[(a, b)].node_id@ == a
    }

    proof fn lemma_dom(&self)
        requires
            self.wf(),
        ensures
            self.peers().dom().len() == self.peers@.dom().len(),
            self.peers().dom().finite(),
            self.peers@.dom().finite(),
    {
        self.peers.lemma_key_seq();
        let ks = self.peers.key_seq();
        let d = self.peers@.dom();
        assert(d =~= ks.to_set());
        vstd::seq_lib::seq_to_set_is_finite(ks);
        let pd = self.peers().dom();
        let fst = |x: (Seq<u8>, Seq<u8>)| x.0;
        let f = |k: Seq<u8>| (k, k);
        assert(pd =~= d.map(fst)) by {
            assert forall|k: Seq<u8>| pd.contains(k) implies d.map(fst).contains(k) by {
                assert(d.contains((k, k)));
                assert(fst((k, k)) == k);
            }
            assert forall|k: Seq<u8>| d.map(fst).contains(k) implies pd.contains(k) by {
                let x = choose|x: (Seq<u8>, Seq<u8>)| d.contains(x) && fst(x) == k;
                assert(self.peers@.contains_key(x));
                assert(x.0 == x.1);
            }
        }
        d.lemma_map_finite(fst);
        assert(pd.map(f) =~= d) by {
            assert forall|x: (Seq<u8>, Seq<u8>)| d.contains(x) implies pd.map(f).contains(x) by {
                assert(self.peers@.contains_key(x));
                assert(x.0 == x.1);
                assert(pd.contains(x.0));
                assert(f(x.0) == x);
            }
        }
        assert(vstd::relations::injective_on(f, pd));
        vstd::set_lib::lemma_map_size(pd, d, f);
    }

    /// An empty map whose peers expire after `expiration_timeout`
    /// milliseconds unseen; nothing expires them but `cleanup`.
    pub fn new_without_cleanup(expiration_timeout: u64) -> (m: Self)
        ensures
            m.wf(),
            m.peers() == Map::<Seq<u8>, PeerInfo>::empty(),
            m.timeout() == expiration_timeout,
    {
        let m = NeighborMap { peers: PairMap::new(), expiration_timeout };
        assert(m.peers() =~= Map::<Seq<u8>, PeerInfo>::empty());
        m
    }

    fn put(&mut self, p: PeerInfo)
        requires
            old(self).wf(),
        ensures
            final(self).wf(),
            final(self).peers() == old(self).peers().insert(p.node_id@, p),
            final(self).timeout() == old(self).timeout(),
    {
        let id = p.node_id;
        self.peers.insert(id, id, p);
        assert(self.peers() =~= old(self).peers().insert(id@, p));
    }

    /// Record `node` as seen at `now`, connected, with `name` when one is
    /// given.
    pub fn touch_at(&mut self, node: [u8; 32], name: Option<&str>, now: u64)
        requires
            old(self).wf(),
        ensures
            final(self).wf(),
            final(self).timeout() == old(self).timeout(),
            touched(old(self).peers(), final(self).peers(), node, name_view(name), now),
    {
        let mut p = match self.peers.get(&node, &node) {
            Some(existing) => existing.duplicate(),
            None => PeerInfo::new_at(node, now),
        };
        p.touch_at(now);
        p.node_id = node;
        match name {
            Some(n) => {
                p.name = Some(n.to_string());
            },
            None => {},
        }
        p.connected = true;
        proof {
            if old(self).peers().contains_key(node@) {
                assert(old(self).peers@.contains_key((node@, node@)));
            }
            match name {
                Some(n) => {},
                None => {
                    assert(p.name == (if old(self).peers().contains_key(node@) {
                        old(self).peers()[node@].name
                    } else {
                        None
                    }));
                },
            }
        }
        self.put(p);
        assert(self.peers()[node@] == p);
        assert(self.peers().remove(node@) =~= old(self).peers().remove(node@));
    }

    /// Record `node` as seen now, by the wall clock.
    pub fn touch(&mut self, node: [u8; 32], name: Option<&str>)
        requires
            old(self).wf(),
        ensures
            final(self).wf(),
            final(self).timeout() == old(self).timeout(),
            exists|now: u64| #[trigger] touched(old(self).peers(), final(self).peers(), node, name_view(name), now),
    {
        let now = crate::clock::now_millis();
        self.touch_at(node, name, now);
    }

    /// Mark a known peer disconnected, keeping it.
    pub fn mark_disconnected(&mut self, node: &[u8; 32])
        requires
            old(self).wf(),
        ensures
            final(self).wf(),
            final(self).timeout() == old(self).timeout(),
            final(self).peers() == (if old(self).peers().contains_key(node@) {
                old(self).peers().insert(node@, PeerInfo { connected: false, ..old(self).peers()[node@] })
            } else {
                old(self).peers()
            }),
    {
        let found = match self.peers.get(node, node) {
            Some(existing) => Some(existing.duplicate()),
            None => None,
        };
        match found {
            Some(mut p) => {
                p.connected = false;
                self.put(p);
            },
            None => {},
        }
    }

    /// Forget a peer, handing it back.
    pub fn remove(&mut self, node: &[u8; 32]) -> (r: Option<PeerInfo>)
        requires
            old(self).wf(),
        ensures
            final(self).wf(),
            final(self).timeout() == old(self).timeout(),
            final(self).peers() == old(self).peers().remove(node@),
            match r {
                Some(p) => old(self).peers().contains_key(node@) && p == old(self).peers()[node@],
                None => !old(self).peers().contains_key(node@),
            },
    {
        let r = self.peers.remove(node, node);
        assert(self.peers() =~= old(self).peers().remove(node@));
        r
    }

    /// The number of peers.
    pub fn len(&self) -> (n: usize)
        requires
            self.wf(),
        ensures
            n == self.peers().dom().len(),
    {
        proof {
            self.lemma_dom();
        }
        self.peers.len()
    }

    /// Whether no peer is known.
    pub fn is_empty(&self) -> (b: bool)
        requires
            self.wf(),
        ensures
            b == (self.peers().dom().len() == 0),
    {
        self.len() == 0
    }

    fn collect_fresh(&self, now: u64, connected_only: bool) -> (r: Vec<PeerInfo>)
        requires
            self.wf(),
        ensures
            lists_fresh(self.peers(), now, self.timeout(), connected_only, r@),
    {
        proof {
            self.peers.lemma_key_seq();
        }
        let ghost ks = self.peers.key_seq();
        let ghost m = self.peers();
        let n = self.peers.entry_count();
        let mut r: Vec<PeerInfo> = Vec::new();
        let ghost mut idx: Seq<int> = Seq::empty();
        let mut i: usize = 0;
        while i < n
            invariant
                self.wf(),
                m == self.peers(),
                n == ks.len(),
                ks == self.peers.key_seq(),
                ks.no_duplicates(),
                forall|k: (Seq<u8>, Seq<u8>)| self.peers@.contains_key(k) <==> ks.contains(k),
                i <= n,
                idx.len() == r@.len(),
                forall|j: int|
                    #![trigger r@[j]]
                    0 <= j < r@.len() ==> {
                        &&& 0 <= idx[j] < i
                        &&& ks[idx[j]] == (r@[j].node_id@, r@[j].node_id@)
                        &&& m.contains_key(r@[j].node_id@)
                        &&& m[r@[j].node_id@] == r@[j]
                        &&& is_fresh(r@[j], now, self.timeout())
                        &&& (connected_only ==> r@[j].connected)
                    },
                forall|a: int, b: int| 0 <= a < b < idx.len() ==> idx[a] < idx[b],
                forall|j: int| 0 <= j < idx.len() ==> 0 <= #[trigger] idx[j] < i,
                forall|q: int|
                    #![trigger ks[q]]
                    0 <= q < i && m.contains_key(ks[q].0) && is_fresh(m[ks[q].0], now, self.timeout()) && (
                    connected_only ==> m[ks[q].0].connected) ==> exists|j: int| 0 <= j < idx.len() && idx[j] == q,
            decreases n - i,
        {
            let (ka, kb, p) = self.peers.entry(i);
            proof {
                assert(ka@ == kb@);
                assert(p.node_id@ == ka@);
                assert(m.contains_key(ka@));
                assert(m[ka@] == *p);
            }
            let gap: u64 = if now >= p.last_seen {
                now - p.last_seen
            } else {
                0
            };
            let ghost idx0 = idx;
            if gap <= self.expiration_timeout && (!connected_only || p.connected) {
                r.push(p.duplicate());
                proof {
                    idx = idx.push(i as int);
                }
            }
            proof {
                assert forall|q: int|
                    #![trigger ks[q]]
                    0 <= q < i + 1 && m.contains_key(ks[q].0) && is_fresh(m[ks[q].0], now, self.timeout()) && (
                    connected_only ==> m[ks[q].0].connected) implies exists|j: int|
                    0 <= j < idx.len() && idx[j] == q by {
                    if q == i as int {
                        assert(ks[q].0 == ka@);
                        assert(idx[idx.len() - 1] == q);
                    } else {
                        let j = choose|j: int| 0 <= j < idx0.len() && idx0[j] == q;
                        assert(idx[j] == idx0[j]);
                    }
                }
            }
            i += 1;
        }
        proof {
            assert forall|k: Seq<u8>|
                #![trigger m[k]]
                m.contains_key(k) && is_fresh(m[k], now, self.timeout()) && (connected_only
                    ==> m[k].connected) implies exists|j: int| 0 <= j < r@.len() && #[trigger] r@[j].node_id@ == k by {
                assert(self.peers@.contains_key((k, k)));
                assert(ks.contains((k, k)));
                let q = choose|q: int| 0 <= q < ks.len() && ks[q] == (k, k);
                assert(ks[q].0 == k);
                let j = choose|j: int| 0 <= j < idx.len() && idx[j] == q;
                assert(ks[idx[j]] == (r@[j].node_id@, r@[j].node_id@));
                assert(r@[j].node_id@ == k);
            }
            assert forall|a: int, b: int| 0 <= a < b < r@.len() implies r@[a].node_id@ != r@[b].node_id@ by {
                assert(idx[a] < idx[b]);
                assert(ks[idx[a]] != ks[idx[b]]);
                assert(ks[idx[a]] == (r@[a].node_id@, r@[a].node_id@));
                assert(ks[idx[b]] == (r@[b].node_id@, r@[b].node_id@));
            }
        }
        r
    }

    /// The peers fresh at `now`.
    pub fn list_at(&self, now: u64) -> (r: Vec<PeerInfo>)
        requires
            self.wf(),
        ensures
            lists_fresh(self.peers(), now, self.timeout(), false, r@),
    {
        self.collect_fresh(now, false)
    }

    /// The connected peers fresh at `now`.
    pub fn list_connected_at(&self, now: u64) -> (r: Vec<PeerInfo>)
        requires
            self.wf(),
        ensures
            lists_fresh(self.peers(), now, self.timeout(), true, r@),
    {
        self.collect_fresh(now, true)
    }

    /// The peers fresh now, by the wall clock.
    pub fn list(&self) -> (r: Vec<PeerInfo>)
        requires
            self.wf(),
        ensures
            exists|now: u64| #[trigger] lists_fresh(self.peers(), now, self.timeout(), false, r@),
    {
        self.list_at(crate::clock::now_millis())
    }

    /// The connected peers fresh now, by the wall clock.
    pub fn list_connected(&self) -> (r: Vec<PeerInfo>)
        requires
            self.wf(),
        ensures
            exists|now: u64| #[trigger] lists_fresh(self.peers(), now, self.timeout(), true, r@),
    {
        self.list_connected_at(crate::clock::now_millis())
    }

    /// Remove the peers expired at `now`, counting them.
    pub fn cleanup_at(&mut self, now: u64) -> (n: usize)
        requires
            old(self).wf(),
        ensures
            final(self).wf(),
            final(self).timeout() == old(self).timeout(),
            pruned(old(self).peers(), final(self).peers(), now, old(self).timeout()),
            n == old(self).peers().dom().len() - final(self).peers().dom().len(),
    {
        proof {
            self.peers.lemma_key_seq();
            self.lemma_dom();
        }
        let ghost m0 = self.peers();
        let ghost ks = self.peers.key_seq();
        let count = self.peers.entry_count();
        let mut expired: Vec<[u8; 32]> = Vec::new();
        let mut i: usize = 0;
        while i < count
            invariant
                *self == *old(self),
                m0 == old(self).peers(),
                self.wf(),
                count == ks.len(),
                ks == self.peers.key_seq(),
                forall|k: (Seq<u8>, Seq<u8>)| self.peers@.contains_key(k) <==> ks.contains(k),
                i <= count,
                forall|j: int|
                    0 <= j < expired@.len() ==> m0.contains_key(#[trigger] expired@[j]@) && !is_fresh(
                        m0[expired@[j]@],
                        now,
                        self.timeout(),
                    ),
                forall|q: int|
                    0 <= q < i && m0.contains_key(#[trigger] ks[q].0) && !is_fresh(m0[ks[q].0], now, self.timeout())
                        ==> exists|j: int| 0 <= j < expired@.len() && #[trigger] expired@[j]@ == ks[q].0,
            decreases count - i,
        {
            let (ka, kb, p) = self.peers.entry(i);
            let gap: u64 = if now >= p.last_seen {
                now - p.last_seen
            } else {
                0
            };
            if gap > self.expiration_timeout {
                let ghost e0 = expired@;
                expired.push(*ka);
                proof {
                    assert(ka@ == kb@);
                    assert(m0.contains_key(ka@));
                    assert(expired@[e0.len() as int]@ == ka@);
                    assert forall|q: int|
                        0 <= q < i + 1 && m0.contains_key(#[trigger] ks[q].0) && !is_fresh(
                            m0[ks[q].0],
                            now,
                            self.timeout(),
                        ) implies exists|j: int| 0 <= j < expired@.len() && #[trigger] expired@[j]@ == ks[q].0 by {
                        if q == i as int {
                            assert(expired@[e0.len() as int]@ == ks[q].0);
                        } else {
                            let j = choose|j: int| 0 <= j < e0.len() && #[trigger] e0[j]@ == ks[q].0;
                            assert(expired@[j] == e0[j]);
                        }
                    }
                }
            } else {
                proof {
                    assert(ka@ == kb@);
                    assert(m0.contains_key(ka@));
                    assert(m0[ka@] == *p);
                }
            }
            i += 1;
        }
        let mut j: usize = 0;
        while j < expired.len()
            invariant
                self.wf(),
                m0 == old(self).peers(),
                ks == old(self).peers.key_seq(),
                forall|k: (Seq<u8>, Seq<u8>)| old(self).peers@.contains_key(k) <==> ks.contains(k),
                forall|q: int|
                    0 <= q < count && m0.contains_key(#[trigger] ks[q].0) && !is_fresh(m0[ks[q].0], now, old(self).timeout())
                        ==> exists|x: int| 0 <= x < expired@.len() && #[trigger] expired@[x]@ == ks[q].0,
                count == ks.len(),
                self.timeout() == old(self).timeout(),
                j <= expired@.len(),
                forall|x: int|
                    0 <= x < expired@.len() ==> m0.contains_key(#[trigger] expired@[x]@) && !is_fresh(
                        m0[expired@[x]@],
                        now,
                        old(self).timeout(),
                    ),
                forall|k: Seq<u8>|
                    #![trigger self.peers().contains_key(k)]
                    self.peers().contains_key(k) <==> (m0.contains_key(k) && !(exists|x: int|
                        0 <= x < j && #[trigger] expired@[x]@ == k)),
                forall|k: Seq<u8>| self.peers().contains_key(k) ==> #[trigger] self.peers()[k] == m0[k],
            decreases expired@.len() - j,
        {
            let id = expired[j];
            self.remove(&id);
            proof {
                assert forall|k: Seq<u8>|
                    #![trigger self.peers().contains_key(k)]
                    self.peers().contains_key(k) <==> (m0.contains_key(k) && !(exists|x: int|
                        0 <= x < j + 1 && #[trigger] expired@[x]@ == k)) by {
                    if exists|x: int| 0 <= x < j + 1 && #[trigger] expired@[x]@ == k {
                        let x = choose|x: int| 0 <= x < j + 1 && #[trigger] expired@[x]@ == k;
                        if x < j {
                        } else {
                            assert(k == id@);
                        }
                    }
                }
            }
            j += 1;
        }
        proof {
            let target = Map::new(
                |k: Seq<u8>| m0.contains_key(k) && is_fresh(m0[k], now, old(self).timeout()),
                |k: Seq<u8>| m0[k],
            );
            assert forall|k: Seq<u8>| self.peers().contains_key(k) <==> target.contains_key(k) by {
                if m0.contains_key(k) && !is_fresh(m0[k], now, old(self).timeout()) {
                    assert(old(self).peers@.contains_key((k, k)));
                    assert(ks.contains((k, k)));
                    let q = choose|q: int| 0 <= q < ks.len() && ks[q] == (k, k);
                    assert(ks[q].0 == k);
                    let x = choose|x: int| 0 <= x < expired@.len() && #[trigger] expired@[x]@ == ks[q].0;
                    assert(expired@[x]@ == k);
                }
                if self.peers().contains_key(k) && m0.contains_key(k) {
                    if !is_fresh(m0[k], now, old(self).timeout()) {
                        assert(old(self).peers@.contains_key((k, k)));
                        assert(ks.contains((k, k)));
                        let q = choose|q: int| 0 <= q < ks.len() && ks[q] == (k, k);
                        assert(ks[q].0 == k);
                        let x = choose|x: int| 0 <= x < expired@.len() && #[trigger] expired@[x]@ == ks[q].0;
                        assert(expired@[x]@ == k);
                    }
                }
                if target.contains_key(k) {
                    if !self.peers().contains_key(k) {
                        let x = choose|x: int| 0 <= x < expired@.len() && #[trigger] expired@[x]@ == k;
                        assert(!is_fresh(m0[expired@[x]@], now, old(self).timeout()));
                    }
                }
            }
            assert(self.peers() =~= target);
            self.lemma_dom();
            assert(self.peers().dom().subset_of(m0.dom()));
            vstd::set_lib::lemma_len_subset(self.peers().dom(), m0.dom());
        }
        let before = count;
        let after = self.peers.len();
        proof {
            self.lemma_dom();
        }
        before - after
    }

    /// Remove the peers expired now, by the wall clock, counting them.
    pub fn cleanup(&mut self) -> (n: usize)
        requires
            old(self).wf(),
        ensures
            final(self).wf(),
            final(self).timeout() == old(self).timeout(),
            exists|now: u64| #[trigger] pruned(old(self).peers(), final(self).peers(), now, old(self).timeout()),
            n == old(self).peers().dom().len() - final(self).peers().dom().len(),
    {
        self.cleanup_at(crate::clock::now_millis())
    }
}

/// A peer touched at `now` is listed as fresh at `now` under any timeout.
pub proof fn law_touched_peer_is_listed(
    before: Map<Seq<u8>, PeerInfo>,
    after: Map<Seq<u8>, PeerInfo>,
    node: [u8; 32],
    name: Option<Seq<char>>,
    now: u64,
    timeout: u64,
    listed: Seq<PeerInfo>,
)
    requires
        touched(before, after, node, name, now),
        lists_fresh(after, now, timeout, true, listed),
    ensures
        exists|j: int| 0 <= j < listed.len() && #[trigger] listed[j].node_id@ == node@,
{
    assert(is_fresh(after[node@], now, timeout));
}

} // verus!
