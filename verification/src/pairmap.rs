//! A map keyed by pairs of 32-byte identities (a blob and a provider, a
//! reporter and a provider), kept as a vector of distinct keys. vstd
//! specifies `HashMap` lookups only for keys of integer type, and these
//! keys are pairs of byte arrays, so the map keeps its own entries with the
//! invariant that no key occurs twice.
use vstd::prelude::*;

use crate::resilience::{bytes_eq, pair_views};

verus! {

/// The key of an entry, by the views of its two identities.
pub open spec fn entry_key<V>(e: ([u8; 32], [u8; 32], V)) -> (Seq<u8>, Seq<u8>) {
    (e.0@, e.1@)
}

/// Some entry of `s` has key `k`.
pub open spec fn has_key<V>(s: Seq<([u8; 32], [u8; 32], V)>, k: (Seq<u8>, Seq<u8>)) -> bool {
    exists|i: int| 0 <= i < s.len() && #[trigger] entry_key(s[i]) == k
}

/// No two entries of `s` share a key.
pub open spec fn keys_unique<V>(s: Seq<([u8; 32], [u8; 32], V)>) -> bool {
    forall|i: int, j: int|
        0 <= i < s.len() && 0 <= j < s.len() && entry_key(#[trigger] s[i]) == entry_key(
            #[trigger] s[j],
        ) ==> i == j
}

/// The map that the entries of `s` describe.
pub open spec fn entries_map<V>(s: Seq<([u8; 32], [u8; 32], V)>) -> Map<(Seq<u8>, Seq<u8>), V> {
    Map::new(
        |k: (Seq<u8>, Seq<u8>)| has_key(s, k),
        |k: (Seq<u8>, Seq<u8>)|
            s[choose|i: int| 0 <= i < s.len() && #[trigger] entry_key(s[i]) == k].2,
    )
}

proof fn lemma_entry_value<V>(s: Seq<([u8; 32], [u8; 32], V)>, i: int)
    requires
        keys_unique(s),
        0 <= i < s.len(),
    ensures
        entries_map(s).contains_key(entry_key(s[i])),
        entries_map(s)[entry_key(s[i])] == s[i].2,
{
    let k = entry_key(s[i]);
    assert(has_key(s, k));
    let j = choose|j: int| 0 <= j < s.len() && #[trigger] entry_key(s[j]) == k;
    assert(entry_key(s[j]) == entry_key(s[i]));
}

/// A map from pairs of identities to values.
#[derive(Debug)]
pub struct PairMap<V> {
    entries: Vec<([u8; 32], [u8; 32], V)>,
}

impl<V> View for PairMap<V> {
    type V = Map<(Seq<u8>, Seq<u8>), V>;

    closed spec fn view(&self) -> Map<(Seq<u8>, Seq<u8>), V> {
        entries_map(self.entries@)
    }
}

impl<V> PairMap<V> {
    /// The keys are distinct.
    pub closed spec fn wf(&self) -> bool {
        keys_unique(self.entries@)
    }

    pub fn new() -> (m: PairMap<V>)
        ensures
            m.wf(),
            m@ == Map::<(Seq<u8>, Seq<u8>), V>::empty(),
    {
        let m = PairMap { entries: Vec::new() };
        assert(m@ =~= Map::empty());
        m
    }

    /// Number of entries.
    pub fn len(&self) -> (n: usize)
        requires
            self.wf(),
        ensures
            n == self@.dom().len(),
    {
        proof {
            self.lemma_len();
        }
        self.entries.len()
    }

    proof fn lemma_len(&self)
        requires
            self.wf(),
        ensures
            self.entries@.len() == self@.dom().len(),
        decreases self.entries@.len(),
    {
        let s = self.entries@;
        let keys = Seq::new(s.len(), |i: int| entry_key(s[i]));
        assert(keys.no_duplicates());
        assert(keys.to_set() =~= self@.dom()) by {
            assert forall|k: (Seq<u8>, Seq<u8>)| keys.to_set().contains(k) <==> self@.dom().contains(k) by {
                if self@.dom().contains(k) {
                    let i = choose|i: int| 0 <= i < s.len() && #[trigger] entry_key(s[i]) == k;
                    assert(keys[i] == k);
                }
                if keys.to_set().contains(k) {
                    let i = choose|i: int| 0 <= i < keys.len() && keys[i] == k;
                    assert(entry_key(s[i]) == k);
                }
            }
        }
        keys.unique_seq_to_set();
    }

    /// The position of key `(a, b)`.
    fn find(&self, a: &[u8; 32], b: &[u8; 32]) -> (r: Option<usize>)
        requires
            self.wf(),
        ensures
            match r {
                Some(i) => i < self.entries@.len() && entry_key(self.entries@[i as int]) == (a@, b@),
                None => !self@.contains_key((a@, b@)),
            },
    {
        let mut i: usize = 0;
        while i < self.entries.len()
            invariant
                i <= self.entries@.len(),
                forall|j: int| 0 <= j < i ==> #[trigger] entry_key(self.entries@[j]) != (a@, b@),
            decreases self.entries.len() - i,
        {
            if bytes_eq(&self.entries[i].0, a) && bytes_eq(&self.entries[i].1, b) {
                return Some(i);
            }
            i += 1;
        }
        None
    }

    /// The value at key `(a, b)`.
    pub fn get(&self, a: &[u8; 32], b: &[u8; 32]) -> (r: Option<&V>)
        requires
            self.wf(),
        ensures
            match r {
                Some(v) => self@.contains_key((a@, b@)) && *v == self@[(a@, b@)],
                None => !self@.contains_key((a@, b@)),
            },
    {
        match self.find(a, b) {
            Some(i) => {
                proof {
                    lemma_entry_value(self.entries@, i as int);
                }
                Some(&self.entries[i].2)
            },
            None => None,
        }
    }

    /// Set key `(a, b)` to `v`.
    pub fn insert(&mut self, a: [u8; 32], b: [u8; 32], v: V)
        requires
            old(self).wf(),
        ensures
            final(self).wf(),
            final(self)@ == old(self)@.insert((a@, b@), v),
    {
        let ghost k = (a@, b@);
        let ghost s0 = self.entries@;
        match self.find(&a, &b) {
            Some(i) => {
                self.entries[i] = (a, b, v);
                proof {
                    let s1 = self.entries@;
                    assert(s1 =~= s0.update(i as int, (a, b, v)));
                    assert forall|p: int, q: int|
                        0 <= p < s1.len() && 0 <= q < s1.len() && entry_key(#[trigger] s1[p])
                            == entry_key(#[trigger] s1[q]) implies p == q by {
                        if p != i as int && q != i as int {
                            assert(entry_key(s0[p]) == entry_key(s0[q]));
                        } else if p == i as int && q != i as int {
                            assert(entry_key(s0[q]) == entry_key(s0[i as int]));
                        } else if q == i as int && p != i as int {
                            assert(entry_key(s0[p]) == entry_key(s0[i as int]));
                        }
                    }
                    assert forall|kk: (Seq<u8>, Seq<u8>)| #[trigger]
                        has_key(s1, kk) <==> (has_key(s0, kk) || kk == k) by {
                        if has_key(s0, kk) {
                            let j = choose|j: int| 0 <= j < s0.len() && #[trigger] entry_key(s0[j]) == kk;
                            if j == i as int {
                                assert(entry_key(s1[j]) == kk);
                            } else {
                                assert(entry_key(s1[j]) == kk);
                            }
                        }
                        if has_key(s1, kk) {
                            let j = choose|j: int| 0 <= j < s1.len() && #[trigger] entry_key(s1[j]) == kk;
                            if j != i as int {
                                assert(entry_key(s0[j]) == kk);
                            }
                        }
                        if kk == k {
                            assert(entry_key(s1[i as int]) == kk);
                        }
                    }
                    assert forall|kk: (Seq<u8>, Seq<u8>)| has_key(s1, kk) implies entries_map(s1)[kk]
                        == old(self)@.insert(k, v)[kk] by {
                        let j = choose|j: int| 0 <= j < s1.len() && #[trigger] entry_key(s1[j]) == kk;
                        lemma_entry_value(s1, j);
                        if j != i as int {
                            lemma_entry_value(s0, j);
                        }
                    }
                    assert(self@ =~= old(self)@.insert(k, v));
                }
            },
            None => {
                self.entries.push((a, b, v));
                proof {
                    let s1 = self.entries@;
                    assert(s1 =~= s0.push((a, b, v)));
                    assert forall|p: int, q: int|
                        0 <= p < s1.len() && 0 <= q < s1.len() && entry_key(#[trigger] s1[p])
                            == entry_key(#[trigger] s1[q]) implies p == q by {
                        if p < s0.len() && q < s0.len() {
                            assert(entry_key(s0[p]) == entry_key(s0[q]));
                        } else if p < s0.len() {
                            assert(has_key(s0, entry_key(s0[p])));
                        } else if q < s0.len() {
                            assert(has_key(s0, entry_key(s0[q])));
                        }
                    }
                    assert forall|kk: (Seq<u8>, Seq<u8>)| #[trigger]
                        has_key(s1, kk) <==> (has_key(s0, kk) || kk == k) by {
                        if has_key(s0, kk) {
                            let j = choose|j: int| 0 <= j < s0.len() && #[trigger] entry_key(s0[j]) == kk;
                            assert(entry_key(s1[j]) == kk);
                        }
                        if has_key(s1, kk) {
                            let j = choose|j: int| 0 <= j < s1.len() && #[trigger] entry_key(s1[j]) == kk;
                            if j < s0.len() {
                                assert(entry_key(s0[j]) == kk);
                            }
                        }
                        if kk == k {
                            assert(entry_key(s1[s0.len() as int]) == kk);
                        }
                    }
                    assert forall|kk: (Seq<u8>, Seq<u8>)| has_key(s1, kk) implies entries_map(s1)[kk]
                        == old(self)@.insert(k, v)[kk] by {
                        let j = choose|j: int| 0 <= j < s1.len() && #[trigger] entry_key(s1[j]) == kk;
                        lemma_entry_value(s1, j);
                        if j < s0.len() {
                            lemma_entry_value(s0, j);
                        }
                    }
                    assert(self@ =~= old(self)@.insert(k, v));
                }
            },
        }
    }

    /// Remove key `(a, b)`, handing back its value.
    pub fn remove(&mut self, a: &[u8; 32], b: &[u8; 32]) -> (r: Option<V>)
        requires
            old(self).wf(),
        ensures
            final(self).wf(),
            final(self)@ == old(self)@.remove((a@, b@)),
            match r {
                Some(v) => old(self)@.contains_key((a@, b@)) && v == old(self)@[(a@, b@)],
                None => !old(self)@.contains_key((a@, b@)),
            },
    {
        let ghost k = (a@, b@);
        let ghost s0 = self.entries@;
        match self.find(a, b) {
            Some(i) => {
                proof {
                    lemma_entry_value(s0, i as int);
                }
                let e = self.entries.remove(i);
                proof {
                    let s1 = self.entries@;
                    assert(s1 =~= s0.remove(i as int));
                    assert forall|p: int, q: int|
                        0 <= p < s1.len() && 0 <= q < s1.len() && entry_key(#[trigger] s1[p])
                            == entry_key(#[trigger] s1[q]) implies p == q by {
                        let p0 = if p < i {
                            p
                        } else {
                            p + 1
                        };
                        let q0 = if q < i {
                            q
                        } else {
                            q + 1
                        };
                        assert(s1[p] == s0[p0]);
                        assert(s1[q] == s0[q0]);
                    }
                    assert forall|kk: (Seq<u8>, Seq<u8>)| #[trigger]
                        has_key(s1, kk) <==> (has_key(s0, kk) && kk != k) by {
                        if has_key(s1, kk) {
                            let j = choose|j: int| 0 <= j < s1.len() && #[trigger] entry_key(s1[j]) == kk;
                            let j0 = if j < i {
                                j
                            } else {
                                j + 1
                            };
                            assert(s1[j] == s0[j0]);
                            assert(entry_key(s0[j0]) == kk);
                        }
                        if has_key(s0, kk) && kk != k {
                            let j = choose|j: int| 0 <= j < s0.len() && #[trigger] entry_key(s0[j]) == kk;
                            assert(j != i as int);
                            if j < i {
                                assert(s1[j] == s0[j]);
                                assert(entry_key(s1[j]) == kk);
                            } else {
                                assert(s1[j - 1] == s0[j]);
                                assert(entry_key(s1[j - 1]) == kk);
                            }
                        }
                    }
                    assert forall|kk: (Seq<u8>, Seq<u8>)| has_key(s1, kk) implies entries_map(s1)[kk]
                        == old(self)@.remove(k)[kk] by {
                        let j = choose|j: int| 0 <= j < s1.len() && #[trigger] entry_key(s1[j]) == kk;
                        lemma_entry_value(s1, j);
                        let j0 = if j < i {
                            j
                        } else {
                            j + 1
                        };
                        assert(s1[j] == s0[j0]);
                        lemma_entry_value(s0, j0);
                    }
                    assert(self@ =~= old(self)@.remove(k));
                }
                Some(e.2)
            },
            None => {
                assert(self@ =~= old(self)@.remove(k));
                None
            },
        }
    }

    /// The number of stored entries, for walking them by position.
    pub fn entry_count(&self) -> (n: usize)
        ensures
            n == self.key_seq().len(),
    {
        self.entries.len()
    }

    /// The keys in stored order.
    pub closed spec fn key_seq(&self) -> Seq<(Seq<u8>, Seq<u8>)> {
        self.entries@.map_values(|e: ([u8; 32], [u8; 32], V)| entry_key(e))
    }

    /// The entry stored at position `i`.
    pub fn entry(&self, i: usize) -> (r: (&[u8; 32], &[u8; 32], &V))
        requires
            self.wf(),
            i < self.key_seq().len(),
        ensures
            (r.0@, r.1@) == self.key_seq()[i as int],
            self@.contains_key((r.0@, r.1@)),
            *r.2 == self@[(r.0@, r.1@)],
    {
        proof {
            lemma_entry_value(self.entries@, i as int);
        }
        let e = &self.entries[i];
        (&e.0, &e.1, &e.2)
    }

    /// The stored keys are exactly the map's keys, each once.
    pub proof fn lemma_key_seq(&self)
        requires
            self.wf(),
        ensures
            self.key_seq().len() == self@.dom().len(),
            self.key_seq().no_duplicates(),
            forall|k: (Seq<u8>, Seq<u8>)| self@.contains_key(k) <==> self.key_seq().contains(k),
    {
        let s = self.entries@;
        let ks = self.key_seq();
        self.lemma_len();
        assert forall|k: (Seq<u8>, Seq<u8>)| self@.contains_key(k) <==> ks.contains(k) by {
            if self@.contains_key(k) {
                let i = choose|i: int| 0 <= i < s.len() && #[trigger] entry_key(s[i]) == k;
                assert(ks[i] == k);
            }
            if ks.contains(k) {
                let i = choose|i: int| 0 <= i < ks.len() && ks[i] == k;
                assert(entry_key(s[i]) == k);
            }
        }
        assert forall|i: int, j: int| 0 <= i < j < ks.len() implies ks[i] != ks[j] by {
            assert(ks[i] == entry_key(s[i]));
            assert(ks[j] == entry_key(s[j]));
        }
    }

    /// Remove every key of `keys`.
    pub fn remove_all(&mut self, keys: &Vec<([u8; 32], [u8; 32])>)
        requires
            old(self).wf(),
        ensures
            final(self).wf(),
            final(self)@ == old(self)@.remove_keys(pair_views(keys@).to_set()),
    {
        let ghost m = self@;
        let mut j: usize = 0;
        assert(pair_views(keys@).subrange(0, 0).to_set() =~= Set::empty());
        assert(m.remove_keys(Set::empty()) =~= m);
        while j < keys.len()
            invariant
                j <= keys.len(),
                self.wf(),
                self@ == m.remove_keys(pair_views(keys@).subrange(0, j as int).to_set()),
            decreases keys.len() - j,
        {
            let (a, b) = keys[j];
            let ghost pv = pair_views(keys@);
            let ghost s0 = pv.subrange(0, j as int);
            let ghost s1 = pv.subrange(0, j + 1);
            proof {
                assert(pv[j as int] == (a@, b@));
                assert forall|y: (Seq<u8>, Seq<u8>)| s1.to_set().contains(y) <==> s0.to_set().insert((a@, b@)).contains(y) by {
                    if s1.contains(y) {
                        let q = choose|q: int| 0 <= q < s1.len() && s1[q] == y;
                        if q < j {
                            assert(s0[q] == y);
                        }
                    }
                    if s0.contains(y) {
                        let q = choose|q: int| 0 <= q < s0.len() && s0[q] == y;
                        assert(s1[q] == y);
                    }
                    if y == (a@, b@) {
                        assert(s1[j as int] == y);
                    }
                }
                assert(s1.to_set() =~= s0.to_set().insert((a@, b@)));
            }
            self.remove(&a, &b);
            proof {
                assert(self@ =~= m.remove_keys(s1.to_set()));
            }
            j += 1;
        }
        assert(pair_views(keys@).subrange(0, keys@.len() as int) =~= pair_views(keys@));
    }

    /// The keys, in stored order.
    pub fn keys(&self) -> (r: Vec<([u8; 32], [u8; 32])>)
        requires
            self.wf(),
        ensures
            pair_views(r@) == self.key_seq(),
    {
        let mut r: Vec<([u8; 32], [u8; 32])> = Vec::new();
        let mut i: usize = 0;
        while i < self.entries.len()
            invariant
                i <= self.entries@.len(),
                pair_views(r@) == self.key_seq().subrange(0, i as int),
            decreases self.entries.len() - i,
        {
            let e = &self.entries[i];
            let ghost r0 = r@;
            r.push((e.0, e.1));
            proof {
                assert(self.key_seq()[i as int] == entry_key(self.entries@[i as int]));
                assert(r@ =~= r0.push((e.0, e.1)));
                assert(pair_views(r@) =~= pair_views(r0).push((e.0@, e.1@)));
                assert(pair_views(r@) =~= self.key_seq().subrange(0, i + 1));
            }
            i += 1;
        }
        assert(self.key_seq().subrange(0, self.entries@.len() as int) =~= self.key_seq());
        r
    }
}

} // verus!
