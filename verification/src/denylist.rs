//! Local and federated content filtering: devices, files and hashes that
//! discovery and fetching refuse, and signed, monotonic filter lists that
//! add rules per namespace.
use vstd::prelude::*;

use crate::catalog::CatalogRecord;
use crate::crypto::{hex_text, ed25519_public_key, ed25519_public_of, ed25519_signature_of};
use crate::error::{Result, SyncwebError};
use crate::links::{str_eq, texts};
use crate::resilience::bytes_eq;
use crate::text::{chars_of, concat_chars, string_of, trim, trim_chars, utf8_lossy, utf8_lossy_string};
use crate::wot::{author_id, sign_text, signed_payload, text_signature_valid, verify_text};

verus! {

/// The scope of a denylist rule.
#[derive(Debug)]
pub enum DenylistRule {
    Device(String),
    File { namespace_id: Option<[u8; 32]>, key: Vec<u8> },
    Hash([u8; 32]),
}

impl DenylistRule {
    /// Block a device.
    pub fn device(device: &str) -> (r: Self)
        ensures
            r matches DenylistRule::Device(d) && d@ == device@,
    {
        DenylistRule::Device(device.to_string())
    }

    /// Block a file key in every folder.
    pub fn file(key: &[u8]) -> (r: Self)
        ensures
            r matches DenylistRule::File { namespace_id, key: k } && namespace_id is None && k@ == key@,
    {
        DenylistRule::File { namespace_id: None, key: crate::text::slice_bytes(key, 0, key.len()) }
    }

    /// Block a file key in one folder.
    pub fn folder_file(namespace_id: [u8; 32], key: &[u8]) -> (r: Self)
        ensures
            r matches DenylistRule::File { namespace_id: ns, key: k } && ns == Some(namespace_id) && k@ == key@,
    {
        DenylistRule::File { namespace_id: Some(namespace_id), key: crate::text::slice_bytes(key, 0, key.len()) }
    }

    /// Block a content hash.
    pub fn hash(hash: [u8; 32]) -> (r: Self)
        ensures
            r == DenylistRule::Hash(hash),
    {
        DenylistRule::Hash(hash)
    }
}

/// Information supplied by a discovery or fetch hook.
#[derive(Debug)]
pub struct FilterContext {
    pub device: Option<String>,
    pub namespace_id: Option<[u8; 32]>,
    pub key: Option<Vec<u8>>,
    pub hash: Option<[u8; 32]>,
}

impl FilterContext {
    /// The context of a content hash alone.
    pub fn new(hash: [u8; 32]) -> (c: Self)
        ensures
            c.device is None && c.namespace_id is None && c.key is None && c.hash == Some(hash),
    {
        FilterContext { device: None, namespace_id: None, key: None, hash: Some(hash) }
    }

    /// The context of one file of a folder.
    pub fn for_file(namespace_id: [u8; 32], key: &[u8], hash: [u8; 32]) -> (c: Self)
        ensures
            c.device is None && c.namespace_id == Some(namespace_id) && c.hash == Some(hash),
            c.key matches Some(k) && k@ == key@,
    {
        FilterContext {
            device: None,
            namespace_id: Some(namespace_id),
            key: Some(crate::text::slice_bytes(key, 0, key.len())),
            hash: Some(hash),
        }
    }

    /// The same context, from a device.
    pub fn with_device(self, device: &str) -> (c: Self)
        ensures
            c.namespace_id == self.namespace_id && c.key == self.key && c.hash == self.hash,
            c.device matches Some(d) && d@ == device@,
    {
        FilterContext { device: Some(device.to_string()), ..self }
    }
}

/// The rule that caused a filter decision.
#[derive(Debug)]
pub enum DenyReason {
    Device(String),
    File(Vec<u8>),
    Hash([u8; 32]),
}

/// A local content denylist.
#[derive(Debug)]
pub struct Denylist {
    devices: Vec<String>,
    files: Vec<(Option<[u8; 32]>, Vec<u8>)>,
    hashes: Vec<[u8; 32]>,
    federated: Vec<([u8; 32], u64)>,
}

/// The namespace of a file rule, as bytes.
pub open spec fn ns_view(ns: Option<[u8; 32]>) -> Option<Seq<u8>> {
    match ns {
        Some(n) => Some(n@),
        None => None,
    }
}

impl Denylist {
    /// The device is blocked.
    pub closed spec fn device_rule(&self, d: Seq<char>) -> bool {
        texts(self.devices@).contains(d)
    }

    /// The file key is blocked in the namespace (`None`: in every folder).
    pub closed spec fn file_rule(&self, ns: Option<Seq<u8>>, key: Seq<u8>) -> bool {
        exists|i: int| 0 <= i < self.files@.len() && ns_view((#[trigger] self.files@[i]).0) == ns && self.files@[i].1@ == key
    }

    /// The content hash is blocked.
    pub closed spec fn hash_rule(&self, h: Seq<u8>) -> bool {
        exists|i: int| 0 <= i < self.hashes@.len() && (#[trigger] self.hashes@[i])@ == h
    }

    /// The last applied filter-list sequence of a namespace.
    pub closed spec fn federated_seq(&self, ns: Seq<u8>) -> Option<u64> {
        if exists|i: int| 0 <= i < self.federated@.len() && (#[trigger] self.federated@[i]).0@ == ns {
            Some(self.federated@[choose|i: int| 0 <= i < self.federated@.len() && (#[trigger] self.federated@[i]).0@ == ns].1)
        } else {
            None
        }
    }

    /// Each namespace has one federated entry.
    pub closed spec fn wf(&self) -> bool {
        forall|i: int, j: int|
            0 <= i < j < self.federated@.len() ==> (#[trigger] self.federated@[i]).0@ != (#[trigger] self.federated@[j]).0@
    }

    /// An empty denylist.
    pub fn new() -> (d: Self)
        ensures
            d.wf(),
            forall|x: Seq<char>| !#[trigger] d.device_rule(x),
            forall|n: Option<Seq<u8>>, k: Seq<u8>| !#[trigger] d.file_rule(n, k),
            forall|h: Seq<u8>| !#[trigger] d.hash_rule(h),
            forall|n: Seq<u8>| #[trigger] d.federated_seq(n) is None,
    {
        let d = Denylist { devices: Vec::new(), files: Vec::new(), hashes: Vec::new(), federated: Vec::new() };
        assert forall|x: Seq<char>| !#[trigger] d.device_rule(x) by {
            assert(texts(d.devices@) =~= Seq::<Seq<char>>::empty());
        }
        d
    }

    fn has_file(&self, ns: &Option<[u8; 32]>, key: &[u8]) -> (b: bool)
        ensures
            b == self.file_rule(ns_view(*ns), key@),
    {
        let mut i: usize = 0;
        while i < self.files.len()
            invariant
                i <= self.files@.len(),
                forall|j: int| 0 <= j < i ==> !(ns_view((#[trigger] self.files@[j]).0) == ns_view(*ns) && self.files@[j].1@ == key@),
            decreases self.files.len() - i,
        {
            let same_ns = match (&self.files[i].0, ns) {
                (None, None) => true,
                (Some(a), Some(b)) => bytes_eq(a, b),
                _ => false,
            };
            if same_ns && bytes_eq(self.files[i].1.as_slice(), key) {
                return true;
            }
            i += 1;
        }
        false
    }

    fn has_hash(&self, h: &[u8; 32]) -> (b: bool)
        ensures
            b == self.hash_rule(h@),
    {
        let mut i: usize = 0;
        while i < self.hashes.len()
            invariant
                i <= self.hashes@.len(),
                forall|j: int| 0 <= j < i ==> (#[trigger] self.hashes@[j])@ != h@,
            decreases self.hashes.len() - i,
        {
            if bytes_eq(&self.hashes[i], h) {
                return true;
            }
            i += 1;
        }
        false
    }

    /// Block a device.
    pub fn block_device(&mut self, device: &str)
        ensures
            forall|x: Seq<char>| #[trigger] final(self).device_rule(x) == (old(self).device_rule(x) || x == device@),
            forall|n: Option<Seq<u8>>, k: Seq<u8>| #[trigger] final(self).file_rule(n, k) == old(self).file_rule(n, k),
            forall|h: Seq<u8>| #[trigger] final(self).hash_rule(h) == old(self).hash_rule(h),
            forall|n: Seq<u8>| #[trigger] final(self).federated_seq(n) == old(self).federated_seq(n),
            final(self).wf() == old(self).wf(),
    {
        if !crate::links::contains_text(&self.devices, device) {
            let ghost before = self.devices@;
            self.devices.push(device.to_string());
            proof {
                assert(texts(self.devices@) =~= texts(before).push(device@));
                crate::wot::lemma_push_contains_text(texts(before), device@);
            }
        }
        proof {
            assert(self.federated == old(self).federated);
            assert(self.hashes == old(self).hashes);
            assert(self.files == old(self).files);
            assert forall|n: Seq<u8>| #[trigger] self.federated_seq(n) == old(self).federated_seq(n) by {}
        }
    }

    /// Unblock a device; whether it was blocked.
    pub fn unblock_device(&mut self, device: &str) -> (was: bool)
        ensures
            was == old(self).device_rule(device@),
            forall|x: Seq<char>| #[trigger] final(self).device_rule(x) == (old(self).device_rule(x) && x != device@),
            forall|n: Option<Seq<u8>>, k: Seq<u8>| #[trigger] final(self).file_rule(n, k) == old(self).file_rule(n, k),
            forall|h: Seq<u8>| #[trigger] final(self).hash_rule(h) == old(self).hash_rule(h),
            forall|n: Seq<u8>| #[trigger] final(self).federated_seq(n) == old(self).federated_seq(n),
            final(self).wf() == old(self).wf(),
    {
        let was = crate::links::contains_text(&self.devices, device);
        let mut kept: Vec<String> = Vec::new();
        let mut i: usize = 0;
        while i < self.devices.len()
            invariant
                i <= self.devices@.len(),
                *self == *old(self),
                forall|x: Seq<char>| #[trigger] texts(kept@).contains(x) <==> (texts(self.devices@).take(i as int).contains(x)
                    && x != device@),
            decreases self.devices.len() - i,
        {
            let ghost before = texts(kept@);
            if !str_eq(self.devices[i].as_str(), device) {
                kept.push(self.devices[i].clone());
                proof {
                    assert(texts(kept@) =~= before.push(self.devices@[i as int]@));
                    crate::wot::lemma_push_contains_text(before, self.devices@[i as int]@);
                }
            }
            proof {
                let pre = texts(self.devices@).take(i as int);
                assert(texts(self.devices@).take(i + 1) =~= pre.push(self.devices@[i as int]@));
                crate::wot::lemma_push_contains_text(pre, self.devices@[i as int]@);
            }
            i += 1;
        }
        assert(texts(self.devices@).take(self.devices@.len() as int) =~= texts(self.devices@));
        self.devices = kept;
        proof {
            assert(self.federated@ == old(self).federated@);
            assert(self.hashes@ == old(self).hashes@);
            assert forall|n: Seq<u8>| #[trigger] self.federated_seq(n) == old(self).federated_seq(n) by {}
            assert forall|h: Seq<u8>| #[trigger] self.hash_rule(h) == old(self).hash_rule(h) by {}
        }
        was
    }

    fn insert_file(&mut self, ns: Option<[u8; 32]>, key: Vec<u8>)
        ensures
            forall|n: Option<Seq<u8>>, k: Seq<u8>| #[trigger] final(self).file_rule(n, k) == (old(self).file_rule(n, k) || (n
                == ns_view(ns) && k == key@)),
            final(self).devices == old(self).devices,
            final(self).hashes == old(self).hashes,
            final(self).federated == old(self).federated,
    {
        if !self.has_file(&ns, key.as_slice()) {
            let ghost before = self.files@;
            let ghost kv = key@;
            self.files.push((ns, key));
            proof {
                assert forall|n: Option<Seq<u8>>, k: Seq<u8>| #[trigger] self.file_rule(n, k) == (old(self).file_rule(n, k) || (n
                    == ns_view(ns) && k == kv)) by {
                    if old(self).file_rule(n, k) {
                        let j = choose|j: int| 0 <= j < before.len() && ns_view((#[trigger] before[j]).0) == n && before[j].1@ == k;
                        assert(self.files@[j] == before[j]);
                    }
                    if n == ns_view(ns) && k == kv {
                        assert(ns_view(self.files@[before.len() as int].0) == n);
                    }
                    if self.file_rule(n, k) {
                        let j = choose|j: int| 0 <= j < self.files@.len() && ns_view((#[trigger] self.files@[j]).0) == n && self.files@[j].1@ == k;
                        if j < before.len() {
                            assert(self.files@[j] == before[j]);
                        }
                    }
                }
            }
        }
    }

    fn drop_file(&mut self, ns: &Option<[u8; 32]>, key: &[u8]) -> (was: bool)
        ensures
            was == old(self).file_rule(ns_view(*ns), key@),
            forall|n: Option<Seq<u8>>, k: Seq<u8>| #[trigger] final(self).file_rule(n, k) == (old(self).file_rule(n, k) && !(n
                == ns_view(*ns) && k == key@)),
            final(self).devices == old(self).devices,
            final(self).hashes == old(self).hashes,
            final(self).federated == old(self).federated,
    {
        let was = self.has_file(ns, key);
        let mut kept: Vec<(Option<[u8; 32]>, Vec<u8>)> = Vec::new();
        let mut pending: Vec<(Option<[u8; 32]>, Vec<u8>)> = Vec::new();
        std::mem::swap(&mut pending, &mut self.files);
        let ghost orig = pending@;
        let total = pending.len();
        let mut taken: usize = 0;
        while pending.len() > 0
            invariant
                taken <= orig.len(),
                orig.len() == total,
                pending@ == orig.subrange(taken as int, orig.len() as int),
                forall|n: Option<Seq<u8>>, k: Seq<u8>|
                    #![trigger exists_file(kept@, n, k)]
                    exists_file(kept@, n, k) == (exists_file(orig.take(taken as int), n, k) && !(n == ns_view(*ns) && k == key@)),
            decreases pending.len(),
        {
            assert(pending@.len() == orig.len() - taken);
            let e = pending.remove(0);
            proof {
                assert(e == orig[taken as int]);
            }
            let same_ns = match (&e.0, ns) {
                (None, None) => true,
                (Some(a), Some(b)) => bytes_eq(a, b),
                _ => false,
            };
            let ghost before = kept@;
            let ghost ev = e;
            let matches_rule = same_ns && bytes_eq(e.1.as_slice(), key);
            if !matches_rule {
                kept.push(e);
            }
            proof {
                let pre = orig.take(taken as int);
                let post = orig.take(taken + 1);
                assert(post =~= pre.push(ev));
                lemma_exists_file_push(pre, ev);
                lemma_exists_file_push(before, ev);
            }
            taken += 1;
            proof {
                assert(pending@ =~= orig.subrange(taken as int, orig.len() as int));
            }
        }
        assert(orig.take(orig.len() as int) =~= orig);
        self.files = kept;
        proof {
            assert forall|n: Option<Seq<u8>>, k: Seq<u8>| #[trigger] self.file_rule(n, k) == (old(self).file_rule(n, k) && !(n
                == ns_view(*ns) && k == key@)) by {
                assert(self.file_rule(n, k) == exists_file(self.files@, n, k));
                assert(old(self).file_rule(n, k) == exists_file(orig, n, k));
            }
        }
        was
    }
}

/// Some entry of `fs` is the file rule of `n` and `k`.
pub open spec fn exists_file(fs: Seq<(Option<[u8; 32]>, Vec<u8>)>, n: Option<Seq<u8>>, k: Seq<u8>) -> bool {
    exists|i: int| 0 <= i < fs.len() && ns_view((#[trigger] fs[i]).0) == n && fs[i].1@ == k
}

proof fn lemma_exists_file_push(fs: Seq<(Option<[u8; 32]>, Vec<u8>)>, e: (Option<[u8; 32]>, Vec<u8>))
    ensures
        forall|n: Option<Seq<u8>>, k: Seq<u8>| #[trigger] exists_file(fs.push(e), n, k) == (exists_file(fs, n, k) || (ns_view(e.0)
            == n && e.1@ == k)),
{
    let t = fs.push(e);
    assert forall|n: Option<Seq<u8>>, k: Seq<u8>| #[trigger] exists_file(t, n, k) == (exists_file(fs, n, k) || (ns_view(e.0)
        == n && e.1@ == k)) by {
        if exists_file(fs, n, k) {
            let j = choose|j: int| 0 <= j < fs.len() && ns_view((#[trigger] fs[j]).0) == n && fs[j].1@ == k;
            assert(t[j] == fs[j]);
        }
        if ns_view(e.0) == n && e.1@ == k {
            assert(t[fs.len() as int] == e);
        }
        if exists_file(t, n, k) {
            let j = choose|j: int| 0 <= j < t.len() && ns_view((#[trigger] t[j]).0) == n && t[j].1@ == k;
            if j < fs.len() {
                assert(t[j] == fs[j]);
            }
        }
    }
}

/// The rule blocks device `x`.
pub open spec fn rule_device(r: DenylistRule, x: Seq<char>) -> bool {
    r matches DenylistRule::Device(d) && d@ == x
}

/// The rule blocks file key `k` in namespace `n`.
pub open spec fn rule_file(r: DenylistRule, n: Option<Seq<u8>>, k: Seq<u8>) -> bool {
    r matches DenylistRule::File { namespace_id, key } && ns_view(namespace_id) == n && key@ == k
}

/// The rule blocks hash `h`.
pub open spec fn rule_hash(r: DenylistRule, h: Seq<u8>) -> bool {
    r matches DenylistRule::Hash(x) && x@ == h
}

impl DenylistRule {
    /// A copy of the rule.
    pub fn duplicate(&self) -> (r: Self)
        ensures
            forall|x: Seq<char>| #[trigger] rule_device(r, x) == rule_device(*self, x),
            forall|n: Option<Seq<u8>>, k: Seq<u8>| #[trigger] rule_file(r, n, k) == rule_file(*self, n, k),
            forall|h: Seq<u8>| #[trigger] rule_hash(r, h) == rule_hash(*self, h),
    {
        match self {
            DenylistRule::Device(d) => DenylistRule::Device(d.clone()),
            DenylistRule::File { namespace_id, key } => {
                let k = crate::text::slice_bytes(key.as_slice(), 0, key.len());
                assert(k@ =~= key@);
                DenylistRule::File { namespace_id: *namespace_id, key: k }
            },
            DenylistRule::Hash(h) => DenylistRule::Hash(*h),
        }
    }
}

impl Denylist {
    /// The file key is blocked for a file of namespace `ns`: everywhere, or
    /// in that folder.
    pub open spec fn file_blocked(&self, ns: Option<Seq<u8>>, key: Seq<u8>) -> bool {
        self.file_rule(None, key) || (ns matches Some(n) && self.file_rule(Some(n), key))
    }

    fn insert_hash(&mut self, h: [u8; 32])
        ensures
            forall|x: Seq<u8>| #[trigger] final(self).hash_rule(x) == (old(self).hash_rule(x) || x == h@),
            final(self).devices == old(self).devices,
            final(self).files == old(self).files,
            final(self).federated == old(self).federated,
    {
        if !self.has_hash(&h) {
            let ghost before = self.hashes@;
            self.hashes.push(h);
            proof {
                assert forall|x: Seq<u8>| #[trigger] self.hash_rule(x) == (old(self).hash_rule(x) || x == h@) by {
                    if old(self).hash_rule(x) {
                        let j = choose|j: int| 0 <= j < before.len() && (#[trigger] before[j])@ == x;
                        assert(self.hashes@[j] == before[j]);
                    }
                    if x == h@ {
                        assert(self.hashes@[before.len() as int] == h);
                    }
                    if self.hash_rule(x) {
                        let j = choose|j: int| 0 <= j < self.hashes@.len() && (#[trigger] self.hashes@[j])@ == x;
                        if j < before.len() {
                            assert(self.hashes@[j] == before[j]);
                        }
                    }
                }
            }
        }
    }

    fn drop_hash(&mut self, h: &[u8; 32]) -> (was: bool)
        ensures
            was == old(self).hash_rule(h@),
            forall|x: Seq<u8>| #[trigger] final(self).hash_rule(x) == (old(self).hash_rule(x) && x != h@),
            final(self).devices == old(self).devices,
            final(self).files == old(self).files,
            final(self).federated == old(self).federated,
    {
        let was = self.has_hash(h);
        let mut kept: Vec<[u8; 32]> = Vec::new();
        let mut i: usize = 0;
        while i < self.hashes.len()
            invariant
                i <= self.hashes@.len(),
                *self == *old(self),
                forall|x: Seq<u8>| #[trigger] exists_hash(kept@, x) == (exists_hash(self.hashes@.take(i as int), x) && x != h@),
            decreases self.hashes.len() - i,
        {
            let e = self.hashes[i];
            let ghost before = kept@;
            if !bytes_eq(&e, h) {
                kept.push(e);
            }
            proof {
                let pre = self.hashes@.take(i as int);
                assert(self.hashes@.take(i + 1) =~= pre.push(e));
                lemma_exists_hash_push(pre, e);
                lemma_exists_hash_push(before, e);
            }
            i += 1;
        }
        assert(self.hashes@.take(self.hashes@.len() as int) =~= self.hashes@);
        self.hashes = kept;
        proof {
            assert forall|x: Seq<u8>| #[trigger] self.hash_rule(x) == (old(self).hash_rule(x) && x != h@) by {
                assert(self.hash_rule(x) == exists_hash(self.hashes@, x));
                assert(old(self).hash_rule(x) == exists_hash(old(self).hashes@, x));
            }
        }
        was
    }

    /// Add a rule.
    pub fn add(&mut self, rule: DenylistRule)
        requires
            old(self).wf(),
        ensures
            final(self).wf(),
            forall|x: Seq<char>| #[trigger] final(self).device_rule(x) == (old(self).device_rule(x) || rule_device(rule, x)),
            forall|n: Option<Seq<u8>>, k: Seq<u8>| #[trigger] final(self).file_rule(n, k) == (old(self).file_rule(n, k)
                || rule_file(rule, n, k)),
            forall|h: Seq<u8>| #[trigger] final(self).hash_rule(h) == (old(self).hash_rule(h) || rule_hash(rule, h)),
            forall|n: Seq<u8>| #[trigger] final(self).federated_seq(n) == old(self).federated_seq(n),
    {
        let ghost r = rule;
        match rule {
            DenylistRule::Device(d) => {
                self.block_device(d.as_str());
            },
            DenylistRule::File { namespace_id, key } => {
                self.insert_file(namespace_id, key);
                proof {
                    assert forall|n: Seq<u8>| #[trigger] self.federated_seq(n) == old(self).federated_seq(n) by {}
                    assert forall|x: Seq<char>| #[trigger] self.device_rule(x) == old(self).device_rule(x) by {}
                    assert forall|h: Seq<u8>| #[trigger] self.hash_rule(h) == old(self).hash_rule(h) by {}
                }
            },
            DenylistRule::Hash(h) => {
                self.insert_hash(h);
                proof {
                    assert forall|n: Seq<u8>| #[trigger] self.federated_seq(n) == old(self).federated_seq(n) by {}
                    assert forall|x: Seq<char>| #[trigger] self.device_rule(x) == old(self).device_rule(x) by {}
                    assert forall|n: Option<Seq<u8>>, k: Seq<u8>| #[trigger] self.file_rule(n, k) == old(self).file_rule(n, k) by {}
                }
            },
        }
    }

    /// Remove a rule; whether it was present.
    pub fn remove(&mut self, rule: &DenylistRule) -> (was: bool)
        requires
            old(self).wf(),
        ensures
            final(self).wf(),
            was == match rule {
                DenylistRule::Device(d) => old(self).device_rule(d@),
                DenylistRule::File { namespace_id, key } => old(self).file_rule(ns_view(*namespace_id), key@),
                DenylistRule::Hash(h) => old(self).hash_rule(h@),
            },
            forall|x: Seq<char>| #[trigger] final(self).device_rule(x) == (old(self).device_rule(x) && !rule_device(*rule, x)),
            forall|n: Option<Seq<u8>>, k: Seq<u8>| #[trigger] final(self).file_rule(n, k) == (old(self).file_rule(n, k)
                && !rule_file(*rule, n, k)),
            forall|h: Seq<u8>| #[trigger] final(self).hash_rule(h) == (old(self).hash_rule(h) && !rule_hash(*rule, h)),
            forall|n: Seq<u8>| #[trigger] final(self).federated_seq(n) == old(self).federated_seq(n),
    {
        match rule {
            DenylistRule::Device(d) => self.unblock_device(d.as_str()),
            DenylistRule::File { namespace_id, key } => {
                let was = self.drop_file(namespace_id, key.as_slice());
                proof {
                    assert forall|n: Seq<u8>| #[trigger] self.federated_seq(n) == old(self).federated_seq(n) by {}
                    assert forall|x: Seq<char>| #[trigger] self.device_rule(x) == old(self).device_rule(x) by {}
                    assert forall|h: Seq<u8>| #[trigger] self.hash_rule(h) == old(self).hash_rule(h) by {}
                }
                was
            },
            DenylistRule::Hash(h) => {
                let was = self.drop_hash(h);
                proof {
                    assert forall|n: Seq<u8>| #[trigger] self.federated_seq(n) == old(self).federated_seq(n) by {}
                    assert forall|x: Seq<char>| #[trigger] self.device_rule(x) == old(self).device_rule(x) by {}
                    assert forall|n: Option<Seq<u8>>, k: Seq<u8>| #[trigger] self.file_rule(n, k) == old(self).file_rule(n, k) by {}
                }
                was
            },
        }
    }

    /// Block a file key in every folder.
    pub fn block_file(&mut self, key: &[u8])
        requires
            old(self).wf(),
        ensures
            final(self).wf(),
            forall|n: Option<Seq<u8>>, k: Seq<u8>| #[trigger] final(self).file_rule(n, k) == (old(self).file_rule(n, k)
                || (n is None && k == key@)),
            forall|x: Seq<char>| #[trigger] final(self).device_rule(x) == old(self).device_rule(x),
            forall|h: Seq<u8>| #[trigger] final(self).hash_rule(h) == old(self).hash_rule(h),
    {
        self.add(DenylistRule::file(key));
    }

    /// Unblock a file key blocked in every folder; whether it was.
    pub fn unblock_file(&mut self, key: &[u8]) -> (was: bool)
        requires
            old(self).wf(),
        ensures
            final(self).wf(),
            was == old(self).file_rule(None, key@),
            forall|n: Option<Seq<u8>>, k: Seq<u8>| #[trigger] final(self).file_rule(n, k) == (old(self).file_rule(n, k)
                && !(n is None && k == key@)),
    {
        self.remove(&DenylistRule::file(key))
    }

    /// Block a file key in one folder.
    pub fn block_folder_file(&mut self, namespace_id: [u8; 32], key: &[u8])
        requires
            old(self).wf(),
        ensures
            final(self).wf(),
            forall|n: Option<Seq<u8>>, k: Seq<u8>| #[trigger] final(self).file_rule(n, k) == (old(self).file_rule(n, k)
                || (n == Some(namespace_id@) && k == key@)),
            forall|x: Seq<char>| #[trigger] final(self).device_rule(x) == old(self).device_rule(x),
            forall|h: Seq<u8>| #[trigger] final(self).hash_rule(h) == old(self).hash_rule(h),
    {
        self.add(DenylistRule::folder_file(namespace_id, key));
    }

    /// Unblock a file key of one folder; whether it was blocked there.
    pub fn unblock_folder_file(&mut self, namespace_id: [u8; 32], key: &[u8]) -> (was: bool)
        requires
            old(self).wf(),
        ensures
            final(self).wf(),
            was == old(self).file_rule(Some(namespace_id@), key@),
            forall|n: Option<Seq<u8>>, k: Seq<u8>| #[trigger] final(self).file_rule(n, k) == (old(self).file_rule(n, k)
                && !(n == Some(namespace_id@) && k == key@)),
    {
        self.remove(&DenylistRule::folder_file(namespace_id, key))
    }

    /// Block a content hash.
    pub fn block_hash(&mut self, hash: [u8; 32])
        requires
            old(self).wf(),
        ensures
            final(self).wf(),
            forall|h: Seq<u8>| #[trigger] final(self).hash_rule(h) == (old(self).hash_rule(h) || h == hash@),
            forall|x: Seq<char>| #[trigger] final(self).device_rule(x) == old(self).device_rule(x),
            forall|n: Option<Seq<u8>>, k: Seq<u8>| #[trigger] final(self).file_rule(n, k) == old(self).file_rule(n, k),
    {
        self.add(DenylistRule::Hash(hash));
    }

    /// Unblock a content hash; whether it was blocked.
    pub fn unblock_hash(&mut self, hash: &[u8; 32]) -> (was: bool)
        requires
            old(self).wf(),
        ensures
            final(self).wf(),
            was == old(self).hash_rule(hash@),
            forall|h: Seq<u8>| #[trigger] final(self).hash_rule(h) == (old(self).hash_rule(h) && h != hash@),
    {
        self.remove(&DenylistRule::Hash(*hash))
    }

    /// Whether a device is blocked.
    pub fn is_device_blocked(&self, device: &str) -> (b: bool)
        ensures
            b == self.device_rule(device@),
    {
        crate::links::contains_text(&self.devices, device)
    }

    /// Whether a file of namespace `namespace_id` is blocked.
    pub fn is_file_blocked(&self, namespace_id: Option<[u8; 32]>, key: &[u8]) -> (b: bool)
        ensures
            b == self.file_blocked(ns_view(namespace_id), key@),
    {
        if self.has_file(&None, key) {
            return true;
        }
        match namespace_id {
            Some(n) => self.has_file(&Some(n), key),
            None => false,
        }
    }

    /// Whether a content hash is blocked.
    pub fn is_hash_blocked(&self, hash: &[u8; 32]) -> (b: bool)
        ensures
            b == self.hash_rule(hash@),
    {
        self.has_hash(hash)
    }

    /// The first rule that blocks the context: its device, then its file,
    /// then its hash.
    pub fn matching_rule(&self, context: &FilterContext) -> (r: Option<DenyReason>)
        ensures
            match (r, self.match_spec(*context)) {
                (None, MatchKind::Clear) => true,
                (Some(DenyReason::Device(x)), MatchKind::ByDevice) => context.device matches Some(d) && x@ == d@,
                (Some(DenyReason::File(x)), MatchKind::ByFile) => context.key matches Some(k) && x@ == k@,
                (Some(DenyReason::Hash(x)), MatchKind::ByHash) => context.hash == Some(x),
                _ => false,
            },
    {
        match &context.device {
            Some(d) => {
                if self.is_device_blocked(d.as_str()) {
                    return Some(DenyReason::Device(d.clone()));
                }
            },
            None => {},
        }
        match &context.key {
            Some(k) => {
                if self.is_file_blocked(context.namespace_id, k.as_slice()) {
                    return Some(DenyReason::File(crate::text::slice_bytes(k.as_slice(), 0, k.len())));
                }
            },
            None => {},
        }
        match context.hash {
            Some(h) => {
                if self.has_hash(&h) {
                    return Some(DenyReason::Hash(h));
                }
            },
            None => {},
        }
        None
    }
}

/// Which kind of rule blocks a context first.
pub enum MatchKind {
    ByDevice,
    ByFile,
    ByHash,
    Clear,
}

/// Some entry of `hs` is `h`.
pub open spec fn exists_hash(hs: Seq<[u8; 32]>, h: Seq<u8>) -> bool {
    exists|i: int| 0 <= i < hs.len() && (#[trigger] hs[i])@ == h
}

proof fn lemma_exists_hash_push(hs: Seq<[u8; 32]>, e: [u8; 32])
    ensures
        forall|h: Seq<u8>| #[trigger] exists_hash(hs.push(e), h) == (exists_hash(hs, h) || e@ == h),
{
    let t = hs.push(e);
    assert forall|h: Seq<u8>| #[trigger] exists_hash(t, h) == (exists_hash(hs, h) || e@ == h) by {
        if exists_hash(hs, h) {
            let j = choose|j: int| 0 <= j < hs.len() && (#[trigger] hs[j])@ == h;
            assert(t[j] == hs[j]);
        }
        if e@ == h {
            assert(t[hs.len() as int] == e);
        }
        if exists_hash(t, h) {
            let j = choose|j: int| 0 <= j < t.len() && (#[trigger] t[j])@ == h;
            if j < hs.len() {
                assert(t[j] == hs[j]);
            }
        }
    }
}

impl Denylist {
    /// Which kind of rule blocks the context first.
    pub open spec fn match_spec(&self, c: FilterContext) -> MatchKind {
        if c.device matches Some(d) && self.device_rule(d@) {
            MatchKind::ByDevice
        } else if c.key matches Some(k) && self.file_blocked(ns_view(c.namespace_id), k@) {
            MatchKind::ByFile
        } else if c.hash matches Some(h) && self.hash_rule(h@) {
            MatchKind::ByHash
        } else {
            MatchKind::Clear
        }
    }
}

/// A failed denylist check.
#[derive(Debug)]
pub struct Denied {
    pub reason: DenyReason,
}

/// The text of a failed check.
pub open spec fn denied_text(r: DenyReason) -> Seq<char> {
    match r {
        DenyReason::Device(d) => "device is denylisted: "@ + d@,
        DenyReason::File(k) => "file is denylisted: "@ + utf8_lossy(k@),
        DenyReason::Hash(h) => "content hash is denylisted: "@ + hex_text(h@),
    }
}

impl Denied {
    /// The text of the failed check.
    pub fn to_string(&self) -> (s: String)
        ensures
            s@ == denied_text(self.reason),
    {
        match &self.reason {
            DenyReason::Device(d) => string_of(&concat_chars(&chars_of("device is denylisted: "), &chars_of(d.as_str()))),
            DenyReason::File(k) => {
                let t = utf8_lossy_string(k.as_slice());
                string_of(&concat_chars(&chars_of("file is denylisted: "), &chars_of(t.as_str())))
            },
            DenyReason::Hash(h) => {
                let t = crate::crypto::hex_encode(h);
                string_of(&concat_chars(&chars_of("content hash is denylisted: "), &chars_of(t.as_str())))
            },
        }
    }
}

impl Denylist {
    /// Whether any rule blocks the context.
    pub fn is_blocked(&self, context: &FilterContext) -> (b: bool)
        ensures
            b == !(self.match_spec(*context) is Clear),
    {
        self.matching_rule(context).is_some()
    }

    /// Refuse a fetch that a rule blocks, with the text of the first rule.
    pub fn check_fetch(&self, context: &FilterContext) -> (r: Result<()>)
        ensures
            r is Ok <==> self.match_spec(*context) is Clear,
            r is Err ==> (r matches Err(SyncwebError::InvalidConfig(m)) && match self.match_spec(*context) {
                MatchKind::ByDevice => context.device matches Some(d) && m@ == "device is denylisted: "@ + d@,
                MatchKind::ByFile => context.key matches Some(k) && m@ == "file is denylisted: "@ + utf8_lossy(k@),
                MatchKind::ByHash => context.hash matches Some(h) && m@ == "content hash is denylisted: "@ + hex_text(h@),
                MatchKind::Clear => false,
            }),
    {
        match self.matching_rule(context) {
            Some(reason) => {
                let d = Denied { reason };
                Err(SyncwebError::InvalidConfig(d.to_string()))
            },
            None => Ok(()),
        }
    }

    /// Which kind of rule hides a catalog record from discovery: its file in
    /// the folder it came from, or its content hash.
    pub open spec fn discovery_match(&self, record: CatalogRecord) -> MatchKind {
        if self.file_blocked(Some(record.folder_namespace_id@), record.key@) {
            MatchKind::ByFile
        } else if self.hash_rule(record.hash@) {
            MatchKind::ByHash
        } else {
            MatchKind::Clear
        }
    }

    /// Check a catalog record found by discovery, as a fetch of its file
    /// from its folder would be checked.
    pub fn check_discovery(&self, record: &CatalogRecord) -> (r: Result<()>)
        ensures
            r is Ok <==> self.discovery_match(*record) is Clear,
            r is Err ==> (r matches Err(SyncwebError::InvalidConfig(m)) && match self.discovery_match(*record) {
                MatchKind::ByFile => m@ == "file is denylisted: "@ + utf8_lossy(record.key@),
                MatchKind::ByHash => m@ == "content hash is denylisted: "@ + hex_text(record.hash@),
                _ => false,
            }),
    {
        let context = FilterContext::for_file(record.folder_namespace_id, record.key.as_slice(), record.hash);
        assert(self.match_spec(context) == self.discovery_match(*record));
        self.check_fetch(&context)
    }

    /// The last applied filter-list sequence of a namespace.
    pub fn federated_sequence(&self, namespace_id: &[u8; 32]) -> (r: Option<u64>)
        requires
            self.wf(),
        ensures
            r == self.federated_seq(namespace_id@),
    {
        let mut i: usize = 0;
        while i < self.federated.len()
            invariant
                i <= self.federated@.len(),
                self.wf(),
                forall|j: int| 0 <= j < i ==> (#[trigger] self.federated@[j]).0@ != namespace_id@,
            decreases self.federated.len() - i,
        {
            if bytes_eq(&self.federated[i].0, namespace_id) {
                proof {
                    let k = choose|k: int| 0 <= k < self.federated@.len() && (#[trigger] self.federated@[k]).0@ == namespace_id@;
                    if k != i {
                        assert(self.federated@[k].0@ != self.federated@[i as int].0@);
                    }
                }
                return Some(self.federated[i].1);
            }
            i += 1;
        }
        None
    }

    fn set_federated(&mut self, namespace_id: [u8; 32], sequence: u64)
        requires
            old(self).wf(),
        ensures
            final(self).wf(),
            final(self).federated_seq(namespace_id@) == Some(sequence),
            forall|n: Seq<u8>| n != namespace_id@ ==> #[trigger] final(self).federated_seq(n) == old(self).federated_seq(n),
            final(self).devices == old(self).devices,
            final(self).files == old(self).files,
            final(self).hashes == old(self).hashes,
    {
        let mut i: usize = 0;
        while i < self.federated.len()
            invariant
                i <= self.federated@.len(),
                *self == *old(self),
                old(self).wf(),
                forall|j: int| 0 <= j < i ==> (#[trigger] self.federated@[j]).0@ != namespace_id@,
            decreases self.federated.len() - i,
        {
            if bytes_eq(&self.federated[i].0, &namespace_id) {
                let ghost before = self.federated@;
                self.federated.set(i, (namespace_id, sequence));
                proof {
                    assert forall|a: int, b: int| 0 <= a < b < self.federated@.len() implies (#[trigger] self.federated@[a]).0@
                        != (#[trigger] self.federated@[b]).0@ by {
                        if a != i && b != i {
                            assert(self.federated@[a] == before[a] && self.federated@[b] == before[b]);
                        } else if a == i {
                            assert(self.federated@[b] == before[b]);
                            assert(before[b].0@ != before[a].0@);
                        } else {
                            assert(self.federated@[a] == before[a]);
                            assert(before[b].0@ != before[a].0@);
                        }
                    }
                    assert forall|n: Seq<u8>| n != namespace_id@ implies #[trigger] self.federated_seq(n) == old(self).federated_seq(n) by {
                        if exists|k: int| 0 <= k < before.len() && (#[trigger] before[k]).0@ == n {
                            let k = choose|k: int| 0 <= k < before.len() && (#[trigger] before[k]).0@ == n;
                            assert(self.federated@[k] == before[k]);
                            let k2 = choose|k2: int| 0 <= k2 < self.federated@.len() && (#[trigger] self.federated@[k2]).0@ == n;
                            if k2 != k {
                                if k2 < k {
                                    assert(self.federated@[k2].0@ != self.federated@[k].0@);
                                } else {
                                    assert(self.federated@[k].0@ != self.federated@[k2].0@);
                                }
                            }
                        }
                        if exists|k: int| 0 <= k < self.federated@.len() && (#[trigger] self.federated@[k]).0@ == n {
                            let k = choose|k: int| 0 <= k < self.federated@.len() && (#[trigger] self.federated@[k]).0@ == n;
                            assert(k != i);
                            assert(before[k] == self.federated@[k]);
                        }
                    }
                    assert(self.federated@[i as int].0@ == namespace_id@);
                    let k = choose|k: int| 0 <= k < self.federated@.len() && (#[trigger] self.federated@[k]).0@ == namespace_id@;
                    if k != i {
                        if k < i {
                            assert(self.federated@[k].0@ != self.federated@[i as int].0@);
                        } else {
                            assert(self.federated@[i as int].0@ != self.federated@[k].0@);
                        }
                    }
                }
                return;
            }
            i += 1;
        }
        let ghost before = self.federated@;
        self.federated.push((namespace_id, sequence));
        proof {
            assert forall|a: int, b: int| 0 <= a < b < self.federated@.len() implies (#[trigger] self.federated@[a]).0@
                != (#[trigger] self.federated@[b]).0@ by {
                if b == before.len() {
                    assert(self.federated@[a] == before[a]);
                } else {
                    assert(self.federated@[a] == before[a] && self.federated@[b] == before[b]);
                }
            }
            assert forall|n: Seq<u8>| n != namespace_id@ implies #[trigger] self.federated_seq(n) == old(self).federated_seq(n) by {
                if exists|k: int| 0 <= k < before.len() && (#[trigger] before[k]).0@ == n {
                    let k = choose|k: int| 0 <= k < before.len() && (#[trigger] before[k]).0@ == n;
                    assert(self.federated@[k] == before[k]);
                    let k2 = choose|k2: int| 0 <= k2 < self.federated@.len() && (#[trigger] self.federated@[k2]).0@ == n;
                    if k2 != k {
                        if k2 < k {
                            assert(self.federated@[k2].0@ != self.federated@[k].0@);
                        } else {
                            assert(self.federated@[k].0@ != self.federated@[k2].0@);
                        }
                    }
                }
                if exists|k: int| 0 <= k < self.federated@.len() && (#[trigger] self.federated@[k]).0@ == n {
                    let k = choose|k: int| 0 <= k < self.federated@.len() && (#[trigger] self.federated@[k]).0@ == n;
                    assert(k != before.len());
                    assert(before[k] == self.federated@[k]);
                }
            }
            let last = before.len() as int;
            assert(self.federated@[last].0@ == namespace_id@);
            let k = choose|k: int| 0 <= k < self.federated@.len() && (#[trigger] self.federated@[k]).0@ == namespace_id@;
            if k != last {
                assert(self.federated@[k] == before[k]);
            }
        }
    }
}

/// A signed, monotonic federated filter-list update.
#[derive(Debug)]
pub struct FilterList {
    pub namespace_id: [u8; 32],
    pub sequence: u64,
    pub publisher: String,
    pub entries: Vec<DenylistRule>,
    pub created_at: u64,
    pub signature: Option<String>,
}

/// The list's fields are valid: a positive sequence and a publisher.
pub open spec fn filter_list_fields_ok(l: FilterList) -> bool {
    l.sequence != 0 && trim(l.publisher@).len() > 0
}

/// The list is valid and signed by its publisher over `unsigned`.
pub open spec fn filter_list_verifies(l: FilterList, unsigned: Seq<u8>) -> bool {
    filter_list_fields_ok(l) && text_signature_valid("syncweb/filter-list/v1"@, unsigned, l.publisher@, l.signature)
}

/// Some entry of the list blocks device `x`.
pub open spec fn list_device(es: Seq<DenylistRule>, x: Seq<char>) -> bool {
    exists|i: int| 0 <= i < es.len() && rule_device(#[trigger] es[i], x)
}

/// Some entry of the list blocks file `k` in `n`.
pub open spec fn list_file(es: Seq<DenylistRule>, n: Option<Seq<u8>>, k: Seq<u8>) -> bool {
    exists|i: int| 0 <= i < es.len() && rule_file(#[trigger] es[i], n, k)
}

/// Some entry of the list blocks hash `h`.
pub open spec fn list_hash(es: Seq<DenylistRule>, h: Seq<u8>) -> bool {
    exists|i: int| 0 <= i < es.len() && rule_hash(#[trigger] es[i], h)
}

impl FilterList {
    /// An unsigned list of `entries` from the key of `secret`, made at
    /// `created_at`.
    pub fn unsigned(
        namespace_id: [u8; 32],
        sequence: u64,
        entries: Vec<DenylistRule>,
        secret: &[u8; 32],
        created_at: u64,
    ) -> (l: Self)
        ensures
            l.namespace_id == namespace_id && l.sequence == sequence && l.entries == entries
                && l.created_at == created_at && l.signature is None,
            l.publisher@ == hex_text(ed25519_public_of(secret@)),
    {
        let public = ed25519_public_key(secret);
        FilterList { namespace_id, sequence, publisher: author_id(&public), entries, created_at, signature: None }
    }

    /// Sign with the publisher's secret key over `unsigned`, the list
    /// encoded without its signature.
    pub fn sign(&mut self, secret: &[u8; 32], unsigned: &[u8]) -> (r: Result<()>)
        ensures
            r is Ok <==> old(self).publisher@ == hex_text(ed25519_public_of(secret@)),
            r is Err ==> r->Err_0 is InvalidIdentity && *final(self) == *old(self),
            r is Ok ==> (final(self).signature matches Some(s) && s@ == hex_text(
                ed25519_signature_of(secret@, signed_payload("syncweb/filter-list/v1"@, unsigned@)),
            )),
            final(self).namespace_id == old(self).namespace_id && final(self).sequence == old(self).sequence
                && final(self).publisher == old(self).publisher && final(self).entries == old(self).entries
                && final(self).created_at == old(self).created_at,
    {
        crate::wot::ensure_signer(self.publisher.as_str(), secret)?;
        self.signature = Some(sign_text("syncweb/filter-list/v1", unsigned, secret));
        Ok(())
    }

    /// Validate the sequence and publisher.
    pub fn validate(&self) -> (r: Result<()>)
        ensures
            r is Ok <==> filter_list_fields_ok(*self),
            r is Err && self.sequence == 0 ==> r->Err_0 is InvalidConfig,
            r is Err && self.sequence != 0 ==> r->Err_0 is InvalidIdentity,
    {
        if self.sequence == 0 {
            return Err(SyncwebError::InvalidConfig("filter list sequence must be greater than zero".to_string()));
        }
        if trim_chars(&chars_of(self.publisher.as_str())).len() == 0 {
            return Err(SyncwebError::InvalidIdentity("filter list publisher cannot be empty".to_string()));
        }
        Ok(())
    }

    /// Verify the fields and the publisher's signature over `unsigned`.
    pub fn verify_signature(&self, unsigned: &[u8]) -> (r: Result<()>)
        ensures
            r is Ok <==> filter_list_verifies(*self, unsigned@),
    {
        self.validate()?;
        verify_text("syncweb/filter-list/v1", unsigned, self.publisher.as_str(), &self.signature)
    }
}

impl Denylist {
    /// Apply a signed filter list newer than the last applied one of its
    /// namespace: its rules are added and its sequence recorded. An older or
    /// repeated list changes nothing, so a delayed update cannot remove
    /// rules.
    pub fn sync_filter_list(&mut self, list: &FilterList, unsigned: &[u8]) -> (r: Result<bool>)
        requires
            old(self).wf(),
        ensures
            final(self).wf(),
            r is Ok <==> filter_list_verifies(*list, unsigned@),
            r matches Ok(applied) ==> applied == (list.sequence > match old(self).federated_seq(list.namespace_id@) {
                Some(c) => c,
                None => 0,
            }),
            !(r matches Ok(true)) ==> *final(self) == *old(self),
            r matches Ok(true) ==> {
                &&& final(self).federated_seq(list.namespace_id@) == Some(list.sequence)
                &&& forall|n: Seq<u8>| n != list.namespace_id@ ==> #[trigger] final(self).federated_seq(n) == old(self).federated_seq(n)
                &&& forall|x: Seq<char>| #[trigger] final(self).device_rule(x) == (old(self).device_rule(x) || list_device(list.entries@, x))
                &&& forall|n: Option<Seq<u8>>, k: Seq<u8>| #[trigger] final(self).file_rule(n, k) == (old(self).file_rule(n, k)
                    || list_file(list.entries@, n, k))
                &&& forall|h: Seq<u8>| #[trigger] final(self).hash_rule(h) == (old(self).hash_rule(h) || list_hash(list.entries@, h))
            },
    {
        list.verify_signature(unsigned)?;
        let current = match self.federated_sequence(&list.namespace_id) {
            Some(c) => c,
            None => 0,
        };
        if list.sequence <= current {
            return Ok(false);
        }
        let mut i: usize = 0;
        while i < list.entries.len()
            invariant
                i <= list.entries@.len(),
                self.wf(),
                forall|n: Seq<u8>| #[trigger] self.federated_seq(n) == old(self).federated_seq(n),
                forall|x: Seq<char>| #[trigger] self.device_rule(x) == (old(self).device_rule(x) || list_device(list.entries@.take(i as int), x)),
                forall|n: Option<Seq<u8>>, k: Seq<u8>| #[trigger] self.file_rule(n, k) == (old(self).file_rule(n, k)
                    || list_file(list.entries@.take(i as int), n, k)),
                forall|h: Seq<u8>| #[trigger] self.hash_rule(h) == (old(self).hash_rule(h) || list_hash(list.entries@.take(i as int), h)),
            decreases list.entries.len() - i,
        {
            let rule = list.entries[i].duplicate();
            self.add(rule);
            proof {
                let pre = list.entries@.take(i as int);
                let post = list.entries@.take(i + 1);
                assert(post =~= pre.push(list.entries@[i as int]));
                assert forall|x: Seq<char>| #[trigger] list_device(post, x) == (list_device(pre, x) || rule_device(list.entries@[i as int], x)) by {
                    if list_device(pre, x) {
                        let j = choose|j: int| 0 <= j < pre.len() && rule_device(#[trigger] pre[j], x);
                        assert(post[j] == pre[j]);
                    }
                    if rule_device(list.entries@[i as int], x) {
                        assert(post[i as int] == list.entries@[i as int]);
                    }
                    if list_device(post, x) {
                        let j = choose|j: int| 0 <= j < post.len() && rule_device(#[trigger] post[j], x);
                        if j < i {
                            assert(post[j] == pre[j]);
                        }
                    }
                }
                assert forall|n: Option<Seq<u8>>, k: Seq<u8>| #[trigger] list_file(post, n, k) == (list_file(pre, n, k) || rule_file(list.entries@[i as int], n, k)) by {
                    if list_file(pre, n, k) {
                        let j = choose|j: int| 0 <= j < pre.len() && rule_file(#[trigger] pre[j], n, k);
                        assert(post[j] == pre[j]);
                    }
                    if rule_file(list.entries@[i as int], n, k) {
                        assert(post[i as int] == list.entries@[i as int]);
                    }
                    if list_file(post, n, k) {
                        let j = choose|j: int| 0 <= j < post.len() && rule_file(#[trigger] post[j], n, k);
                        if j < i {
                            assert(post[j] == pre[j]);
                        }
                    }
                }
                assert forall|h: Seq<u8>| #[trigger] list_hash(post, h) == (list_hash(pre, h) || rule_hash(list.entries@[i as int], h)) by {
                    if list_hash(pre, h) {
                        let j = choose|j: int| 0 <= j < pre.len() && rule_hash(#[trigger] pre[j], h);
                        assert(post[j] == pre[j]);
                    }
                    if rule_hash(list.entries@[i as int], h) {
                        assert(post[i as int] == list.entries@[i as int]);
                    }
                    if list_hash(post, h) {
                        let j = choose|j: int| 0 <= j < post.len() && rule_hash(#[trigger] post[j], h);
                        if j < i {
                            assert(post[j] == pre[j]);
                        }
                    }
                }
            }
            i += 1;
        }
        assert(list.entries@.take(list.entries@.len() as int) =~= list.entries@);
        let ghost mid = *self;
        self.set_federated(list.namespace_id, list.sequence);
        proof {
            assert(self.devices@ == mid.devices@);
            assert(self.files@ == mid.files@);
            assert(self.hashes@ == mid.hashes@);
            assert forall|x: Seq<char>| #[trigger] self.device_rule(x) == (old(self).device_rule(x) || list_device(list.entries@, x)) by {
                assert(self.device_rule(x) == mid.device_rule(x));
            }
            assert forall|h: Seq<u8>| #[trigger] self.hash_rule(h) == (old(self).hash_rule(h) || list_hash(list.entries@, h)) by {
                assert(self.hash_rule(h) == mid.hash_rule(h));
            }
            assert forall|n: Option<Seq<u8>>, k: Seq<u8>| #[trigger] self.file_rule(n, k) == (old(self).file_rule(n, k)
                || list_file(list.entries@, n, k)) by {
                assert(self.file_rule(n, k) == mid.file_rule(n, k));
            }
        }
        Ok(true)
    }

    /// Subscribe to a federated filter namespace and apply its first list.
    pub fn subscribe_filter_list(&mut self, list: &FilterList, unsigned: &[u8]) -> (r: Result<bool>)
        requires
            old(self).wf(),
        ensures
            final(self).wf(),
            r is Ok <==> filter_list_verifies(*list, unsigned@),
            r matches Ok(applied) ==> applied == (list.sequence > match old(self).federated_seq(list.namespace_id@) {
                Some(c) => c,
                None => 0,
            }),
            !(r matches Ok(true)) ==> *final(self) == *old(self),
    {
        self.sync_filter_list(list, unsigned)
    }

    /// The same as [`Self::subscribe_filter_list`].
    pub fn subscribe(&mut self, list: &FilterList, unsigned: &[u8]) -> (r: Result<bool>)
        requires
            old(self).wf(),
        ensures
            final(self).wf(),
            r is Ok <==> filter_list_verifies(*list, unsigned@),
            !(r matches Ok(true)) ==> *final(self) == *old(self),
    {
        self.sync_filter_list(list, unsigned)
    }

    /// The same as [`Self::sync_filter_list`].
    pub fn sync(&mut self, list: &FilterList, unsigned: &[u8]) -> (r: Result<bool>)
        requires
            old(self).wf(),
        ensures
            final(self).wf(),
            r is Ok <==> filter_list_verifies(*list, unsigned@),
            !(r matches Ok(true)) ==> *final(self) == *old(self),
    {
        self.sync_filter_list(list, unsigned)
    }
}

/// Applying a filter list never lifts a rule: whatever was blocked before
/// stays blocked.
pub proof fn law_filter_lists_only_add(before: Denylist, after: Denylist, list: FilterList)
    requires
        forall|x: Seq<char>| #[trigger] after.device_rule(x) == (before.device_rule(x) || list_device(list.entries@, x)),
        forall|n: Option<Seq<u8>>, k: Seq<u8>| #[trigger] after.file_rule(n, k) == (before.file_rule(n, k) || list_file(
            list.entries@,
            n,
            k,
        )),
        forall|h: Seq<u8>| #[trigger] after.hash_rule(h) == (before.hash_rule(h) || list_hash(list.entries@, h)),
    ensures
        forall|x: Seq<char>| before.device_rule(x) ==> #[trigger] after.device_rule(x),
        forall|n: Option<Seq<u8>>, k: Seq<u8>| before.file_rule(n, k) ==> #[trigger] after.file_rule(n, k),
        forall|h: Seq<u8>| before.hash_rule(h) ==> #[trigger] after.hash_rule(h),
{
}

} // verus!
