//! Content-addressed snapshots of a folder: safe relative entry paths, the
//! manifest's consistency checks, and the pin names that retain a snapshot's
//! blobs.
//!
//! Paths compare as `std::path::Path` does on Unix: by their components,
//! where empty and `.` segments vanish, except for a leading `.`.
use vstd::prelude::*;

use crate::crypto::{blake3_digest, blake3_hash, hex_encode, hex_text};
use crate::error::{Result, SyncwebError};
use crate::text::{chars_eq, chars_of, concat_chars, decimal, decimal_chars, string_of};

verus! {

/// The manifest schema this library writes and accepts.
pub const SCHEMA_VERSION: u32 = 1;

/// A segment that names a component: neither empty nor `.`.
pub open spec fn named_segment(g: Seq<char>) -> bool {
    g.len() > 0 && g != "."@
}

/// `done`, with `g` appended when it names a component.
pub open spec fn emit(done: Seq<Seq<char>>, g: Seq<char>) -> Seq<Seq<char>> {
    if named_segment(g) {
        done.push(g)
    } else {
        done
    }
}

/// Reading a path left to right: the components finished so far and the
/// segment being read.
pub open spec fn scan_path(s: Seq<char>) -> (Seq<Seq<char>>, Seq<char>)
    decreases s.len(),
{
    if s.len() == 0 {
        (Seq::empty(), Seq::empty())
    } else {
        let (done, g) = scan_path(s.drop_last());
        if s.last() == '/' {
            (emit(done, g), Seq::empty())
        } else {
            (done, g.push(s.last()))
        }
    }
}

/// The path begins with a `.` component.
pub open spec fn leads_with_dot(s: Seq<char>) -> bool {
    (s.len() == 1 && s[0] == '.') || (s.len() >= 2 && s[0] == '.' && s[1] == '/')
}

/// The components of a relative path: an empty sequence for a leading `.`,
/// then its named segments in order.
pub open spec fn path_components(s: Seq<char>) -> Seq<Seq<char>> {
    let named = emit(scan_path(s).0, scan_path(s).1);
    if leads_with_dot(s) {
        seq![Seq::<char>::empty()] + named
    } else {
        named
    }
}

/// A non-empty relative path with no `..` component.
pub open spec fn safe_relative_path(s: Seq<char>) -> bool {
    s.len() > 0 && s[0] != '/' && !path_components(s).contains(".."@)
}

/// The character views of some component texts.
pub open spec fn component_views(v: Seq<Vec<char>>) -> Seq<Seq<char>> {
    v.map_values(|c: Vec<char>| c@)
}

fn components_of(v: &[char]) -> (r: Vec<Vec<char>>)
    ensures
        component_views(r@) == path_components(v@),
{
    let mut done: Vec<Vec<char>> = Vec::new();
    let mut g: Vec<char> = Vec::new();
    let mut i: usize = 0;
    while i < v.len()
        invariant
            i <= v@.len(),
            (component_views(done@), g@) == scan_path(v@.subrange(0, i as int)),
        decreases v.len() - i,
    {
        let ghost pre = v@.subrange(0, i as int);
        assert(v@.subrange(0, i + 1).drop_last() =~= pre);
        if v[i] == '/' {
            if g.len() > 0 && !crate::parsing::eq_lit(&g, ".") {
                let ghost d0 = done@;
                done.push(g);
                assert(component_views(done@) =~= component_views(d0).push(g@));
            }
            g = Vec::new();
            assert(g@ =~= Seq::<char>::empty());
        } else {
            g.push(v[i]);
        }
        i += 1;
    }
    assert(v@.subrange(0, v@.len() as int) =~= v@);
    if g.len() > 0 && !crate::parsing::eq_lit(&g, ".") {
        let ghost d0 = done@;
        done.push(g);
        assert(component_views(done@) =~= component_views(d0).push(g@));
    }
    if (v.len() == 1 && v[0] == '.') || (v.len() >= 2 && v[0] == '.' && v[1] == '/') {
        let mut r: Vec<Vec<char>> = Vec::new();
        r.push(Vec::new());
        let ghost r0 = r@;
        assert(component_views(r0) =~= seq![Seq::<char>::empty()]);
        let mut k: usize = 0;
        while k < done.len()
            invariant
                k <= done@.len(),
                component_views(r@) == seq![Seq::<char>::empty()] + component_views(done@).subrange(0, k as int),
            decreases done.len() - k,
        {
            let ghost before = r@;
            r.push(crate::text::slice_chars(&done[k], 0, done[k].len()));
            assert(done@[k as int]@.subrange(0, done@[k as int]@.len() as int) =~= done@[k as int]@);
            assert(component_views(r@) =~= component_views(before).push(done@[k as int]@));
            assert(component_views(done@).subrange(0, k + 1) =~= component_views(done@).subrange(0, k as int).push(
                done@[k as int]@,
            ));
            k += 1;
        }
        assert(component_views(done@).subrange(0, done@.len() as int) =~= component_views(done@));
        r
    } else {
        done
    }
}

fn components_eq(a: &Vec<Vec<char>>, b: &Vec<Vec<char>>) -> (r: bool)
    ensures
        r == (component_views(a@) == component_views(b@)),
{
    if a.len() != b.len() {
        assert(component_views(a@).len() != component_views(b@).len());
        return false;
    }
    let mut i: usize = 0;
    while i < a.len()
        invariant
            a@.len() == b@.len(),
            i <= a@.len(),
            forall|j: int| 0 <= j < i ==> a@[j]@ == b@[j]@,
        decreases a.len() - i,
    {
        if !chars_eq(&a[i], &b[i]) {
            assert(component_views(a@)[i as int] != component_views(b@)[i as int]);
            return false;
        }
        i += 1;
    }
    assert(component_views(a@) =~= component_views(b@));
    true
}

fn contains_parent(c: &Vec<Vec<char>>) -> (r: bool)
    ensures
        r == component_views(c@).contains(".."@),
{
    let mut i: usize = 0;
    while i < c.len()
        invariant
            i <= c@.len(),
            forall|j: int| 0 <= j < i ==> c@[j]@ != ".."@,
        decreases c.len() - i,
    {
        if crate::parsing::eq_lit(&c[i], "..") {
            assert(component_views(c@)[i as int] == ".."@);
            return true;
        }
        i += 1;
    }
    proof {
        if component_views(c@).contains(".."@) {
            let j = choose|j: int| 0 <= j < c@.len() && component_views(c@)[j] == ".."@;
            assert(c@[j]@ == ".."@);
        }
    }
    false
}

/// The text of a path error.
pub open spec fn path_error_text(path: Seq<char>) -> Seq<char> {
    "snapshot path must be a non-empty relative path: "@ + path
}

/// Check that a snapshot path is a non-empty relative path without `..`.
pub fn validate_path(path: &str) -> (r: Result<()>)
    ensures
        r is Ok <==> safe_relative_path(path@),
        r is Err ==> (r matches Err(SyncwebError::InvalidConfig(m)) && m@ == path_error_text(path@)),
{
    let v = chars_of(path);
    let comps = components_of(&v);
    if v.len() == 0 || v[0] == '/' || contains_parent(&comps) {
        let text = concat_chars(&chars_of("snapshot path must be a non-empty relative path: "), &v);
        return Err(SyncwebError::InvalidConfig(string_of(&text)));
    }
    Ok(())
}

/// A file reference captured by a snapshot.
#[derive(Debug)]
pub struct SnapshotEntry {
    pub path: String,
    pub hash: [u8; 32],
    pub size: u64,
}

impl SnapshotEntry {
    /// An entry for a safe relative path.
    pub fn new(path: &str, hash: [u8; 32], size: u64) -> (r: Result<Self>)
        ensures
            r is Ok <==> safe_relative_path(path@),
            r matches Ok(e) ==> e.path@ == path@ && e.hash == hash && e.size == size,
            r is Err ==> (r matches Err(SyncwebError::InvalidConfig(m)) && m@ == path_error_text(path@)),
    {
        validate_path(path)?;
        Ok(SnapshotEntry { path: path.to_string(), hash, size })
    }
}

/// The sum of the entries' sizes.
pub open spec fn total_size(entries: Seq<SnapshotEntry>) -> nat
    decreases entries.len(),
{
    if entries.len() == 0 {
        0
    } else {
        total_size(entries.drop_last()) + entries.last().size as nat
    }
}

/// Entry `i` repeats the path of an earlier entry.
pub open spec fn repeats_path(entries: Seq<SnapshotEntry>, i: int) -> bool {
    exists|j: int| 0 <= j < i && #[trigger] path_components(entries[j].path@) == path_components(entries[i].path@)
}

/// Entry `i` has an unsafe path or repeats an earlier one.
pub open spec fn entry_rejected(entries: Seq<SnapshotEntry>, i: int) -> bool {
    !safe_relative_path(entries[i].path@) || repeats_path(entries, i)
}

/// Every entry before `n` is accepted.
pub open spec fn entries_accepted(entries: Seq<SnapshotEntry>, n: int) -> bool {
    forall|i: int| 0 <= i < n ==> !#[trigger] entry_rejected(entries, i)
}

/// A content-addressed snapshot of a folder or directory.
#[derive(Debug)]
pub struct Snapshot {
    pub schema_version: u32,
    pub id: [u8; 32],
    pub namespace_id: Option<[u8; 32]>,
    pub root_hash: [u8; 32],
    pub created_at: u64,
    pub description: Option<String>,
    pub total_size: u64,
    pub file_count: u64,
    pub entries: Vec<SnapshotEntry>,
}

/// The error `Snapshot::validate` reports for a manifest whose entries
/// encode as `encoded`, or `None`.
pub open spec fn snapshot_error(s: Snapshot, encoded: Seq<u8>) -> Option<Seq<char>> {
    let es = s.entries@;
    if s.schema_version != SCHEMA_VERSION {
        Some("unsupported snapshot schema version "@ + decimal(s.schema_version as nat))
    } else if exists|i: int| 0 <= i < es.len() && #[trigger] entry_rejected(es, i) {
        let i = choose|i: int|
            0 <= i < es.len() && #[trigger] entry_rejected(es, i) && entries_accepted(es, i);
        if !safe_relative_path(es[i].path@) {
            Some(path_error_text(es[i].path@))
        } else {
            Some("duplicate snapshot path "@ + es[i].path@)
        }
    } else if s.file_count != es.len() {
        Some("snapshot file count is incorrect"@)
    } else if s.total_size != total_size(es) {
        Some("snapshot total size is incorrect"@)
    } else if s.root_hash@ != blake3_digest(encoded) || s.id != s.root_hash {
        Some("snapshot content root is incorrect"@)
    } else {
        None
    }
}

impl Snapshot {
    /// A snapshot of `entries`, in the order given, whose manifest encodes
    /// them as `encoded_entries`: its root and identifier are that
    /// encoding's digest.
    pub fn from_sorted(
        namespace_id: Option<[u8; 32]>,
        entries: Vec<SnapshotEntry>,
        description: Option<String>,
        encoded_entries: &[u8],
        created_at: u64,
    ) -> (s: Self)
        requires
            total_size(entries@) <= u64::MAX,
        ensures
            s.schema_version == SCHEMA_VERSION,
            s.root_hash@ == blake3_digest(encoded_entries@),
            s.id == s.root_hash,
            s.namespace_id == namespace_id,
            s.created_at == created_at,
            s.description == description,
            s.total_size == total_size(entries@),
            s.file_count == entries@.len(),
            s.entries@ == entries@,
            entries_accepted(entries@, entries@.len() as int) ==> snapshot_error(s, encoded_entries@) is None,
    {
        let root = blake3_hash(encoded_entries);
        let total = sum_sizes(&entries);
        let count = entries.len() as u64;
        Snapshot {
            schema_version: SCHEMA_VERSION,
            id: root,
            namespace_id,
            root_hash: root,
            created_at,
            description,
            total_size: total,
            file_count: count,
            entries,
        }
    }

    /// Check the schema, the entry paths, the counts and the content root,
    /// given the encoding of the entries.
    pub fn validate(&self, encoded_entries: &[u8]) -> (r: Result<()>)
        requires
            total_size(self.entries@) <= u64::MAX,
        ensures
            r is Ok <==> snapshot_error(*self, encoded_entries@) is None,
            r is Err ==> (r matches Err(SyncwebError::InvalidConfig(m)) && snapshot_error(
                *self,
                encoded_entries@,
            ) == Some(m@)),
    {
        let es = &self.entries;
        if self.schema_version != SCHEMA_VERSION {
            let text = concat_chars(
                &chars_of("unsupported snapshot schema version "),
                &decimal_chars(self.schema_version as u64),
            );
            return Err(SyncwebError::InvalidConfig(string_of(&text)));
        }
        let mut seen: Vec<Vec<Vec<char>>> = Vec::new();
        let mut i: usize = 0;
        while i < es.len()
            invariant
                es == &self.entries,
                self.schema_version == SCHEMA_VERSION,
                i <= es@.len(),
                seen@.len() == i,
                forall|j: int| 0 <= j < i ==> component_views(#[trigger] seen@[j]@) == path_components(es@[j].path@),
                entries_accepted(es@, i as int),
            decreases es.len() - i,
        {
            let v = chars_of(es[i].path.as_str());
            let comps = components_of(&v);
            if v.len() == 0 || v[0] == '/' || contains_parent(&comps) {
                proof {
                    assert(!safe_relative_path(es@[i as int].path@));
                    assert(entry_rejected(es@, i as int));
                    assert(entries_accepted(es@, i as int));
                    lemma_first_rejected(es@, i as int);
                }
                let text = concat_chars(&chars_of("snapshot path must be a non-empty relative path: "), &v);
                return Err(SyncwebError::InvalidConfig(string_of(&text)));
            }
            let mut j: usize = 0;
            while j < i
                invariant
                    es == &self.entries,
                    self.schema_version == SCHEMA_VERSION,
                    i < es@.len(),
                    j <= i,
                    seen@.len() == i,
                    forall|q: int| 0 <= q < i ==> component_views(#[trigger] seen@[q]@) == path_components(es@[q].path@),
                    component_views(comps@) == path_components(es@[i as int].path@),
                    entries_accepted(es@, i as int),
                    safe_relative_path(es@[i as int].path@),
                    v@ == es@[i as int].path@,
                    forall|q: int| 0 <= q < j ==> path_components(es@[q].path@) != path_components(es@[i as int].path@),
                decreases i - j,
            {
                if components_eq(&seen[j], &comps) {
                    proof {
                        assert(path_components(es@[j as int].path@) == path_components(es@[i as int].path@));
                        assert(repeats_path(es@, i as int));
                        assert(entry_rejected(es@, i as int));
                        lemma_first_rejected(es@, i as int);
                    }
                    let text = concat_chars(&chars_of("duplicate snapshot path "), &v);
                    return Err(SyncwebError::InvalidConfig(string_of(&text)));
                }
                j += 1;
            }
            proof {
                assert(!repeats_path(es@, i as int));
                assert(!entry_rejected(es@, i as int));
                assert forall|q: int| 0 <= q < i + 1 implies !#[trigger] entry_rejected(es@, q) by {
                    if q < i {
                        assert(!entry_rejected(es@, q));
                    }
                }
            }
            seen.push(comps);
            i += 1;
        }
        proof {
            assert forall|q: int| 0 <= q < es@.len() implies !#[trigger] entry_rejected(es@, q) by {
                assert(entries_accepted(es@, es@.len() as int));
            }
        }
        if self.file_count != es.len() as u64 {
            return Err(SyncwebError::InvalidConfig("snapshot file count is incorrect".to_string()));
        }
        if self.total_size != sum_sizes(es) {
            return Err(SyncwebError::InvalidConfig("snapshot total size is incorrect".to_string()));
        }
        let root = blake3_hash(encoded_entries);
        let root_ok = crate::resilience::bytes_eq(&self.root_hash, &root);
        let id_ok = crate::resilience::bytes_eq(&self.id, &self.root_hash);
        proof {
            if id_ok {
                assert(self.id@ =~= self.root_hash@);
                assert(self.id == self.root_hash);
            }
        }
        if !root_ok || !id_ok {
            return Err(SyncwebError::InvalidConfig("snapshot content root is incorrect".to_string()));
        }
        Ok(())
    }
}

/// The first rejected entry decides the error.
proof fn lemma_first_rejected(es: Seq<SnapshotEntry>, i: int)
    requires
        0 <= i < es.len(),
        entry_rejected(es, i),
        entries_accepted(es, i),
    ensures
        (choose|k: int| 0 <= k < es.len() && #[trigger] entry_rejected(es, k) && entries_accepted(es, k)) == i,
{
    let k = choose|k: int| 0 <= k < es.len() && #[trigger] entry_rejected(es, k) && entries_accepted(es, k);
    assert(0 <= k < es.len() && entry_rejected(es, k) && entries_accepted(es, k));
    if k < i {
        assert(!entry_rejected(es, k));
    }
    if i < k {
        assert(!entry_rejected(es, i));
    }
}

fn sum_sizes(es: &Vec<SnapshotEntry>) -> (t: u64)
    requires
        total_size(es@) <= u64::MAX,
    ensures
        t == total_size(es@),
{
    let mut t: u64 = 0;
    let mut i: usize = 0;
    while i < es.len()
        invariant
            i <= es@.len(),
            total_size(es@) <= u64::MAX,
            t == total_size(es@.subrange(0, i as int)),
        decreases es.len() - i,
    {
        proof {
            assert(es@.subrange(0, i + 1).drop_last() =~= es@.subrange(0, i as int));
            lemma_total_prefix(es@, i + 1);
        }
        t = t + es[i].size;
        i += 1;
    }
    assert(es@.subrange(0, es@.len() as int) =~= es@);
    t
}

proof fn lemma_total_prefix(es: Seq<SnapshotEntry>, n: int)
    requires
        0 <= n <= es.len(),
    ensures
        total_size(es.subrange(0, n)) <= total_size(es),
    decreases es.len() - n,
{
    if n < es.len() {
        lemma_total_prefix(es, n + 1);
        assert(es.subrange(0, n + 1).drop_last() =~= es.subrange(0, n));
    } else {
        assert(es.subrange(0, n) =~= es);
    }
}

/// `a` sorts before `b` by code points, a proper prefix first.
pub open spec fn text_before(a: Seq<char>, b: Seq<char>) -> bool
    decreases a.len(),
{
    if b.len() == 0 {
        false
    } else if a.len() == 0 {
        true
    } else if a[0] != b[0] {
        (a[0] as u32) < (b[0] as u32)
    } else {
        text_before(a.drop_first(), b.drop_first())
    }
}

/// Component sequences in lexicographic order, a proper prefix first.
pub open spec fn components_before(a: Seq<Seq<char>>, b: Seq<Seq<char>>) -> bool
    decreases a.len(),
{
    if b.len() == 0 {
        false
    } else if a.len() == 0 {
        true
    } else if a[0] != b[0] {
        text_before(a[0], b[0])
    } else {
        components_before(a.drop_first(), b.drop_first())
    }
}

/// Path `a` sorts before path `b` as `std::path::Path` orders them: by
/// components, a leading `.` before any name.
pub open spec fn path_before(a: Seq<char>, b: Seq<char>) -> bool {
    components_before(path_components(a), path_components(b))
}

/// `s` with `e` inserted after every entry that does not sort after it.
pub open spec fn insert_entry(s: Seq<SnapshotEntry>, e: SnapshotEntry) -> Seq<SnapshotEntry>
    decreases s.len(),
{
    if s.len() == 0 {
        seq![e]
    } else if path_before(e.path@, s.last().path@) {
        insert_entry(s.drop_last(), e).push(s.last())
    } else {
        s.push(e)
    }
}

/// The entries sorted by path, entries of equal paths in their given order.
pub open spec fn sorted_entries(s: Seq<SnapshotEntry>) -> Seq<SnapshotEntry>
    decreases s.len(),
{
    if s.len() == 0 {
        s
    } else {
        insert_entry(sorted_entries(s.drop_last()), s.last())
    }
}

fn text_before_exec(a: &[char], b: &[char]) -> (r: bool)
    ensures
        r == text_before(a@, b@),
{
    let mut i: usize = 0;
    assert(a@.subrange(0, a@.len() as int) =~= a@);
    assert(b@.subrange(0, b@.len() as int) =~= b@);
    loop
        invariant
            i <= a@.len(),
            i <= b@.len(),
            text_before(a@, b@) == text_before(
                a@.subrange(i as int, a@.len() as int),
                b@.subrange(i as int, b@.len() as int),
            ),
        decreases a@.len() - i,
    {
        let ghost sa = a@.subrange(i as int, a@.len() as int);
        let ghost sb = b@.subrange(i as int, b@.len() as int);
        if i == b.len() {
            return false;
        }
        if i == a.len() {
            return true;
        }
        assert(sa[0] == a@[i as int] && sb[0] == b@[i as int]);
        if a[i] != b[i] {
            return (a[i] as u32) < (b[i] as u32);
        }
        assert(sa.drop_first() =~= a@.subrange(i + 1, a@.len() as int));
        assert(sb.drop_first() =~= b@.subrange(i + 1, b@.len() as int));
        i += 1;
    }
}

fn components_before_exec(a: &Vec<Vec<char>>, b: &Vec<Vec<char>>) -> (r: bool)
    ensures
        r == components_before(component_views(a@), component_views(b@)),
{
    let ghost va = component_views(a@);
    let ghost vb = component_views(b@);
    let mut i: usize = 0;
    assert(va.subrange(0, va.len() as int) =~= va);
    assert(vb.subrange(0, vb.len() as int) =~= vb);
    loop
        invariant
            va == component_views(a@),
            vb == component_views(b@),
            i <= a@.len(),
            i <= b@.len(),
            components_before(va, vb) == components_before(
                va.subrange(i as int, va.len() as int),
                vb.subrange(i as int, vb.len() as int),
            ),
        decreases a@.len() - i,
    {
        let ghost sa = va.subrange(i as int, va.len() as int);
        let ghost sb = vb.subrange(i as int, vb.len() as int);
        if i == b.len() {
            return false;
        }
        if i == a.len() {
            return true;
        }
        assert(sa[0] == a@[i as int]@ && sb[0] == b@[i as int]@);
        if !chars_eq(&a[i], &b[i]) {
            return text_before_exec(&a[i], &b[i]);
        }
        assert(sa.drop_first() =~= va.subrange(i + 1, va.len() as int));
        assert(sb.drop_first() =~= vb.subrange(i + 1, vb.len() as int));
        i += 1;
    }
}

/// Whether path `a` sorts before path `b`.
pub fn path_sorts_before(a: &str, b: &str) -> (r: bool)
    ensures
        r == path_before(a@, b@),
{
    let ca = components_of(&chars_of(a));
    let cb = components_of(&chars_of(b));
    components_before_exec(&ca, &cb)
}

impl SnapshotEntry {
    /// A copy of the entry.
    pub fn duplicate(&self) -> (e: Self)
        ensures
            e == *self,
    {
        SnapshotEntry { path: self.path.clone(), hash: self.hash, size: self.size }
    }
}

proof fn lemma_insert_at(s: Seq<SnapshotEntry>, e: SnapshotEntry, j: int)
    requires
        0 <= j <= s.len(),
        forall|k: int| j <= k < s.len() ==> path_before(e.path@, #[trigger] s[k].path@),
        j == 0 || !path_before(e.path@, s[j - 1].path@),
    ensures
        insert_entry(s, e) == s.insert(j, e),
    decreases s.len(),
{
    if s.len() == 0 {
        assert(s.insert(j, e) =~= seq![e]);
    } else if j == s.len() {
        assert(s.insert(j, e) =~= s.push(e));
    } else {
        assert(path_before(e.path@, s[s.len() - 1].path@));
        lemma_insert_at(s.drop_last(), e, j);
        assert(s.drop_last().insert(j, e).push(s.last()) =~= s.insert(j, e));
    }
}

/// The entries sorted by path as `std::path::Path` orders them, entries of
/// equal paths in their given order.
pub fn sort_entries(entries: &[SnapshotEntry]) -> (r: Vec<SnapshotEntry>)
    ensures
        r@ == sorted_entries(entries@),
{
    let mut r: Vec<SnapshotEntry> = Vec::new();
    let mut i: usize = 0;
    assert(entries@.take(0) =~= Seq::<SnapshotEntry>::empty());
    while i < entries.len()
        invariant
            i <= entries@.len(),
            r@ == sorted_entries(entries@.take(i as int)),
        decreases entries.len() - i,
    {
        let e = entries[i].duplicate();
        let mut j: usize = r.len();
        while j > 0 && path_sorts_before(e.path.as_str(), r[j - 1].path.as_str())
            invariant
                j <= r@.len(),
                forall|k: int| j <= k < r@.len() ==> path_before(e.path@, #[trigger] r@[k].path@),
            decreases j,
        {
            j -= 1;
        }
        proof {
            lemma_insert_at(r@, e, j as int);
            assert(entries@.take(i + 1).drop_last() =~= entries@.take(i as int));
            assert(entries@.take(i + 1).last() == entries@[i as int]);
        }
        r.insert(j, e);
        i += 1;
    }
    assert(entries@.take(entries@.len() as int) =~= entries@);
    r
}

/// The path-level changes from one snapshot to another.
#[derive(Debug)]
pub struct SnapshotDiff {
    pub added: Vec<SnapshotEntry>,
    pub removed: Vec<SnapshotEntry>,
    pub modified: Vec<(SnapshotEntry, SnapshotEntry)>,
}

/// Some entry of `s` has the same path, component for component.
pub open spec fn has_path(s: Seq<SnapshotEntry>, path: Seq<char>) -> bool {
    exists|i: int| 0 <= i < s.len() && #[trigger] path_components(s[i].path@) == path_components(path)
}

/// The first entry of `s` with the same path as `path`.
pub open spec fn entry_at_path(s: Seq<SnapshotEntry>, path: Seq<char>) -> SnapshotEntry
    decreases s.len(),
{
    if s.len() == 0 {
        arbitrary()
    } else if path_components(s[0].path@) == path_components(path) {
        s[0]
    } else {
        entry_at_path(s.drop_first(), path)
    }
}

/// The test that an entry's path is not in `s`.
pub open spec fn absent_from(s: Seq<SnapshotEntry>) -> spec_fn(SnapshotEntry) -> bool {
    |e: SnapshotEntry| !has_path(s, e.path@)
}

/// The test that an entry's path is in `s` with another hash or size.
pub open spec fn changed_in(s: Seq<SnapshotEntry>) -> spec_fn(SnapshotEntry) -> bool {
    |e: SnapshotEntry| has_path(s, e.path@) && (entry_at_path(s, e.path@).hash != e.hash || entry_at_path(
        s,
        e.path@,
    ).size != e.size)
}

/// The entry of `s` at an entry's path, paired with the entry.
pub open spec fn paired_with(s: Seq<SnapshotEntry>) -> spec_fn(SnapshotEntry) -> (SnapshotEntry, SnapshotEntry) {
    |e: SnapshotEntry| (entry_at_path(s, e.path@), e)
}

fn find_path(s: &Vec<SnapshotEntry>, comps: &Vec<Vec<char>>) -> (r: Option<usize>)
    ensures
        match r {
            Some(i) => i < s@.len() && path_components(s@[i as int].path@) == component_views(comps@) && forall|k: int|
                0 <= k < i ==> path_components(#[trigger] s@[k].path@) != component_views(comps@),
            None => forall|k: int| 0 <= k < s@.len() ==> path_components(#[trigger] s@[k].path@) != component_views(
                comps@,
            ),
        },
{
    let mut i: usize = 0;
    while i < s.len()
        invariant
            i <= s@.len(),
            forall|k: int| 0 <= k < i ==> path_components(#[trigger] s@[k].path@) != component_views(comps@),
        decreases s.len() - i,
    {
        let c = components_of(&chars_of(s[i].path.as_str()));
        if components_eq(&c, comps) {
            return Some(i);
        }
        i += 1;
    }
    None
}

proof fn lemma_entry_at_first(s: Seq<SnapshotEntry>, path: Seq<char>, i: int)
    requires
        0 <= i < s.len(),
        path_components(s[i].path@) == path_components(path),
        forall|k: int| 0 <= k < i ==> path_components(#[trigger] s[k].path@) != path_components(path),
    ensures
        entry_at_path(s, path) == s[i],
    decreases i,
{
    if i > 0 {
        assert forall|k: int| 0 <= k < i - 1 implies path_components(#[trigger] s.drop_first()[k].path@)
            != path_components(path) by {
            assert(s.drop_first()[k] == s[k + 1]);
        }
        lemma_entry_at_first(s.drop_first(), path, i - 1);
    }
}

impl Snapshot {
    /// Compare two valid snapshots by path: the entries only `other` has,
    /// those only this one has, and the pairs whose hash or size changed,
    /// each in path order.
    pub fn diff(&self, other: &Snapshot, encoded_self: &[u8], encoded_other: &[u8]) -> (r: Result<SnapshotDiff>)
        requires
            total_size(self.entries@) <= u64::MAX,
            total_size(other.entries@) <= u64::MAX,
        ensures
            r is Ok <==> snapshot_error(*self, encoded_self@) is None && snapshot_error(*other, encoded_other@) is None,
            r is Err ==> (r matches Err(SyncwebError::InvalidConfig(m)) && (snapshot_error(*self, encoded_self@) == Some(
                m@,
            ) || (snapshot_error(*self, encoded_self@) is None && snapshot_error(*other, encoded_other@) == Some(
                m@,
            )))),
            r matches Ok(d) ==> {
                &&& d.added@ == sorted_entries(other.entries@).filter(absent_from(self.entries@))
                &&& d.removed@ == sorted_entries(self.entries@).filter(absent_from(other.entries@))
                &&& d.modified@ == sorted_entries(other.entries@).filter(changed_in(self.entries@)).map_values(
                    paired_with(self.entries@),
                )
            },
    {
        self.validate(encoded_self)?;
        other.validate(encoded_other)?;
        let left = &self.entries;
        let right = sort_entries(other.entries.as_slice());
        let ghost rs = right@;
        let mut added: Vec<SnapshotEntry> = Vec::new();
        let mut modified: Vec<(SnapshotEntry, SnapshotEntry)> = Vec::new();
        let mut i: usize = 0;
        while i < right.len()
            invariant
                rs == right@,
                rs == sorted_entries(other.entries@),
                left == &self.entries,
                i <= rs.len(),
                added@ == rs.take(i as int).filter(absent_from(left@)),
                modified@ == rs.take(i as int).filter(changed_in(left@)).map_values(paired_with(left@)),
            decreases right.len() - i,
        {
            let e = &right[i];
            let comps = components_of(&chars_of(e.path.as_str()));
            proof {
                reveal(Seq::filter);
                assert(rs.take(i + 1).drop_last() =~= rs.take(i as int));
                assert(rs.take(i + 1).last() == rs[i as int]);
            }
            let ghost a0 = added@;
            let ghost m0 = modified@;
            match find_path(left, &comps) {
                None => {
                    proof {
                        assert(!has_path(left@, e.path@));
                    }
                    added.push(e.duplicate());
                    proof {
                        assert(!changed_in(left@)(*e));
                    }
                },
                Some(k) => {
                    proof {
                        assert(has_path(left@, e.path@));
                        lemma_entry_at_first(left@, e.path@, k as int);
                    }
                    let prev = &left[k];
                    let same_hash = crate::resilience::bytes_eq(&prev.hash, &e.hash);
                    proof {
                        if same_hash {
                            assert(prev.hash@ =~= e.hash@);
                            assert(prev.hash == e.hash);
                        }
                    }
                    if !same_hash || prev.size != e.size {
                        modified.push((prev.duplicate(), e.duplicate()));
                        proof {
                            let f = rs.take(i + 1).filter(changed_in(left@));
                            assert(f == rs.take(i as int).filter(changed_in(left@)).push(*e));
                            assert(modified@ =~= m0.push(paired_with(left@)(*e)));
                            assert(f.map_values(paired_with(left@)) =~= rs.take(i as int).filter(changed_in(left@)).map_values(
                                paired_with(left@),
                            ).push(paired_with(left@)(*e)));
                        }
                    } else {
                        proof {
                            assert(!changed_in(left@)(*e));
                        }
                    }
                },
            }
            i += 1;
        }
        assert(rs.take(rs.len() as int) =~= rs);
        let lsorted = sort_entries(left.as_slice());
        let ghost ls = lsorted@;
        let mut removed: Vec<SnapshotEntry> = Vec::new();
        let mut j: usize = 0;
        while j < lsorted.len()
            invariant
                ls == lsorted@,
                ls == sorted_entries(self.entries@),
                j <= ls.len(),
                removed@ == ls.take(j as int).filter(absent_from(other.entries@)),
            decreases lsorted.len() - j,
        {
            let e = &lsorted[j];
            let comps = components_of(&chars_of(e.path.as_str()));
            proof {
                reveal(Seq::filter);
                assert(ls.take(j + 1).drop_last() =~= ls.take(j as int));
                assert(ls.take(j + 1).last() == ls[j as int]);
            }
            match find_path(&other.entries, &comps) {
                None => {
                    proof {
                        assert(!has_path(other.entries@, e.path@));
                    }
                    removed.push(e.duplicate());
                },
                Some(k) => {
                    proof {
                        assert(has_path(other.entries@, e.path@));
                    }
                },
            }
            j += 1;
        }
        assert(ls.take(ls.len() as int) =~= ls);
        Ok(SnapshotDiff { added, removed, modified })
    }
}

/// The pin name of a snapshot's manifest blob.
pub open spec fn manifest_pin_text(id: Seq<u8>) -> Seq<char> {
    "syncweb/snapshot/"@ + hex_text(id) + "/manifest"@
}

/// The pin name of a content blob a snapshot references.
pub open spec fn content_pin_text(id: Seq<u8>, hash: Seq<u8>) -> Seq<char> {
    "syncweb/snapshot/"@ + hex_text(id) + "/blob/"@ + hex_text(hash)
}

/// The pin name of a snapshot's manifest blob.
pub fn snapshot_manifest_pin(id: &[u8; 32]) -> (s: String)
    ensures
        s@ == manifest_pin_text(id@),
{
    let h = hex_encode(id);
    let a = concat_chars(&chars_of("syncweb/snapshot/"), &chars_of(h.as_str()));
    string_of(&concat_chars(&a, &chars_of("/manifest")))
}

/// The pin name of a content blob a snapshot references.
pub fn snapshot_content_pin(id: &[u8; 32], hash: &[u8; 32]) -> (s: String)
    ensures
        s@ == content_pin_text(id@, hash@),
{
    let a = concat_chars(&chars_of("syncweb/snapshot/"), &chars_of(hex_encode(id).as_str()));
    let b = concat_chars(&a, &chars_of("/blob/"));
    string_of(&concat_chars(&b, &chars_of(hex_encode(hash).as_str())))
}

} // verus!
