//! Find queries over file metadata: depth, size, time, extension, type,
//! hidden-file and pattern filters.
use vstd::prelude::*;
use vstd::string::*;

use crate::error::Result;
use crate::parsing::{
    modified_time_spec, parse_modified_time_at, parse_relative_time_at, parse_relative_time_overflows, parse_relative_time_spec,
    parse_size_constraint, parse_size_constraint_overflows, parse_size_constraint_spec,
};
use crate::text::{
    chars_eq, chars_of, concat_chars, contains_chars, contains_seq, find_char, lemma_find_char_bound,
    split_once, split_once_chars, string_of,
};

verus! {

/// `str::to_lowercase`: the Unicode lower-case mapping of a string.
pub uninterp spec fn unicode_lower(s: Seq<char>) -> Seq<char>;

/// Whether the glob `pattern` (`globset` syntax) builds into a glob set
/// that matches `value`.
pub uninterp spec fn glob_accepts(pattern: Seq<char>, value: Seq<char>) -> bool;

/// Whether `pattern` compiles as a `regex` regular expression.
pub uninterp spec fn regex_compiles(pattern: Seq<char>) -> bool;

/// Whether the regular expression `pattern` matches somewhere in `text`.
pub uninterp spec fn regex_finds(pattern: Seq<char>, text: Seq<char>) -> bool;

/// `str::to_lowercase`, named: the mapping takes Unicode's tables to state.
#[verifier::external_body]
pub fn str_to_lowercase(s: &str) -> (r: String)
    ensures
        r@ == unicode_lower(s@),
{
    s.to_lowercase()
}

/// `globset::Glob::new(pattern)` built into a `GlobSet` of that one glob
/// (`GlobSetBuilder::build`, which reports a regex that cannot be built as
/// an error) and applied to `value`; a pattern that does not parse or
/// build matches nothing.
///
/// Building a set whose strategy is a literal prefix or suffix unwraps an
/// Aho-Corasick automaton of about one state per byte of the literal, which
/// fails past `i32::MAX` states; the `requires` keeps patterns well below.
#[verifier::external_body]
fn glob_match(pattern: &str, value: &str) -> (b: bool)
    requires
        glob_fits(pattern@),
    ensures
        b == glob_accepts(pattern@, value@),
{
    let glob = match globset::Glob::new(pattern) {
        Ok(glob) => glob,
        Err(_) => return false,
    };
    match globset::GlobSetBuilder::new().add(glob).build() {
        Ok(set) => set.is_match(value),
        Err(_) => false,
    }
}

/// The longest glob pattern, in bytes, that is matched.
pub const GLOB_PATTERN_LIMIT: usize = 0x7000_0000;

/// `regex::Regex::new(pattern)` and `Regex::is_match(text)`: `None` when
/// the pattern does not compile.
#[verifier::external_body]
fn regex_match(pattern: &str, text: &str) -> (r: Option<bool>)
    ensures
        r is Some <==> regex_compiles(pattern@),
        r matches Some(b) ==> b == regex_finds(pattern@, text@),
{
    match regex::Regex::new(pattern) {
        Ok(re) => Some(re.is_match(text)),
        Err(_) => None,
    }
}

/// How a find pattern is read.
#[derive(Clone, Copy, Debug, PartialEq, Eq, Structural)]
pub enum MatchKind {
    Exact,
    Glob,
    Regex,
}

impl Default for MatchKind {
    fn default() -> (k: Self)
        ensures
            k == MatchKind::Glob,
    {
        MatchKind::Glob
    }
}

/// The kind of a file-system entry.
#[derive(Clone, Copy, Debug, PartialEq, Eq, Structural)]
pub enum FileType {
    File,
    Directory,
    Symlink,
}

/// Metadata of one scanned entry; `modified` is in seconds since the Unix
/// epoch.
#[derive(Debug)]
pub struct FileEntry {
    pub path: String,
    pub relative_path: String,
    pub size: u64,
    pub modified: i64,
    pub hash: [u8; 32],
    pub file_type: FileType,
}

impl Clone for FileEntry {
    fn clone(&self) -> (r: Self)
        ensures
            r == *self,
    {
        FileEntry {
            path: self.path.clone(),
            relative_path: self.relative_path.clone(),
            size: self.size,
            modified: self.modified,
            hash: self.hash,
            file_type: self.file_type,
        }
    }
}

/// A path segment that is a component: neither empty nor `.`.
pub open spec fn kept_segment(g: Seq<char>) -> bool {
    g.len() > 0 && g != "."@
}

/// Number of kept segments of `s`, split at `/`.
pub open spec fn count_kept(s: Seq<char>) -> nat
    decreases s.len(),
{
    match find_char(s, '/') {
        None => if kept_segment(s) {
            1
        } else {
            0
        },
        Some(i) => (if kept_segment(s.subrange(0, i)) {
            1nat
        } else {
            0nat
        }) + if 0 <= i < s.len() {
            count_kept(s.subrange(i + 1, s.len() as int))
        } else {
            0
        },
    }
}

/// The last kept segment of `s`.
pub open spec fn last_kept(s: Seq<char>) -> Option<Seq<char>>
    decreases s.len(),
{
    match find_char(s, '/') {
        None => if kept_segment(s) {
            Some(s)
        } else {
            None
        },
        Some(i) => {
            let tail = if 0 <= i < s.len() {
                last_kept(s.subrange(i + 1, s.len() as int))
            } else {
                None
            };
            match tail {
                Some(x) => Some(x),
                None => if kept_segment(s.subrange(0, i)) {
                    Some(s.subrange(0, i))
                } else {
                    None
                },
            }
        },
    }
}

/// The first segment of `s`, split at `/`.
pub open spec fn first_segment(s: Seq<char>) -> Seq<char> {
    match split_once(s, '/') {
        Some((h, _)) => h,
        None => s,
    }
}

/// `Path::components().count()` on Unix: a root, a leading `.`, and every
/// segment that is neither empty nor `.`.
pub open spec fn path_components_count(s: Seq<char>) -> nat {
    let root = s.len() > 0 && s[0] == '/';
    (if root {
        1nat
    } else {
        0nat
    }) + (if !root && first_segment(s) == "."@ {
        1nat
    } else {
        0nat
    }) + count_kept(s)
}

/// `Path::file_name` on Unix: the last component when it is a name.
pub open spec fn file_name_spec(s: Seq<char>) -> Option<Seq<char>> {
    match last_kept(s) {
        Some(g) => if g == ".."@ {
            None
        } else {
            Some(g)
        },
        None => None,
    }
}

/// Index of the last occurrence of `c`.
pub open spec fn rfind_char(s: Seq<char>, c: char) -> Option<int>
    decreases s.len(),
{
    if s.len() == 0 {
        None
    } else if s.last() == c {
        Some(s.len() - 1)
    } else {
        rfind_char(s.drop_last(), c)
    }
}

/// `Path::extension` of a file name: the text after its last dot, unless
/// the only dot leads the name.
pub open spec fn extension_spec(name: Seq<char>) -> Option<Seq<char>> {
    if name == ".."@ {
        None
    } else {
        match rfind_char(name, '.') {
            None => None,
            Some(i) => if i == 0 {
                None
            } else {
                Some(name.subrange(i + 1, name.len() as int))
            },
        }
    }
}

/// The extension of an entry's path.
pub open spec fn entry_extension(e: FileEntry) -> Option<Seq<char>> {
    match file_name_spec(e.path@) {
        Some(n) => extension_spec(n),
        None => None,
    }
}

/// Number of kept segments of `v`.
fn count_kept_exec(v: &[char]) -> (n: usize)
    ensures
        n == count_kept(v@),
{
    let mut rest: Vec<char> = crate::text::slice_chars(v, 0, v.len());
    assert(rest@ =~= v@);
    let mut n: usize = 0;
    loop
        invariant
            n + count_kept(rest@) == count_kept(v@),
            n + rest@.len() <= v@.len(),
            v@.len() <= usize::MAX,
        decreases rest@.len(),
    {
        proof {
            lemma_find_char_bound(rest@, '/');
        }
        match split_once_chars(&rest, '/') {
            None => {
                let k = is_kept(&rest);
                if k {
                    return n + 1;
                }
                return n;
            },
            Some((head, tail)) => {
                proof {
                    let i = find_char(rest@, '/')->0;
                    assert(head@.len() == i);
                    assert(tail@.len() == rest@.len() - i - 1);
                }
                let k = is_kept(&head);
                if k {
                    n = n + 1;
                }
                rest = tail;
            },
        }
    }
}

fn is_kept(g: &[char]) -> (b: bool)
    ensures
        b == kept_segment(g@),
{
    g.len() > 0 && !crate::parsing::eq_lit(g, ".")
}

/// The last kept segment of `v`.
fn last_kept_exec(v: &[char]) -> (r: Option<Vec<char>>)
    ensures
        match r {
            Some(x) => last_kept(v@) == Some(x@),
            None => last_kept(v@) is None,
        },
    decreases v@.len(),
{
    proof {
        lemma_find_char_bound(v@, '/');
    }
    match split_once_chars(v, '/') {
        None => if is_kept(v) {
            Some(crate::text::slice_chars(v, 0, v.len()))
        } else {
            None
        },
        Some((head, tail)) => {
            assert(tail@.len() < v@.len());
            match last_kept_exec(&tail) {
                Some(x) => Some(x),
                None => if is_kept(&head) {
                    Some(head)
                } else {
                    None
                },
            }
        },
    }
}

/// Number of components of a path (`Path::components().count()`).
pub fn path_depth(path: &str) -> (n: usize)
    ensures
        n == path_components_count(path@),
{
    let v = chars_of(path);
    let root = v.len() > 0 && v[0] == '/';
    let first = match split_once_chars(&v, '/') {
        Some((h, _)) => h,
        None => crate::text::slice_chars(&v, 0, v.len()),
    };
    assert(v@.subrange(0, v@.len() as int) =~= v@);
    let lead = !root && crate::parsing::eq_lit(&first, ".");
    let kept = count_kept_exec(&v);
    proof {
        lemma_path_depth_bound(v@);
    }
    (if root {
        1usize
    } else {
        0usize
    }) + (if lead {
        1usize
    } else {
        0usize
    }) + kept
}

proof fn lemma_count_kept_bound(s: Seq<char>)
    ensures
        count_kept(s) <= s.len(),
    decreases s.len(),
{
    lemma_find_char_bound(s, '/');
    if let Some(i) = find_char(s, '/') {
        lemma_count_kept_bound(s.subrange(i + 1, s.len() as int));
    }
}

proof fn lemma_path_depth_bound(s: Seq<char>)
    ensures
        path_components_count(s) <= s.len(),
{
    lemma_find_char_bound(s, '/');
    lemma_count_kept_bound(s);
    if let Some(i) = find_char(s, '/') {
        lemma_count_kept_bound(s.subrange(i + 1, s.len() as int));
        if s.len() > 0 && s[0] == '/' {
            assert(find_char(s, '/') == Some(0int));
        }
        if first_segment(s) == "."@ {
            reveal_strlit(".");
        }
    } else {
        if first_segment(s) == "."@ {
            reveal_strlit(".");
        }
    }
}

/// The file name of a path (`Path::file_name`).
pub fn file_name(path: &str) -> (r: Option<String>)
    ensures
        match r {
            Some(n) => file_name_spec(path@) == Some(n@),
            None => file_name_spec(path@) is None,
        },
{
    let v = chars_of(path);
    match last_kept_exec(&v) {
        Some(g) => if crate::parsing::eq_lit(&g, "..") {
            None
        } else {
            Some(string_of(&g))
        },
        None => None,
    }
}

fn rfind_char_exec(v: &[char], c: char) -> (r: Option<usize>)
    ensures
        match r {
            Some(i) => rfind_char(v@, c) == Some(i as int),
            None => rfind_char(v@, c) is None,
        },
{
    let mut j: usize = v.len();
    assert(v@.subrange(0, v@.len() as int) =~= v@);
    while j > 0
        invariant
            j <= v.len(),
            rfind_char(v@, c) == rfind_char(v@.subrange(0, j as int), c),
        decreases j,
    {
        let ghost t = v@.subrange(0, j as int);
        assert(t.drop_last() =~= v@.subrange(0, j - 1));
        if v[j - 1] == c {
            return Some(j - 1);
        }
        j -= 1;
    }
    None
}

/// The extension of a file name (`Path::extension`).
pub fn extension_of(name: &[char]) -> (r: Option<Vec<char>>)
    ensures
        match r {
            Some(x) => extension_spec(name@) == Some(x@),
            None => extension_spec(name@) is None,
        },
{
    proof {
        assert(name@.subrange(0, name@.len() as int) =~= name@);
    }
    if crate::parsing::eq_lit(name, "..") {
        return None;
    }
    proof {
        lemma_rfind_bound(name@, '.');
    }
    match rfind_char_exec(name, '.') {
        None => None,
        Some(i) => if i == 0 {
            None
        } else {
            let n = name.len();
            assert(i < n);
            Some(crate::text::slice_chars(name, i + 1, n))
        },
    }
}

proof fn lemma_rfind_bound(s: Seq<char>, c: char)
    ensures
        rfind_char(s, c) is Some ==> 0 <= rfind_char(s, c)->0 < s.len(),
    decreases s.len(),
{
    if s.len() > 0 && s.last() != c {
        lemma_rfind_bound(s.drop_last(), c);
    }
}

impl FileEntry {
    /// The entry's file name.
    pub fn name(&self) -> (r: Option<String>)
        ensures
            match r {
                Some(n) => file_name_spec(self.path@) == Some(n@),
                None => file_name_spec(self.path@) is None,
            },
    {
        file_name(self.path.as_str())
    }
}

/// Filters of a find query; times are seconds since the Unix epoch.
#[derive(Debug)]
pub struct FindQuery {
    pub pattern: String,
    pub kind: MatchKind,
    pub max_depth: Option<usize>,
    pub min_depth: Option<usize>,
    pub min_size: Option<u64>,
    pub max_size: Option<u64>,
    pub modified_after: Option<i64>,
    pub modified_before: Option<i64>,
    pub extension: Option<String>,
    pub extensions: Vec<String>,
    pub file_type: Option<FileType>,
    pub case_sensitive: Option<bool>,
    pub fixed_strings: bool,
    pub full_path: bool,
    pub hidden: bool,
    pub follow_links: bool,
    pub absolute_path: bool,
    pub downloadable: bool,
    pub sync_mode: Option<String>,
}

/// A query with every filter off, matching with `kind`.
pub open spec fn blank_query(q: FindQuery, pattern: Seq<char>, kind: MatchKind) -> bool {
    &&& q.pattern@ == pattern
    &&& q.kind == kind
    &&& q.max_depth is None
    &&& q.min_depth is None
    &&& q.min_size is None
    &&& q.max_size is None
    &&& q.modified_after is None
    &&& q.modified_before is None
    &&& q.extension is None
    &&& q.extensions@.len() == 0
    &&& q.file_type is None
    &&& q.case_sensitive is None
    &&& !q.fixed_strings
    &&& !q.full_path
    &&& !q.hidden
    &&& !q.follow_links
    &&& !q.absolute_path
    &&& !q.downloadable
    &&& q.sync_mode is None
}

/// `s` without its leading dots.
pub open spec fn trim_leading_dots(s: Seq<char>) -> Seq<char>
    decreases s.len(),
{
    if s.len() > 0 && s[0] == '.' {
        trim_leading_dots(s.drop_first())
    } else {
        s
    }
}

fn trim_leading_dots_exec(v: &[char]) -> (r: Vec<char>)
    ensures
        r@ == trim_leading_dots(v@),
{
    let mut i: usize = 0;
    assert(v@.subrange(0, v@.len() as int) =~= v@);
    while i < v.len() && v[i] == '.'
        invariant
            i <= v.len(),
            trim_leading_dots(v@) == trim_leading_dots(v@.subrange(i as int, v@.len() as int)),
        decreases v.len() - i,
    {
        assert(v@.subrange(i as int, v@.len() as int).drop_first() =~= v@.subrange(i + 1, v@.len() as int));
        i += 1;
    }
    crate::text::slice_chars(v, i, v.len())
}

fn clone_opt_string(o: &Option<String>) -> (r: Option<String>)
    ensures
        r == *o,
{
    match o {
        Some(s) => Some(s.clone()),
        None => None,
    }
}

fn clone_strings(v: &Vec<String>) -> (r: Vec<String>)
    ensures
        r@ == v@,
{
    let mut r: Vec<String> = Vec::new();
    let mut i: usize = 0;
    while i < v.len()
        invariant
            i <= v.len(),
            r@ == v@.subrange(0, i as int),
        decreases v.len() - i,
    {
        r.push(v[i].clone());
        i += 1;
        assert(r@ =~= v@.subrange(0, i as int));
    }
    assert(v@.subrange(0, v@.len() as int) =~= v@);
    r
}

/// Two queries hold the same filters.
pub open spec fn same_query(a: FindQuery, b: FindQuery) -> bool {
    &&& a.pattern == b.pattern
    &&& a.kind == b.kind
    &&& a.max_depth == b.max_depth
    &&& a.min_depth == b.min_depth
    &&& a.min_size == b.min_size
    &&& a.max_size == b.max_size
    &&& a.modified_after == b.modified_after
    &&& a.modified_before == b.modified_before
    &&& a.extension == b.extension
    &&& a.extensions@ == b.extensions@
    &&& a.file_type == b.file_type
    &&& a.case_sensitive == b.case_sensitive
    &&& a.fixed_strings == b.fixed_strings
    &&& a.full_path == b.full_path
    &&& a.hidden == b.hidden
    &&& a.follow_links == b.follow_links
    &&& a.absolute_path == b.absolute_path
    &&& a.downloadable == b.downloadable
    &&& a.sync_mode == b.sync_mode
}

impl Clone for FindQuery {
    fn clone(&self) -> (r: Self)
        ensures
            same_query(r, *self),
    {
        FindQuery {
            pattern: self.pattern.clone(),
            kind: self.kind,
            max_depth: self.max_depth,
            min_depth: self.min_depth,
            min_size: self.min_size,
            max_size: self.max_size,
            modified_after: self.modified_after,
            modified_before: self.modified_before,
            extension: clone_opt_string(&self.extension),
            extensions: clone_strings(&self.extensions),
            file_type: self.file_type,
            case_sensitive: self.case_sensitive,
            fixed_strings: self.fixed_strings,
            full_path: self.full_path,
            hidden: self.hidden,
            follow_links: self.follow_links,
            absolute_path: self.absolute_path,
            downloadable: self.downloadable,
            sync_mode: clone_opt_string(&self.sync_mode),
        }
    }
}

impl Default for FindQuery {
    fn default() -> (q: Self)
        ensures
            blank_query(q, seq![], MatchKind::Glob),
    {
        let q = Self::with_kind("", MatchKind::Glob);
        proof {
            reveal_strlit("");
            assert(q.pattern@ =~= seq![]);
        }
        q
    }
}

/// The fold of size constraints: the largest minimum and the smallest
/// maximum; `None` when a constraint does not parse.
pub open spec fn size_fold(list: Seq<Seq<char>>) -> Option<(Option<u64>, Option<u64>)>
    decreases list.len(),
{
    if list.len() == 0 {
        Some((None, None))
    } else {
        match (size_fold(list.drop_last()), parse_size_constraint_spec(list.last())) {
            (Some(acc), Some(c)) => Some(size_step(acc, c)),
            _ => None,
        }
    }
}

/// One constraint folded into the bounds so far.
pub open spec fn size_step(acc: (Option<u64>, Option<u64>), c: (Option<u64>, Option<u64>)) -> (Option<u64>, Option<u64>) {
    (
        match c.0 {
            Some(n) => Some(
                match acc.0 {
                    Some(v) => if v >= n {
                        v
                    } else {
                        n
                    },
                    None => n,
                },
            ),
            None => acc.0,
        },
        match c.1 {
            Some(n) => Some(
                match acc.1 {
                    Some(v) => if v <= n {
                        v
                    } else {
                        n
                    },
                    None => n,
                },
            ),
            None => acc.1,
        },
    )
}

fn size_step_exec(acc: (Option<u64>, Option<u64>), c: (Option<u64>, Option<u64>)) -> (r: (Option<u64>, Option<u64>))
    ensures
        r == size_step(acc, c),
{
    let lo = match c.0 {
        Some(n) => Some(
            match acc.0 {
                Some(v) => if v >= n {
                    v
                } else {
                    n
                },
                None => n,
            },
        ),
        None => acc.0,
    };
    let hi = match c.1 {
        Some(n) => Some(
            match acc.1 {
                Some(v) => if v <= n {
                    v
                } else {
                    n
                },
                None => n,
            },
        ),
        None => acc.1,
    };
    (lo, hi)
}

pub open spec fn str_views(v: Seq<String>) -> Seq<Seq<char>> {
    v.map_values(|s: String| s@)
}

/// Bounds on the modification time: the latest "newer than" and the
/// earliest "older than" seen from `now`; `None` when a string does not
/// parse.
pub open spec fn time_fold(
    within: Seq<Seq<char>>,
    before: Seq<Seq<char>>,
    modified: Seq<Seq<char>>,
    now: i64,
) -> Option<(Option<i64>, Option<i64>)>
    decreases within.len() + before.len() + modified.len(),
{
    if modified.len() > 0 {
        match (time_fold(within, before, modified.drop_last(), now), modified_time_spec(modified.last(), now)) {
            (Some((a, b)), Some((older, t))) => if !older {
                Some((Some(max_opt(a, t)), b))
            } else {
                Some((a, Some(min_opt(b, t))))
            },
            _ => None,
        }
    } else if before.len() > 0 {
        match (time_fold(within, before.drop_last(), modified, now), parse_relative_time_spec("-"@ + before.last(), now)) {
            (Some((a, b)), Some(t)) => Some((a, Some(min_opt(b, t)))),
            _ => None,
        }
    } else if within.len() > 0 {
        match (time_fold(within.drop_last(), before, modified, now), parse_relative_time_spec("-"@ + within.last(), now)) {
            (Some((a, b)), Some(t)) => Some((Some(max_opt(a, t)), b)),
            _ => None,
        }
    } else {
        Some((None, None))
    }
}

pub open spec fn max_opt(a: Option<i64>, t: i64) -> i64 {
    match a {
        Some(c) => if t > c {
            t
        } else {
            c
        },
        None => t,
    }
}

pub open spec fn min_opt(a: Option<i64>, t: i64) -> i64 {
    match a {
        Some(c) => if t < c {
            t
        } else {
            c
        },
        None => t,
    }
}

/// No string of the list leaves the `u64` range when scaled.
pub open spec fn relative_times_fit(list: Seq<Seq<char>>, prefix: Seq<char>) -> bool {
    forall|i: int| 0 <= i < list.len() ==> !parse_relative_time_overflows(prefix + #[trigger] list[i])
}

impl FindQuery {
    fn with_kind(pattern: &str, kind: MatchKind) -> (q: Self)
        ensures
            blank_query(q, pattern@, kind),
    {
        FindQuery {
            pattern: pattern.to_string(),
            kind,
            max_depth: None,
            min_depth: None,
            min_size: None,
            max_size: None,
            modified_after: None,
            modified_before: None,
            extension: None,
            extensions: Vec::new(),
            file_type: None,
            case_sensitive: None,
            fixed_strings: false,
            full_path: false,
            hidden: false,
            follow_links: false,
            absolute_path: false,
            downloadable: false,
            sync_mode: None,
        }
    }

    /// A substring query.
    pub fn exact(pattern: &str) -> (q: Self)
        ensures
            blank_query(q, pattern@, MatchKind::Exact),
    {
        Self::with_kind(pattern, MatchKind::Exact)
    }

    /// A glob query.
    pub fn glob(pattern: &str) -> (q: Self)
        ensures
            blank_query(q, pattern@, MatchKind::Glob),
    {
        Self::with_kind(pattern, MatchKind::Glob)
    }

    /// A regular-expression query.
    pub fn regex(pattern: &str) -> (q: Self)
        ensures
            blank_query(q, pattern@, MatchKind::Regex),
    {
        Self::with_kind(pattern, MatchKind::Regex)
    }

    pub fn depth(self, max_depth: usize) -> (q: Self)
        ensures
            q == (FindQuery { max_depth: Some(max_depth), ..self }),
    {
        FindQuery { max_depth: Some(max_depth), ..self }
    }

    pub fn size(self, min: Option<u64>, max: Option<u64>) -> (q: Self)
        ensures
            q == (FindQuery { min_size: min, max_size: max, ..self }),
    {
        FindQuery { min_size: min, max_size: max, ..self }
    }

    /// Require one extension, given with or without leading dots.
    pub fn extension(self, extension: &str) -> (q: Self)
        ensures
            q.extension is Some,
            q.extension->0@ == trim_leading_dots(extension@),
            q == (FindQuery { extension: q.extension, ..self }),
    {
        let e = trim_leading_dots_exec(&chars_of(extension));
        FindQuery { extension: Some(string_of(&e)), ..self }
    }

    /// Require one of several extensions, compared in lower case.
    pub fn extensions(self, exts: Vec<String>) -> (q: Self)
        ensures
            q.extensions@.len() == exts@.len(),
            forall|i: int|
                0 <= i < exts@.len() ==> (#[trigger] q.extensions@[i])@ == unicode_lower(
                    trim_leading_dots(exts@[i]@),
                ),
            q == (FindQuery { extensions: q.extensions, ..self }),
    {
        let mut out: Vec<String> = Vec::new();
        let mut i: usize = 0;
        while i < exts.len()
            invariant
                i <= exts@.len(),
                out@.len() == i,
                forall|k: int|
                    0 <= k < i ==> (#[trigger] out@[k])@ == unicode_lower(trim_leading_dots(exts@[k]@)),
            decreases exts.len() - i,
        {
            let t = string_of(&trim_leading_dots_exec(&chars_of(exts[i].as_str())));
            out.push(str_to_lowercase(t.as_str()));
            i += 1;
        }
        FindQuery { extensions: out, ..self }
    }

    pub fn file_type(self, file_type: FileType) -> (q: Self)
        ensures
            q == (FindQuery { file_type: Some(file_type), ..self }),
    {
        FindQuery { file_type: Some(file_type), ..self }
    }

    /// Only entries modified after `time` (seconds since the epoch).
    pub fn modified_after(self, time: i64) -> (q: Self)
        ensures
            q == (FindQuery { modified_after: Some(time), ..self }),
    {
        FindQuery { modified_after: Some(time), ..self }
    }

    /// Only entries modified before `time` (seconds since the epoch).
    pub fn modified_before(self, time: i64) -> (q: Self)
        ensures
            q == (FindQuery { modified_before: Some(time), ..self }),
    {
        FindQuery { modified_before: Some(time), ..self }
    }

    /// Combine size constraints (`5GB`, `+1MB`, `-10k`, ...): the largest
    /// minimum and the smallest maximum.
    pub fn parse_size_constraints(size_strs: &[String]) -> (r: Result<(Option<u64>, Option<u64>)>)
        requires
            forall|i: int| 0 <= i < size_strs@.len() ==> !parse_size_constraint_overflows(#[trigger] size_strs@[i]@),
        ensures
            r is Ok <==> size_fold(str_views(size_strs@)) is Some,
            r is Ok ==> r->Ok_0 == size_fold(str_views(size_strs@))->0,
            r is Err ==> r->Err_0 is InvalidConfig,
    {
        let ghost list = str_views(size_strs@);
        let mut acc: (Option<u64>, Option<u64>) = (None, None);
        let mut i: usize = 0;
        while i < size_strs.len()
            invariant
                i <= size_strs@.len(),
                list == str_views(size_strs@),
                forall|k: int| 0 <= k < size_strs@.len() ==> !parse_size_constraint_overflows(#[trigger] size_strs@[k]@),
                size_fold(list.subrange(0, i as int)) == Some(acc),
            decreases size_strs.len() - i,
        {
            proof {
                assert(list.subrange(0, i + 1).drop_last() =~= list.subrange(0, i as int));
                assert(list[i as int] == size_strs@[i as int]@);
                assert(list.subrange(0, i + 1).last() == list[i as int]);
            }
            let c = match parse_size_constraint(size_strs[i].as_str()) {
                Ok(p) => p,
                Err(e) => {
                    proof {
                        assert(size_fold(list.subrange(0, i + 1)) is None);
                        lemma_size_fold_none(list, i as int + 1);
                    }
                    return Err(e);
                },
            };
            acc = size_step_exec(acc, c);
            i += 1;
        }
        assert(list.subrange(0, list.len() as int) =~= list);
        Ok(acc)
    }

    /// Combine time constraints seen from `now` (seconds since the epoch):
    /// `within` ("3 days": newer than that long ago), `before` ("3 years":
    /// older than that long ago) and `modified` (`+3 days`: older than that
    /// long ago; `-3 days`: newer than that long ago; an unsigned time in the
    /// future bounds from above).
    pub fn parse_time_constraints_at(
        within_strs: &[String],
        before_strs: &[String],
        modified_strs: &[String],
        now: i64,
    ) -> (r: Result<(Option<i64>, Option<i64>)>)
        requires
            relative_times_fit(str_views(within_strs@), "-"@),
            relative_times_fit(str_views(before_strs@), "-"@),
            relative_times_fit(str_views(modified_strs@), seq![]),
        ensures
            r is Ok <==> time_fold(str_views(within_strs@), str_views(before_strs@), str_views(modified_strs@), now) is Some,
            r is Ok ==> r->Ok_0 == time_fold(str_views(within_strs@), str_views(before_strs@), str_views(modified_strs@), now)->0,
            r is Err ==> r->Err_0 is InvalidConfig,
    {
        let ghost w = str_views(within_strs@);
        let ghost b = str_views(before_strs@);
        let ghost m = str_views(modified_strs@);
        let mut after: Option<i64> = None;
        let mut before: Option<i64> = None;
        let mut i: usize = 0;
        while i < within_strs.len()
            invariant
                i <= within_strs@.len(),
                w == str_views(within_strs@),
                b == str_views(before_strs@),
                m == str_views(modified_strs@),
                relative_times_fit(w, "-"@),
                time_fold(w.subrange(0, i as int), seq![], seq![], now) == Some((after, before)),
            decreases within_strs.len() - i,
        {
            proof {
                assert(w.subrange(0, i + 1).drop_last() =~= w.subrange(0, i as int));
                assert(w[i as int] == within_strs@[i as int]@);
            }
            let text = string_of(&concat_chars(&chars_of("-"), &chars_of(within_strs[i].as_str())));
            assert(text@ == "-"@ + w[i as int]);
            let t = match parse_relative_time_at(text.as_str(), now) {
                Ok(t) => t,
                Err(e) => {
                    proof {
                        assert(w.subrange(0, i + 1).last() == w[i as int]);
                        assert(time_fold(w.subrange(0, i + 1), seq![], seq![], now) is None);
                        lemma_time_fold_none(w, i as int + 1, b, m, now);
                    }
                    return Err(e);
                },
            };
            after = Some(match after {
                Some(c) => if t > c {
                    t
                } else {
                    c
                },
                None => t,
            });
            i += 1;
        }
        assert(w.subrange(0, w.len() as int) =~= w);
        assert(b.subrange(0, 0) =~= seq![]);
        let mut j: usize = 0;
        while j < before_strs.len()
            invariant
                j <= before_strs@.len(),
                w == str_views(within_strs@),
                b == str_views(before_strs@),
                m == str_views(modified_strs@),
                relative_times_fit(b, "-"@),
                time_fold(w, b.subrange(0, j as int), seq![], now) == Some((after, before)),
            decreases before_strs.len() - j,
        {
            proof {
                assert(b.subrange(0, j + 1).drop_last() =~= b.subrange(0, j as int));
                assert(b[j as int] == before_strs@[j as int]@);
            }
            let text = string_of(&concat_chars(&chars_of("-"), &chars_of(before_strs[j].as_str())));
            assert(text@ == "-"@ + b[j as int]);
            let t = match parse_relative_time_at(text.as_str(), now) {
                Ok(t) => t,
                Err(e) => {
                    proof {
                        assert(b.subrange(0, j + 1).last() == b[j as int]);
                        assert(time_fold(w, b.subrange(0, j + 1), seq![], now) is None);
                        lemma_time_fold_none_before(w, b, j as int + 1, m, now);
                    }
                    return Err(e);
                },
            };
            before = Some(match before {
                Some(c) => if t < c {
                    t
                } else {
                    c
                },
                None => t,
            });
            j += 1;
        }
        assert(b.subrange(0, b.len() as int) =~= b);
        assert(m.subrange(0, 0) =~= seq![]);
        let mut k: usize = 0;
        while k < modified_strs.len()
            invariant
                k <= modified_strs@.len(),
                w == str_views(within_strs@),
                b == str_views(before_strs@),
                m == str_views(modified_strs@),
                relative_times_fit(m, seq![]),
                time_fold(w, b, m.subrange(0, k as int), now) == Some((after, before)),
            decreases modified_strs.len() - k,
        {
            proof {
                assert(m.subrange(0, k + 1).drop_last() =~= m.subrange(0, k as int));
                assert(m[k as int] == modified_strs@[k as int]@);
                assert(seq![] + m[k as int] =~= m[k as int]);
            }
            let (older, t) = match parse_modified_time_at(modified_strs[k].as_str(), now) {
                Ok(p) => p,
                Err(e) => {
                    proof {
                        assert(m.subrange(0, k + 1).last() == m[k as int]);
                        assert(time_fold(w, b, m.subrange(0, k + 1), now) is None);
                        lemma_time_fold_none_modified(w, b, m, k as int + 1, now);
                    }
                    return Err(e);
                },
            };
            if !older {
                after = Some(match after {
                    Some(c) => if t > c {
                        t
                    } else {
                        c
                    },
                    None => t,
                });
            } else {
                before = Some(match before {
                    Some(c) => if t < c {
                        t
                    } else {
                        c
                    },
                    None => t,
                });
            }
            k += 1;
        }
        assert(m.subrange(0, m.len() as int) =~= m);
        Ok((after, before))
    }

    /// Combine time constraints seen from the current clock.
    pub fn parse_time_constraints(within_strs: &[String], before_strs: &[String], modified_strs: &[String]) -> (r:
        Result<(Option<i64>, Option<i64>)>)
        requires
            relative_times_fit(str_views(within_strs@), "-"@),
            relative_times_fit(str_views(before_strs@), "-"@),
            relative_times_fit(str_views(modified_strs@), seq![]),
        ensures
            r is Ok ==> exists|now: i64| #[trigger] time_fold(str_views(within_strs@), str_views(before_strs@), str_views(modified_strs@), now) == Some(r->Ok_0),
            r is Err ==> r->Err_0 is InvalidConfig,
    {
        Self::parse_time_constraints_at(within_strs, before_strs, modified_strs, crate::clock::now_seconds())
    }
}

proof fn lemma_size_fold_none(list: Seq<Seq<char>>, n: int)
    requires
        0 <= n <= list.len(),
        size_fold(list.subrange(0, n)) is None,
    ensures
        size_fold(list) is None,
    decreases list.len() - n,
{
    if n < list.len() {
        assert(list.subrange(0, n + 1).drop_last() =~= list.subrange(0, n));
        lemma_size_fold_none(list, n + 1);
    } else {
        assert(list.subrange(0, n) =~= list);
    }
}

proof fn lemma_time_fold_none_modified(w: Seq<Seq<char>>, b: Seq<Seq<char>>, m: Seq<Seq<char>>, n: int, now: i64)
    requires
        0 <= n <= m.len(),
        time_fold(w, b, m.subrange(0, n), now) is None,
    ensures
        time_fold(w, b, m, now) is None,
    decreases m.len() - n,
{
    if n < m.len() {
        assert(m.subrange(0, n + 1).drop_last() =~= m.subrange(0, n));
        lemma_time_fold_none_modified(w, b, m, n + 1, now);
    } else {
        assert(m.subrange(0, n) =~= m);
    }
}

proof fn lemma_time_fold_none_before(w: Seq<Seq<char>>, b: Seq<Seq<char>>, n: int, m: Seq<Seq<char>>, now: i64)
    requires
        0 <= n <= b.len(),
        time_fold(w, b.subrange(0, n), seq![], now) is None,
    ensures
        time_fold(w, b, m, now) is None,
    decreases b.len() - n,
{
    if n < b.len() {
        assert(b.subrange(0, n + 1).drop_last() =~= b.subrange(0, n));
        lemma_time_fold_none_before(w, b, n + 1, m, now);
    } else {
        assert(b.subrange(0, n) =~= b);
        assert(m.subrange(0, 0) =~= seq![]);
        lemma_time_fold_none_modified(w, b, m, 0, now);
    }
}

proof fn lemma_time_fold_none(w: Seq<Seq<char>>, n: int, b: Seq<Seq<char>>, m: Seq<Seq<char>>, now: i64)
    requires
        0 <= n <= w.len(),
        time_fold(w.subrange(0, n), seq![], seq![], now) is None,
    ensures
        time_fold(w, b, m, now) is None,
    decreases w.len() - n,
{
    if n < w.len() {
        assert(w.subrange(0, n + 1).drop_last() =~= w.subrange(0, n));
        lemma_time_fold_none(w, n + 1, b, m, now);
    } else {
        assert(w.subrange(0, n) =~= w);
        assert(b.subrange(0, 0) =~= seq![]);
        lemma_time_fold_none_before(w, b, 0, m, now);
    }
}


/// The pattern is short enough to be matched: its UTF-8 form is shorter
/// than `GLOB_PATTERN_LIMIT` bytes. A longer one matches nothing.
pub open spec fn glob_fits(pattern: Seq<char>) -> bool {
    vstd::utf8::encode_utf8(pattern).len() < GLOB_PATTERN_LIMIT
}

/// Whether `ignore_case` folds both sides before globbing.
pub open spec fn glob_case_spec(pattern: Seq<char>, value: Seq<char>, ignore_case: bool) -> bool {
    if ignore_case {
        glob_fits(unicode_lower(pattern)) && glob_accepts(unicode_lower(pattern), unicode_lower(value))
    } else {
        glob_fits(pattern) && glob_accepts(pattern, value)
    }
}

/// Match `value` against a glob, folding case first when asked.
pub fn glob_match_case(pattern: &str, value: &str, ignore_case: bool) -> (b: bool)
    ensures
        b == glob_case_spec(pattern@, value@, ignore_case),
{
    if ignore_case {
        let p = str_to_lowercase(pattern);
        let v = str_to_lowercase(value);
        let ps = p.as_str();
        if ps.as_bytes().len() >= GLOB_PATTERN_LIMIT {
            return false;
        }
        glob_match(ps, v.as_str())
    } else {
        if pattern.as_bytes().len() >= GLOB_PATTERN_LIMIT {
            return false;
        }
        glob_match(pattern, value)
    }
}

/// The text a pattern is matched against: the relative path, or the file
/// name (empty when there is none).
pub open spec fn search_target(e: FileEntry, q: FindQuery) -> Seq<char> {
    if q.full_path {
        e.relative_path@
    } else {
        match file_name_spec(e.path@) {
            Some(n) => n,
            None => seq![],
        }
    }
}

/// Case is ignored unless asked for, or, without an answer, unless the
/// pattern has upper-case letters.
pub open spec fn ignores_case(q: FindQuery) -> bool {
    match q.case_sensitive {
        Some(cs) => !cs,
        None => unicode_lower(q.pattern@) == q.pattern@,
    }
}

/// Whether the query's pattern matches the entry.
pub open spec fn pattern_matches(e: FileEntry, q: FindQuery) -> bool {
    let t = search_target(e, q);
    match q.kind {
        MatchKind::Exact => if q.fixed_strings || q.case_sensitive == Some(true) {
            contains_seq(t, q.pattern@)
        } else {
            contains_seq(unicode_lower(t), unicode_lower(q.pattern@))
        },
        MatchKind::Glob => glob_case_spec(q.pattern@, t, ignores_case(q)),
        MatchKind::Regex => regex_compiles(q.pattern@) && regex_finds(q.pattern@, t),
    }
}

/// An extension in the list.
pub open spec fn listed_extension(list: Seq<String>, x: Seq<char>) -> bool {
    exists|i: int| 0 <= i < list.len() && (#[trigger] list[i])@ == x
}

/// Whether an entry passes every filter of the query.
pub open spec fn entry_matches(e: FileEntry, q: FindQuery) -> bool {
    let depth = path_components_count(e.relative_path@);
    let name = file_name_spec(e.path@);
    let ext = entry_extension(e);
    &&& (q.max_depth matches Some(d) ==> depth <= d)
    &&& (q.min_depth matches Some(d) ==> depth >= d)
    &&& !(q.min_size matches Some(s) && e.size < s)
    &&& !(q.max_size matches Some(s) && e.size > s)
    &&& !(q.modified_after matches Some(t) && e.modified <= t)
    &&& !(q.modified_before matches Some(t) && e.modified >= t)
    &&& (q.extension matches Some(x) ==> ext == Some(x@))
    &&& (q.extensions@.len() > 0 ==> (ext matches Some(x) && listed_extension(q.extensions@, x)))
    &&& (q.file_type matches Some(t) ==> e.file_type == t)
    &&& (!q.hidden ==> !(name matches Some(n) && n.len() > 0 && n[0] == '.'))
    &&& (q.downloadable ==> !(q.sync_mode matches Some(m) && (m@ == "publicreadonly"@ || m@ == "sendonly"@)))
    &&& (q.pattern@.len() == 0 || pattern_matches(e, q))
}

fn extension_listed(list: &Vec<String>, x: &[char]) -> (b: bool)
    ensures
        b == listed_extension(list@, x@),
{
    let mut i: usize = 0;
    while i < list.len()
        invariant
            i <= list@.len(),
            forall|k: int| 0 <= k < i ==> (#[trigger] list@[k])@ != x@,
        decreases list.len() - i,
    {
        if chars_eq(&chars_of(list[i].as_str()), x) {
            return true;
        }
        i += 1;
    }
    false
}

fn opt_chars_eq(a: &Option<Vec<char>>, b: &str) -> (r: bool)
    ensures
        r == (a matches Some(x) && x@ == b@),
{
    match a {
        Some(x) => chars_eq(x, &chars_of(b)),
        None => false,
    }
}

fn pattern_matches_exec(e: &FileEntry, q: &FindQuery) -> (b: bool)
    ensures
        b == pattern_matches(*e, *q),
{
    let target: String = if q.full_path {
        e.relative_path.clone()
    } else {
        match e.name() {
            Some(n) => n,
            None => String::new(),
        }
    };
    proof {
        if !q.full_path && file_name_spec(e.path@) is None {
            assert(target@ =~= seq![]);
        }
    }
    match q.kind {
        MatchKind::Exact => {
            if q.fixed_strings || q.case_sensitive == Some(true) {
                contains_chars(&chars_of(target.as_str()), &chars_of(q.pattern.as_str()))
            } else {
                let t = str_to_lowercase(target.as_str());
                let p = str_to_lowercase(q.pattern.as_str());
                contains_chars(&chars_of(t.as_str()), &chars_of(p.as_str()))
            }
        },
        MatchKind::Glob => {
            let ignore_case = match q.case_sensitive {
                Some(cs) => !cs,
                None => {
                    let lower = str_to_lowercase(q.pattern.as_str());
                    chars_eq(&chars_of(lower.as_str()), &chars_of(q.pattern.as_str()))
                },
            };
            glob_match_case(q.pattern.as_str(), target.as_str(), ignore_case)
        },
        MatchKind::Regex => match regex_match(q.pattern.as_str(), target.as_str()) {
            Some(found) => found,
            None => false,
        },
    }
}

/// Whether an entry passes every filter of the query.
pub fn entry_matches_exec(e: &FileEntry, q: &FindQuery) -> (b: bool)
    ensures
        b == entry_matches(*e, *q),
{
    let depth = path_depth(e.relative_path.as_str());
    if let Some(d) = q.max_depth {
        if depth > d {
            return false;
        }
    }
    if let Some(d) = q.min_depth {
        if depth < d {
            return false;
        }
    }
    if let Some(s) = q.min_size {
        if e.size < s {
            return false;
        }
    }
    if let Some(s) = q.max_size {
        if e.size > s {
            return false;
        }
    }
    if let Some(t) = q.modified_after {
        if e.modified <= t {
            return false;
        }
    }
    if let Some(t) = q.modified_before {
        if e.modified >= t {
            return false;
        }
    }
    let name = e.name();
    let ext: Option<Vec<char>> = match &name {
        Some(n) => extension_of(&chars_of(n.as_str())),
        None => None,
    };
    if let Some(x) = &q.extension {
        if !opt_chars_eq(&ext, x.as_str()) {
            return false;
        }
    }
    if q.extensions.len() > 0 {
        let ok = match &ext {
            Some(x) => extension_listed(&q.extensions, x),
            None => false,
        };
        if !ok {
            return false;
        }
    }
    if let Some(t) = q.file_type {
        if e.file_type != t {
            return false;
        }
    }
    if !q.hidden {
        if let Some(n) = &name {
            let v = chars_of(n.as_str());
            if v.len() > 0 && v[0] == '.' {
                return false;
            }
        }
    }
    if q.downloadable {
        if let Some(m) = &q.sync_mode {
            let mv = chars_of(m.as_str());
            if crate::parsing::eq_lit(&mv, "publicreadonly") || crate::parsing::eq_lit(&mv, "sendonly") {
                return false;
            }
        }
    }
    if q.pattern.unicode_len() == 0 {
        return true;
    }
    pattern_matches_exec(e, q)
}

/// The entries that pass every filter of the query, in their order.
pub fn filter_entries(entries: &[FileEntry], query: &FindQuery) -> (r: Vec<FileEntry>)
    ensures
        r@ == entries@.filter(|e: FileEntry| entry_matches(e, *query)),
{
    let ghost pred = |e: FileEntry| entry_matches(e, *query);
    let mut r: Vec<FileEntry> = Vec::new();
    let mut i: usize = 0;
    while i < entries.len()
        invariant
            i <= entries@.len(),
            pred == (|e: FileEntry| entry_matches(e, *query)),
            r@ == entries@.subrange(0, i as int).filter(pred),
        decreases entries.len() - i,
    {
        proof {
            let s = entries@.subrange(0, i + 1);
            assert(s.drop_last() =~= entries@.subrange(0, i as int));
            assert(s.last() == entries@[i as int]);
            reveal_with_fuel(Seq::filter, 1);
        }
        if entry_matches_exec(&entries[i], query) {
            let c = entries[i].clone();
            r.push(c);
        }
        i += 1;
    }
    assert(entries@.subrange(0, entries@.len() as int) =~= entries@);
    r
}

/// A search over the files under `root`; the scan itself runs outside the
/// library, which filters what it finds.
#[derive(Debug)]
pub struct FindEngine {
    pub root: String,
    pub ignore_patterns: Vec<String>,
    pub threads: usize,
}

impl FindEngine {
    pub fn new(root: &str) -> (f: Self)
        ensures
            f.root@ == root@,
            f.ignore_patterns@.len() == 0,
            f.threads == 0,
    {
        FindEngine { root: root.to_string(), ignore_patterns: Vec::new(), threads: 0 }
    }

    pub fn with_ignore_patterns(self, patterns: Vec<String>) -> (f: Self)
        ensures
            f.root == self.root,
            f.ignore_patterns == patterns,
            f.threads == self.threads,
    {
        FindEngine { ignore_patterns: patterns, ..self }
    }

    pub fn with_threads(self, threads: usize) -> (f: Self)
        ensures
            f.root == self.root,
            f.ignore_patterns == self.ignore_patterns,
            f.threads == threads,
    {
        FindEngine { threads, ..self }
    }

    /// Apply a query to entries already scanned, without reading content.
    pub fn filter(&self, entries: &[FileEntry], query: &FindQuery) -> (r: Vec<FileEntry>)
        ensures
            r@ == entries@.filter(|e: FileEntry| entry_matches(e, *query)),
    {
        filter_entries(entries, query)
    }
}

/// Every entry a find query returns is one of the entries searched, and
/// its relative path has at least `min_depth` and at most `max_depth`
/// components when those are set; an entry of a greater depth than
/// `min_depth` is never dropped for its depth alone.
pub proof fn law_found_entries_respect_depth(entries: Seq<FileEntry>, q: FindQuery, i: int)
    requires
        0 <= i < entries.filter(|e: FileEntry| entry_matches(e, q)).len(),
    ensures
        ({
            let e = entries.filter(|e: FileEntry| entry_matches(e, q))[i];
            &&& entries.contains(e)
            &&& (q.min_depth matches Some(d) ==> path_components_count(e.relative_path@) >= d)
            &&& (q.max_depth matches Some(d) ==> path_components_count(e.relative_path@) <= d)
        }),
{
    broadcast use vstd::seq_lib::group_filter_ensures;

    let pred = |e: FileEntry| entry_matches(e, q);
    let f = entries.filter(pred);
    assert(pred(f[i]));
    assert(f.contains(f[i]));
    entries.lemma_filter_contains_rev(pred, f[i]);
}

/// A file name (no `/`, not empty, not `.`) is one component, and each such
/// name before a `/` adds one component to a relative path that follows.
pub proof fn law_path_depth_counts_names(name: Seq<char>, rest: Seq<char>)
    requires
        name.len() > 0,
        name != "."@,
        forall|k: int| 0 <= k < name.len() ==> name[k] != '/',
        !(rest.len() > 0 && rest[0] == '/'),
        first_segment(rest) != "."@,
    ensures
        path_components_count(name) == 1,
        path_components_count(name + "/"@ + rest) == 1 + path_components_count(rest),
{
    reveal_strlit("/");
    let s = name + "/"@ + rest;
    lemma_find_char_bound(name, '/');
    lemma_find_char_bound(s, '/');
    assert(s[name.len() as int] == '/');
    assert(forall|k: int| 0 <= k < name.len() ==> s[k] == name[k]);
    assert(find_char(s, '/') == Some(name.len() as int));
    assert(s.subrange(0, name.len() as int) =~= name);
    assert(s.subrange(name.len() as int + 1, s.len() as int) =~= rest);
    assert(s[0] == name[0]);
    assert(first_segment(s) == name);
}

} // verus!
