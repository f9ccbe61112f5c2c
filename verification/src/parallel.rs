//! Striped multi-provider downloads: which provider fetches which 1 MiB
//! stripe of a blob, how long each may take, and what a second phase retries.
//! The transfers themselves run outside; they report a [`TaskOutcome`] per
//! provider.
use vstd::prelude::*;
use crate::crypto::{blake3_digest, blake3_hash};
use crate::resilience::{views32, bytes_eq, sat_add_u64};

verus! {

/// Chunks (of 1 KiB) in one stripe.
pub const STRIPE_CHUNKS: u64 = 1024;

/// The rate assumed before any transfer was measured: 125 bytes/ms, about
/// 1 Mbit/s.
pub const DEFAULT_RATE_BYTES_PER_MS: u64 = 125;

/// Configuration of parallel multi-provider blob download.
#[derive(Clone, Copy, Debug, PartialEq, Eq)]
pub struct ParallelDownloadConfig {
    /// Blobs below this size are downloaded sequentially.
    pub min_blob_size: u64,
    /// Maximum parallel connections downloading a single blob.
    pub max_concurrent_connections: usize,
    /// Minimum chunks per range to avoid tiny protocol requests.
    pub min_chunks_per_range: u64,
}

impl Default for ParallelDownloadConfig {
    fn default() -> (c: Self)
        ensures
            c.min_blob_size == 16 * 1024 * 1024,
            c.max_concurrent_connections == 5,
            c.min_chunks_per_range == 64,
    {
        ParallelDownloadConfig {
            min_blob_size: 16 * 1024 * 1024,
            max_concurrent_connections: 5,
            min_chunks_per_range: 64,
        }
    }
}

/// The eight big-endian bytes of `x`.
pub open spec fn be_bytes(x: u64) -> Seq<u8> {
    seq![
        (x >> 56u64) as u8,
        (x >> 48u64) as u8,
        (x >> 40u64) as u8,
        (x >> 32u64) as u8,
        (x >> 24u64) as u8,
        (x >> 16u64) as u8,
        (x >> 8u64) as u8,
        x as u8,
    ]
}

/// The first eight bytes of `b` read as a big-endian number.
pub open spec fn be_u64(b: Seq<u8>) -> nat {
    b[7] as nat + 256 * (b[6] as nat + 256 * (b[5] as nat + 256 * (b[4] as nat + 256 * (b[3] as nat
        + 256 * (b[2] as nat + 256 * (b[1] as nat + 256 * (b[0] as nat)))))))
}

/// The score of a provider for a stripe: the digest of the provider's
/// identity and the stripe's big-endian index, its first eight bytes read
/// big-endian.
pub open spec fn stripe_score_spec(provider: Seq<u8>, stripe: u64) -> nat {
    be_u64(blake3_digest(provider + be_bytes(stripe)))
}

fn be_u64_of(b: &[u8; 32]) -> (v: u64)
    ensures
        v as nat == be_u64(b@),
{
    let v0: u64 = b[0] as u64;
    let v1: u64 = b[1] as u64 + 256 * v0;
    assert(v1 < 0x1_0000) by (nonlinear_arith)
        requires v0 < 0x100, v1 == b[1] as u64 + 256 * v0, b[1] < 0x100;
    let v2: u64 = b[2] as u64 + 256 * v1;
    assert(v2 < 0x100_0000) by (nonlinear_arith)
        requires v1 < 0x1_0000, v2 == b[2] as u64 + 256 * v1, b[2] < 0x100;
    let v3: u64 = b[3] as u64 + 256 * v2;
    assert(v3 < 0x1_0000_0000) by (nonlinear_arith)
        requires v2 < 0x100_0000, v3 == b[3] as u64 + 256 * v2, b[3] < 0x100;
    let v4: u64 = b[4] as u64 + 256 * v3;
    assert(v4 < 0x100_0000_0000) by (nonlinear_arith)
        requires v3 < 0x1_0000_0000, v4 == b[4] as u64 + 256 * v3, b[4] < 0x100;
    let v5: u64 = b[5] as u64 + 256 * v4;
    assert(v5 < 0x1_0000_0000_0000) by (nonlinear_arith)
        requires v4 < 0x100_0000_0000, v5 == b[5] as u64 + 256 * v4, b[5] < 0x100;
    let v6: u64 = b[6] as u64 + 256 * v5;
    assert(v6 < 0x100_0000_0000_0000) by (nonlinear_arith)
        requires v5 < 0x1_0000_0000_0000, v6 == b[6] as u64 + 256 * v5, b[6] < 0x100;
    let v7: u64 = b[7] as u64 + 256 * v6;
    v7
}

/// The score of `provider` for stripe `stripe`.
pub fn stripe_score(provider: &[u8; 32], stripe: u64) -> (v: u64)
    ensures
        v as nat == stripe_score_spec(provider@, stripe),
{
    let mut data: Vec<u8> = Vec::new();
    let mut i: usize = 0;
    while i < 32
        invariant
            i <= 32,
            data@ == provider@.subrange(0, i as int),
        decreases 32 - i,
    {
        data.push(provider[i]);
        i += 1;
        assert(data@ =~= provider@.subrange(0, i as int));
    }
    assert(provider@.subrange(0, 32) =~= provider@);
    data.push((stripe >> 56u64) as u8);
    data.push((stripe >> 48u64) as u8);
    data.push((stripe >> 40u64) as u8);
    data.push((stripe >> 32u64) as u8);
    data.push((stripe >> 24u64) as u8);
    data.push((stripe >> 16u64) as u8);
    data.push((stripe >> 8u64) as u8);
    data.push(stripe as u8);
    assert(data@ =~= provider@ + be_bytes(stripe));
    let digest = blake3_hash(&data);
    be_u64_of(&digest)
}

/// `w` is the last of the first `n` providers with the highest score for
/// stripe `s`.
pub open spec fn last_best(ps: Seq<Seq<u8>>, n: int, s: u64, w: int) -> bool {
    &&& 0 <= w < n
    &&& forall|j: int| 0 <= j < w ==> #[trigger] stripe_score_spec(ps[j], s) <= stripe_score_spec(ps[w], s)
    &&& forall|j: int| w < j < n ==> #[trigger] stripe_score_spec(ps[j], s) < stripe_score_spec(ps[w], s)
}

/// At most one provider is the last best of a stripe.
pub proof fn lemma_last_best_unique(ps: Seq<Seq<u8>>, n: int, s: u64, a: int, b: int)
    requires
        last_best(ps, n, s, a),
        last_best(ps, n, s, b),
    ensures
        a == b,
{
    if a < b {
        assert(stripe_score_spec(ps[b], s) < stripe_score_spec(ps[a], s));
        assert(stripe_score_spec(ps[a], s) <= stripe_score_spec(ps[b], s));
    } else if b < a {
        assert(stripe_score_spec(ps[a], s) < stripe_score_spec(ps[b], s));
        assert(stripe_score_spec(ps[b], s) <= stripe_score_spec(ps[a], s));
    }
}

/// The last of the first `n` providers with the highest score for a stripe.
fn best_provider(providers: &[[u8; 32]], n: usize, stripe: u64) -> (w: usize)
    requires
        0 < n <= providers.len(),
    ensures
        last_best(views32(providers@), n as int, stripe, w as int),
{
    let ghost ps = views32(providers@);
    let mut best: usize = 0;
    let mut best_score = stripe_score(&providers[0], stripe);
    let mut j: usize = 1;
    while j < n
        invariant
            0 < n <= providers.len(),
            ps == views32(providers@),
            1 <= j <= n,
            best < j,
            best_score as nat == stripe_score_spec(ps[best as int], stripe),
            last_best(ps, j as int, stripe, best as int),
        decreases n - j,
    {
        let sc = stripe_score(&providers[j], stripe);
        assert(ps[j as int] == providers@[j as int]@);
        if sc >= best_score {
            best = j;
            best_score = sc;
        }
        j += 1;
    }
    best
}

/// The number of stripes covering `total_chunks` chunks.
pub open spec fn stripe_count(total_chunks: u64) -> nat {
    ((total_chunks + 1023) / 1024) as nat
}

/// Stripe `s` of a blob of `total_chunks` chunks goes to provider `i` of
/// the first `n`.
pub open spec fn stripe_won(ps: Seq<Seq<u8>>, n: int, total_chunks: u64, i: int, s: u64) -> bool {
    s < stripe_count(total_chunks) && last_best(ps, n, s, i)
}

/// The stripes one provider downloads.
#[derive(Debug)]
pub struct StripeAssignment {
    /// The provider's identity.
    pub provider: [u8; 32],
    /// The provider's position in the list the assignment was made from.
    pub provider_index: usize,
    /// The stripes, ascending; stripe `s` covers chunks `1024 s` up to
    /// `1024 (s + 1)` or the blob's end.
    pub stripes: Vec<u64>,
    /// The bytes the provider is expected to send.
    pub estimated_bytes: u64,
}

/// The byte share of the `k`-th assigned provider: an equal share of the
/// size over `n` providers, one byte more for the first `size % n`.
pub open spec fn estimated_share(total_size: u64, n: int, k: int) -> u64 {
    sat_add_u64(
        (total_size / (n as u64)) as u64,
        if k < total_size % (n as u64) {
            1
        } else {
            0
        },
    )
}

/// The `k`-th assignment gives provider `a.provider_index` exactly the
/// stripes it wins, ascending, and its byte share.
pub open spec fn assignment_ok(
    ps: Seq<Seq<u8>>,
    n: int,
    total_chunks: u64,
    total_size: u64,
    a: StripeAssignment,
    k: int,
) -> bool {
    &&& 0 <= a.provider_index < n
    &&& a.provider@ == ps[a.provider_index as int]
    &&& a.stripes@.len() > 0
    &&& forall|s: u64| #[trigger] a.stripes@.contains(s) <==> stripe_won(ps, n, total_chunks, a.provider_index as int, s)
    &&& forall|x: int, y: int| 0 <= x < y < a.stripes@.len() ==> #[trigger] a.stripes@[x] < #[trigger] a.stripes@[y]
    &&& a.estimated_bytes == estimated_share(total_size, n, k)
}

/// `r` assigns every stripe of a blob of `total_chunks` chunks to the last
/// best-scoring of the first `n` providers: one assignment per provider that
/// wins a stripe, in provider order.
pub open spec fn assignments_spec(
    ps: Seq<Seq<u8>>,
    n: int,
    total_chunks: u64,
    total_size: u64,
    r: Seq<StripeAssignment>,
) -> bool {
    &&& forall|k: int| 0 <= k < r.len() ==> assignment_ok(ps, n, total_chunks, total_size, #[trigger] r[k], k)
    &&& forall|k1: int, k2: int| 0 <= k1 < k2 < r.len() ==> (#[trigger] r[k1]).provider_index < (#[trigger] r[k2]).provider_index
    &&& forall|i: int, s: u64|
        0 <= i < n && #[trigger] stripe_won(ps, n, total_chunks, i, s) ==> exists|k: int|
            0 <= k < r.len() && (#[trigger] r[k]).provider_index == i
}

/// The stripes whose winner is `i`, ascending.
fn stripes_of(winners: &Vec<usize>, i: usize) -> (r: Vec<u64>)
    requires
        winners.len() <= u64::MAX,
    ensures
        forall|s: u64| #[trigger] r@.contains(s) <==> s < winners@.len() && winners@[s as int] == i,
        forall|x: int, y: int| 0 <= x < y < r@.len() ==> #[trigger] r@[x] < #[trigger] r@[y],
{
    let mut r: Vec<u64> = Vec::new();
    let mut t: usize = 0;
    while t < winners.len()
        invariant
            t <= winners.len(),
            winners.len() <= u64::MAX,
            forall|s: u64| #[trigger] r@.contains(s) <==> s < t && winners@[s as int] == i,
            forall|x: int, y: int| 0 <= x < y < r@.len() ==> #[trigger] r@[x] < #[trigger] r@[y],
            forall|x: int| 0 <= x < r@.len() ==> #[trigger] r@[x] < t,
        decreases winners.len() - t,
    {
        if winners[t] == i {
            let ghost old_r = r@;
            r.push(t as u64);
            proof {
                assert forall|s: u64| #[trigger] r@.contains(s) <==> s < t + 1 && winners@[s as int] == i by {
                    if r@.contains(s) && s != t as u64 {
                        let q = choose|q: int| 0 <= q < r@.len() && r@[q] == s;
                        assert(old_r[q] == s);
                        assert(old_r.contains(s));
                    }
                    if s < t && winners@[s as int] == i {
                        assert(old_r.contains(s));
                        let q = choose|q: int| 0 <= q < old_r.len() && old_r[q] == s;
                        assert(r@[q] == s);
                    }
                    if s == t as u64 {
                        assert(r@[old_r.len() as int] == s);
                    }
                }
            }
        } else {
            proof {
                assert forall|s: u64| #[trigger] r@.contains(s) <==> s < t + 1 && winners@[s as int] == i by {
                    if r@.contains(s) {
                        let q = choose|q: int| 0 <= q < r@.len() && r@[q] == s;
                        assert(r@[q] < t);
                    }
                }
            }
        }
        t += 1;
    }
    r
}

/// Assign each stripe of a blob of `total_chunks` chunks and `total_size`
/// bytes to the last best-scoring of the first `n_providers` providers.
pub fn assign_chunks_striped(providers: &[[u8; 32]], total_chunks: u64, n_providers: usize, total_size: u64) -> (r: Vec<
    StripeAssignment,
>)
    ensures
        assignments_spec(
            views32(providers@),
            if n_providers < providers.len() {
                n_providers as int
            } else {
                providers.len() as int
            },
            total_chunks,
            total_size,
            r@,
        ),
{
    let ghost ps = views32(providers@);
    let n: usize = if n_providers < providers.len() {
        n_providers
    } else {
        providers.len()
    };
    if total_chunks == 0 || n == 0 {
        let r: Vec<StripeAssignment> = Vec::new();
        proof {
            assert forall|i: int, s: u64|
                0 <= i < n && #[trigger] stripe_won(ps, n as int, total_chunks, i, s) implies exists|k: int|
                    0 <= k < r@.len() && (#[trigger] r@[k]).provider_index == i by {
                assert(stripe_count(total_chunks) == 0);
            }
        }
        return r;
    }
    let n_stripes: u64 = total_chunks / 1024 + if total_chunks % 1024 != 0 {
        1
    } else {
        0
    };
    assert(n_stripes == stripe_count(total_chunks));
    let mut winners: Vec<usize> = Vec::new();
    let mut s: u64 = 0;
    while s < n_stripes
        invariant
            0 < n <= providers.len(),
            ps == views32(providers@),
            s <= n_stripes,
            winners@.len() == s,
            forall|t: int| 0 <= t < s ==> last_best(ps, n as int, t as u64, #[trigger] winners@[t] as int),
        decreases n_stripes - s,
    {
        let w = best_provider(providers, n, s);
        winners.push(w);
        s += 1;
    }
    let per: u64 = total_size / (n as u64);
    let rem: u64 = total_size % (n as u64);
    let mut r: Vec<StripeAssignment> = Vec::new();
    let mut i: usize = 0;
    while i < n
        invariant
            0 < n <= providers.len(),
            ps == views32(providers@),
            winners@.len() == n_stripes,
            n_stripes == stripe_count(total_chunks),
            per == total_size / (n as u64),
            rem == total_size % (n as u64),
            forall|t: int| 0 <= t < n_stripes ==> last_best(ps, n as int, t as u64, #[trigger] winners@[t] as int),
            i <= n,
            r@.len() <= i,
            forall|k: int| 0 <= k < r@.len() ==> assignment_ok(ps, n as int, total_chunks, total_size, #[trigger] r@[k], k),
            forall|k: int| 0 <= k < r@.len() ==> (#[trigger] r@[k]).provider_index < i,
            forall|k1: int, k2: int| 0 <= k1 < k2 < r@.len() ==> (#[trigger] r@[k1]).provider_index < (#[trigger] r@[k2]).provider_index,
            forall|i2: int, s2: u64|
                0 <= i2 < i && #[trigger] stripe_won(ps, n as int, total_chunks, i2, s2) ==> exists|k: int|
                    0 <= k < r@.len() && (#[trigger] r@[k]).provider_index == i2,
        decreases n - i,
    {
        let stripes = stripes_of(&winners, i);
        proof {
            assert forall|s2: u64| #[trigger] stripes@.contains(s2) <==> stripe_won(ps, n as int, total_chunks, i as int, s2) by {
                if stripe_won(ps, n as int, total_chunks, i as int, s2) {
                    lemma_last_best_unique(ps, n as int, s2, i as int, winners@[s2 as int] as int);
                }
            }
        }
        if stripes.len() > 0 {
            let k = r.len();
            let extra: u64 = if (k as u64) < rem {
                1
            } else {
                0
            };
            let ghost old_r = r@;
            let a = StripeAssignment {
                provider: providers[i],
                provider_index: i,
                stripes,
                estimated_bytes: per.saturating_add(extra),
            };
            assert(assignment_ok(ps, n as int, total_chunks, total_size, a, k as int));
            r.push(a);
            proof {
                assert forall|k2: int| 0 <= k2 < r@.len() implies assignment_ok(ps, n as int, total_chunks, total_size, #[trigger] r@[k2], k2) by {
                    if k2 < old_r.len() {
                        assert(r@[k2] == old_r[k2]);
                    }
                }
                assert forall|i2: int, s2: u64|
                    0 <= i2 < i + 1 && #[trigger] stripe_won(ps, n as int, total_chunks, i2, s2) implies exists|k3: int|
                        0 <= k3 < r@.len() && (#[trigger] r@[k3]).provider_index == i2 by {
                    if i2 < i {
                        let k3 = choose|k3: int| 0 <= k3 < old_r.len() && (#[trigger] old_r[k3]).provider_index == i2;
                        assert(r@[k3] == old_r[k3]);
                    } else {
                        assert(r@[k as int].provider_index == i2);
                    }
                }
            }
        } else {
            proof {
                assert forall|i2: int, s2: u64|
                    0 <= i2 < i + 1 && #[trigger] stripe_won(ps, n as int, total_chunks, i2, s2) implies exists|k3: int|
                        0 <= k3 < r@.len() && (#[trigger] r@[k3]).provider_index == i2 by {
                    if i2 == i {
                        assert(stripes@.contains(s2));
                    }
                }
            }
        }
        i += 1;
    }
    r
}

/// What one finished download task reports.
#[derive(Clone, Copy, Debug)]
pub struct TaskOutcome {
    pub provider: [u8; 32],
    pub bytes_written: u64,
    pub elapsed_millis: u128,
}

/// The bytes written over a list of outcomes.
pub open spec fn total_bytes(s: Seq<TaskOutcome>) -> nat
    decreases s.len(),
{
    if s.len() == 0 {
        0
    } else {
        total_bytes(s.drop_last()) + s.last().bytes_written as nat
    }
}

/// The milliseconds spent over a list of outcomes.
pub open spec fn total_millis(s: Seq<TaskOutcome>) -> nat
    decreases s.len(),
{
    if s.len() == 0 {
        0
    } else {
        total_millis(s.drop_last()) + s.last().elapsed_millis as nat
    }
}

proof fn lemma_totals_prefix(s: Seq<TaskOutcome>, i: int)
    requires
        0 <= i < s.len(),
    ensures
        total_bytes(s.take(i + 1)) == total_bytes(s.take(i)) + s[i].bytes_written,
        total_millis(s.take(i + 1)) == total_millis(s.take(i)) + s[i].elapsed_millis,
        total_bytes(s.take(i + 1)) <= total_bytes(s),
        total_millis(s.take(i + 1)) <= total_millis(s),
    decreases s.len(),
{
    assert(s.take(i + 1).drop_last() =~= s.take(i));
    if i + 1 < s.len() {
        lemma_totals_prefix(s.drop_last(), i);
        assert(s.drop_last().take(i + 1) =~= s.take(i + 1));
    } else {
        assert(s.take(i + 1) =~= s);
    }
}

/// The observed rate in bytes per millisecond: the bytes over the
/// milliseconds (these capped at `u64::MAX`), at least 1; the default rate
/// when no time was measured.
pub open spec fn rate_spec(s: Seq<TaskOutcome>) -> u64 {
    if total_millis(s) == 0 {
        DEFAULT_RATE_BYTES_PER_MS
    } else {
        let ms: nat = if total_millis(s) > u64::MAX {
            u64::MAX as nat
        } else {
            total_millis(s)
        };
        let q = total_bytes(s) / ms;
        if q < 1 {
            1
        } else {
            q as u64
        }
    }
}

/// The observed transfer rate of the successful tasks.
pub fn compute_rate_bytes_per_ms(successes: &[TaskOutcome]) -> (r: u64)
    requires
        total_bytes(successes@) <= u64::MAX,
        total_millis(successes@) <= u128::MAX,
    ensures
        r == rate_spec(successes@),
{
    let mut ms: u128 = 0;
    let mut bytes: u64 = 0;
    let mut i: usize = 0;
    while i < successes.len()
        invariant
            i <= successes.len(),
            total_bytes(successes@) <= u64::MAX,
            total_millis(successes@) <= u128::MAX,
            bytes == total_bytes(successes@.take(i as int)),
            ms == total_millis(successes@.take(i as int)),
        decreases successes.len() - i,
    {
        proof {
            lemma_totals_prefix(successes@, i as int);
        }
        bytes = bytes + successes[i].bytes_written;
        ms = ms + successes[i].elapsed_millis;
        i += 1;
    }
    assert(successes@.take(successes.len() as int) =~= successes@);
    if ms == 0 {
        return DEFAULT_RATE_BYTES_PER_MS;
    }
    let capped: u64 = if ms > u64::MAX as u128 {
        u64::MAX
    } else {
        ms as u64
    };
    let q = bytes / capped;
    if q < 1 {
        1
    } else {
        q
    }
}

/// The milliseconds a transfer of `bytes` takes at `rate` bytes per
/// millisecond (a rate of 0 counting as 1).
pub fn estimated_millis(bytes: u64, rate: u64) -> (ms: u64)
    ensures
        ms == bytes / (if rate < 1 { 1 } else { rate }),
{
    let r = if rate < 1 {
        1
    } else {
        rate
    };
    bytes / r
}

/// Stripe `s` is held by an assignment whose provider did not succeed.
pub open spec fn stripe_unclaimed(asg: Seq<StripeAssignment>, succeeded: Seq<Seq<u8>>, s: u64) -> bool {
    exists|k: int|
        0 <= k < asg.len() && !succeeded.contains((#[trigger] asg[k]).provider@) && asg[k].stripes@.contains(s)
}

/// `v` holds the same elements as `w` plus `x`.
fn insert_sorted(v: &mut Vec<u64>, x: u64)
    requires
        forall|a: int, b: int| 0 <= a < b < old(v)@.len() ==> #[trigger] old(v)@[a] < #[trigger] old(v)@[b],
    ensures
        forall|y: u64| #[trigger] final(v)@.contains(y) <==> (old(v)@.contains(y) || y == x),
        forall|a: int, b: int| 0 <= a < b < final(v)@.len() ==> #[trigger] final(v)@[a] < #[trigger] final(v)@[b],
{
    let mut p: usize = 0;
    while p < v.len() && v[p] < x
        invariant
            p <= v@.len(),
            forall|a: int| 0 <= a < p ==> #[trigger] v@[a] < x,
        decreases v.len() - p,
    {
        p += 1;
    }
    if p < v.len() && v[p] == x {
        return;
    }
    let ghost old_v = v@;
    v.insert(p, x);
    proof {
        assert(v@ =~= old_v.subrange(0, p as int).push(x) + old_v.subrange(p as int, old_v.len() as int));
        assert forall|y: u64| #[trigger] v@.contains(y) <==> (old_v.contains(y) || y == x) by {
            if v@.contains(y) {
                let q = choose|q: int| 0 <= q < v@.len() && v@[q] == y;
                if q < p {
                    assert(old_v[q] == y);
                } else if q > p {
                    assert(old_v[q - 1] == y);
                }
            }
            if old_v.contains(y) {
                let q = choose|q: int| 0 <= q < old_v.len() && old_v[q] == y;
                if q < p {
                    assert(v@[q] == y);
                } else {
                    assert(v@[q + 1] == y);
                }
            }
            if y == x {
                assert(v@[p as int] == y);
            }
        }
        assert forall|a: int, b: int| 0 <= a < b < v@.len() implies #[trigger] v@[a] < #[trigger] v@[b] by {
            if b < p {
            } else if a < p && b == p {
            } else if a < p && b > p {
                assert(v@[b] == old_v[b - 1]);
                assert(old_v[p as int] >= x);
                if b - 1 > p {
                    assert(old_v[p as int] < old_v[b - 1]);
                }
            } else if a == p {
                assert(v@[b] == old_v[b - 1]);
                assert(old_v[p as int] != x);
                if b - 1 > p {
                    assert(old_v[p as int] < old_v[b - 1]);
                }
            } else {
                assert(v@[a] == old_v[a - 1]);
                assert(v@[b] == old_v[b - 1]);
            }
        }
    }
}

/// The stripes of providers that did not succeed, ascending and each once.
pub fn collect_unclaimed(assignments: &[StripeAssignment], succeeded: &[[u8; 32]]) -> (r: Vec<u64>)
    ensures
        forall|s: u64| #[trigger] r@.contains(s) <==> stripe_unclaimed(assignments@, views32(succeeded@), s),
        forall|a: int, b: int| 0 <= a < b < r@.len() ==> #[trigger] r@[a] < #[trigger] r@[b],
{
    let ghost sv = views32(succeeded@);
    let ghost asg = assignments@;
    let mut r: Vec<u64> = Vec::new();
    let mut k: usize = 0;
    while k < assignments.len()
        invariant
            k <= assignments.len(),
            sv == views32(succeeded@),
            asg == assignments@,
            forall|s: u64| #[trigger] r@.contains(s) <==> stripe_unclaimed(asg.take(k as int), sv, s),
            forall|a: int, b: int| 0 <= a < b < r@.len() ==> #[trigger] r@[a] < #[trigger] r@[b],
        decreases assignments.len() - k,
    {
        let a = &assignments[k];
        let claimed = contains_id_slice(succeeded, &a.provider);
        if !claimed {
            let mut j: usize = 0;
            while j < a.stripes.len()
                invariant
                    k < assignments.len(),
                    j <= a.stripes@.len(),
                    *a == asg[k as int],
                    sv == views32(succeeded@),
                    asg == assignments@,
                    !sv.contains(a.provider@),
                    forall|s: u64| #[trigger] r@.contains(s) <==> (stripe_unclaimed(asg.take(k as int), sv, s)
                        || a.stripes@.subrange(0, j as int).contains(s)),
                    forall|x: int, y: int| 0 <= x < y < r@.len() ==> #[trigger] r@[x] < #[trigger] r@[y],
                decreases a.stripes.len() - j,
            {
                let ghost before = r@;
                insert_sorted(&mut r, a.stripes[j]);
                proof {
                    let pre = a.stripes@.subrange(0, j as int);
                    let post = a.stripes@.subrange(0, j + 1);
                    assert(post =~= pre.push(a.stripes@[j as int]));
                    assert forall|s: u64| #[trigger] post.contains(s) <==> (pre.contains(s) || s == a.stripes@[j as int]) by {
                        if post.contains(s) {
                            let q = choose|q: int| 0 <= q < post.len() && post[q] == s;
                            if q < j {
                                assert(pre[q] == s);
                            }
                        }
                        if pre.contains(s) {
                            let q = choose|q: int| 0 <= q < pre.len() && pre[q] == s;
                            assert(post[q] == s);
                        }
                        if s == a.stripes@[j as int] {
                            assert(post[j as int] == s);
                        }
                    }
                }
                j += 1;
            }
            assert(a.stripes@.subrange(0, a.stripes@.len() as int) =~= a.stripes@);
        }
        proof {
            let pre = asg.take(k as int);
            let post = asg.take(k + 1);
            assert forall|s: u64| #[trigger] r@.contains(s) <==> stripe_unclaimed(post, sv, s) by {
                if stripe_unclaimed(post, sv, s) {
                    let q = choose|q: int|
                        0 <= q < post.len() && !sv.contains((#[trigger] post[q]).provider@) && post[q].stripes@.contains(s);
                    if q < k {
                        assert(pre[q] == post[q]);
                        assert(stripe_unclaimed(pre, sv, s));
                    }
                }
                if stripe_unclaimed(pre, sv, s) {
                    let q = choose|q: int|
                        0 <= q < pre.len() && !sv.contains((#[trigger] pre[q]).provider@) && pre[q].stripes@.contains(s);
                    assert(pre[q] == post[q]);
                }
                if !claimed && a.stripes@.contains(s) {
                    assert(post[k as int] == *a);
                }
            }
        }
        k += 1;
    }
    assert(asg.take(assignments.len() as int) =~= asg);
    r
}

fn contains_id_slice(v: &[[u8; 32]], p: &[u8; 32]) -> (b: bool)
    ensures
        b == views32(v@).contains(p@),
{
    let mut i: usize = 0;
    while i < v.len()
        invariant
            i <= v.len(),
            forall|k: int| 0 <= k < i ==> v@[k]@ != p@,
        decreases v.len() - i,
    {
        if bytes_eq(&v[i], p) {
            assert(views32(v@)[i as int] == p@);
            return true;
        }
        i += 1;
    }
    assert forall|k: int| 0 <= k < views32(v@).len() implies views32(v@)[k] != p@ by {
        assert(views32(v@)[k] == v@[k]@);
    }
    false
}

/// The 1 KiB chunks of a blob of `size` bytes, the last one partial.
pub open spec fn chunks_of(size: u64) -> u64 {
    (size / 1024 + if size % 1024 != 0 {
        1int
    } else {
        0int
    }) as u64
}

/// The smaller of two counts.
pub open spec fn min_count(a: usize, b: usize) -> int {
    if a < b {
        a as int
    } else {
        b as int
    }
}

/// `a * b`, saturating at `u64::MAX`.
pub open spec fn sat_mul(a: u64, b: u64) -> nat {
    if a * b > u64::MAX {
        u64::MAX as nat
    } else {
        (a * b) as nat
    }
}

/// The chunks of stripe `s` that lie below `max_chunks`.
pub open spec fn stripe_chunks_below(s: u64, max_chunks: u64) -> nat {
    let start = sat_mul(s, 1024);
    let end0: nat = if start + 1024 > u64::MAX {
        u64::MAX as nat
    } else {
        start + 1024
    };
    let end: nat = if end0 < max_chunks {
        end0
    } else {
        max_chunks as nat
    };
    if end >= start {
        (end - start) as nat
    } else {
        0
    }
}

/// The chunks of a list of stripes below `max_chunks`.
pub open spec fn sum_chunks(ss: Seq<u64>, max_chunks: u64) -> nat
    decreases ss.len(),
{
    if ss.len() == 0 {
        0
    } else {
        sum_chunks(ss.drop_last(), max_chunks) + stripe_chunks_below(ss.last(), max_chunks)
    }
}

/// The chunk estimate of a list of stripes: one more than the chunks they
/// cover below `max_chunks`, saturating at `u64::MAX`.
pub open spec fn chunk_estimate(ss: Seq<u64>, max_chunks: u64) -> u64 {
    if 1 + sum_chunks(ss, max_chunks) > u64::MAX {
        u64::MAX
    } else {
        (1 + sum_chunks(ss, max_chunks)) as u64
    }
}

fn stripe_chunks(s: u64, max_chunks: u64) -> (c: u64)
    ensures
        c as nat == stripe_chunks_below(s, max_chunks),
{
    let start: u64 = if s > u64::MAX / 1024 {
        u64::MAX
    } else {
        s * 1024
    };
    let end0 = start.saturating_add(1024);
    let end = if end0 < max_chunks {
        end0
    } else {
        max_chunks
    };
    if end >= start {
        end - start
    } else {
        0
    }
}

/// The chunk estimate of `stripes` below `max_chunks`.
pub fn estimate_chunks_in_ranges(stripes: &[u64], max_chunks: u64) -> (r: u64)
    ensures
        r == chunk_estimate(stripes@, max_chunks),
{
    let mut total: u64 = 1;
    let mut i: usize = 0;
    while i < stripes.len()
        invariant
            i <= stripes.len(),
            total == chunk_estimate(stripes@.take(i as int), max_chunks),
        decreases stripes.len() - i,
    {
        let c = stripe_chunks(stripes[i], max_chunks);
        assert(stripes@.take(i + 1).drop_last() =~= stripes@.take(i as int));
        total = total.saturating_add(c);
        i += 1;
    }
    assert(stripes@.take(stripes.len() as int) =~= stripes@);
    total
}

/// `u` lists the unclaimed stripes, ascending and each once.
pub open spec fn unclaimed_listed(asg: Seq<StripeAssignment>, succeeded: Seq<Seq<u8>>, u: Seq<u64>) -> bool {
    &&& forall|s: u64| #[trigger] u.contains(s) <==> stripe_unclaimed(asg, succeeded, s)
    &&& forall|a: int, b: int| 0 <= a < b < u.len() ==> #[trigger] u[a] < #[trigger] u[b]
}

/// The providers that succeeded, by their positions in `ps`.
pub open spec fn survivors_listed(ps: Seq<Seq<u8>>, succeeded: Seq<Seq<u8>>, r: Seq<usize>) -> bool {
    &&& forall|i: usize| #[trigger] r.contains(i) <==> i < ps.len() && succeeded.contains(ps[i as int])
    &&& forall|a: int, b: int| 0 <= a < b < r.len() ==> #[trigger] r[a] < #[trigger] r[b]
}

/// The providers at the positions `idx`.
pub open spec fn pick(ps: Seq<Seq<u8>>, idx: Seq<usize>) -> Seq<Seq<u8>> {
    idx.map_values(|i: usize| ps[i as int])
}

/// The second phase of a parallel download: the providers that succeeded,
/// by position in the provider list, and the stripes each takes on.
#[derive(Debug)]
pub struct RetryPlan {
    pub survivors: Vec<usize>,
    pub assignments: Vec<StripeAssignment>,
}

fn survivor_indices(providers: &[[u8; 32]], succeeded: &[[u8; 32]]) -> (r: Vec<usize>)
    ensures
        survivors_listed(views32(providers@), views32(succeeded@), r@),
{
    let ghost ps = views32(providers@);
    let mut r: Vec<usize> = Vec::new();
    let mut i: usize = 0;
    while i < providers.len()
        invariant
            i <= providers.len(),
            ps == views32(providers@),
            forall|x: usize| #[trigger] r@.contains(x) <==> x < i && views32(succeeded@).contains(ps[x as int]),
            forall|a: int, b: int| 0 <= a < b < r@.len() ==> #[trigger] r@[a] < #[trigger] r@[b],
            forall|a: int| 0 <= a < r@.len() ==> #[trigger] r@[a] < i,
        decreases providers.len() - i,
    {
        let ok = contains_id_slice(succeeded, &providers[i]);
        let ghost before = r@;
        if ok {
            r.push(i);
        }
        proof {
            assert(ps[i as int] == providers@[i as int]@);
            assert forall|x: usize| #[trigger] r@.contains(x) <==> x < i + 1 && views32(succeeded@).contains(ps[x as int]) by {
                if r@.contains(x) {
                    let q = choose|q: int| 0 <= q < r@.len() && r@[q] == x;
                    if q < before.len() {
                        assert(before[q] == x);
                        assert(before.contains(x));
                    }
                }
                if x < i && views32(succeeded@).contains(ps[x as int]) {
                    assert(before.contains(x));
                    let q = choose|q: int| 0 <= q < before.len() && before[q] == x;
                    assert(r@[q] == x);
                }
                if x == i && ok {
                    assert(r@[before.len() as int] == x);
                }
            }
        }
        i += 1;
    }
    r
}

/// The second phase of a parallel download after the first phase's
/// `succeeded` providers returned: `None` when none succeeded, no stripe is
/// left unclaimed, or fewer than two providers survive; else the survivors
/// and the stripes assigned among them, over as many chunks as the
/// unclaimed stripes are estimated at.
pub fn retry_plan(
    assignments: &[StripeAssignment],
    succeeded: &[[u8; 32]],
    providers: &[[u8; 32]],
    download_size: u64,
) -> (r: Option<RetryPlan>)
    ensures
        succeeded.len() == 0 ==> r is None,
        (forall|s: u64| !#[trigger] stripe_unclaimed(assignments@, views32(succeeded@), s)) ==> r is None,
        forall|idx: Seq<usize>| #[trigger] survivors_listed(views32(providers@), views32(succeeded@), idx) && idx.len() < 2
            ==> r is None,
        succeeded.len() > 0 && (exists|s: u64| #[trigger] stripe_unclaimed(assignments@, views32(succeeded@), s))
            && (forall|idx: Seq<usize>| #[trigger] survivors_listed(views32(providers@), views32(succeeded@), idx)
            ==> idx.len() >= 2) ==> r is Some,
        r matches Some(plan) ==> {
            &&& survivors_listed(views32(providers@), views32(succeeded@), plan.survivors@)
            &&& exists|u: Seq<u64>| {
                &&& #[trigger] unclaimed_listed(assignments@, views32(succeeded@), u)
                &&& assignments_spec(
                    pick(views32(providers@), plan.survivors@),
                    plan.survivors@.len() as int,
                    chunk_estimate(u, chunks_of(download_size)),
                    download_size,
                    plan.assignments@,
                )
            }
        },
{
    if succeeded.len() == 0 {
        return None;
    }
    let unclaimed = collect_unclaimed(assignments, succeeded);
    if unclaimed.len() == 0 {
        proof {
            assert forall|s: u64| !#[trigger] stripe_unclaimed(assignments@, views32(succeeded@), s) by {
                if stripe_unclaimed(assignments@, views32(succeeded@), s) {
                    assert(unclaimed@.contains(s));
                }
            }
        }
        return None;
    }
    proof {
        assert(unclaimed@.contains(unclaimed@[0]));
    }
    let survivors = survivor_indices(providers, succeeded);
    proof {
        lemma_sorted_set_unique(views32(providers@), views32(succeeded@), survivors@);
    }
    if survivors.len() < 2 {
        return None;
    }
    let mut ids: Vec<[u8; 32]> = Vec::new();
    let mut j: usize = 0;
    while j < survivors.len()
        invariant
            j <= survivors@.len(),
            survivors_listed(views32(providers@), views32(succeeded@), survivors@),
            views32(ids@) == pick(views32(providers@), survivors@.take(j as int)),
        decreases survivors.len() - j,
    {
        assert(survivors@.contains(survivors@[j as int]));
        let id = providers[survivors[j]];
        assert(views32(providers@)[survivors@[j as int] as int] == id@);
        let ghost before = ids@;
        ids.push(id);
        proof {
            let ps = views32(providers@);
            let t = survivors@.take(j as int);
            assert(survivors@.take(j + 1) =~= t.push(survivors@[j as int]));
            assert(pick(ps, t.push(survivors@[j as int])) =~= pick(ps, t).push(ps[survivors@[j as int] as int]));
            assert(views32(ids@) =~= views32(before).push(id@));
        }
        j += 1;
    }
    assert(survivors@.take(survivors.len() as int) =~= survivors@);
    let max_chunks: u64 = download_size / 1024 + if download_size % 1024 != 0 {
        1
    } else {
        0
    };
    let unclaimed_chunks = estimate_chunks_in_ranges(&unclaimed, max_chunks);
    let n = ids.len();
    let plan = assign_chunks_striped(&ids, unclaimed_chunks, n, download_size);
    assert(unclaimed_listed(assignments@, views32(succeeded@), unclaimed@));
    Some(RetryPlan { survivors, assignments: plan })
}

/// Two ascending lists of the survivors are the same list.
proof fn lemma_sorted_set_unique(ps: Seq<Seq<u8>>, sv: Seq<Seq<u8>>, r: Seq<usize>)
    requires
        survivors_listed(ps, sv, r),
    ensures
        forall|idx: Seq<usize>| #[trigger] survivors_listed(ps, sv, idx) ==> idx == r,
{
    assert forall|idx: Seq<usize>| #[trigger] survivors_listed(ps, sv, idx) implies idx == r by {
        lemma_sorted_same(idx, r);
    }
}

proof fn lemma_sorted_same(a: Seq<usize>, b: Seq<usize>)
    requires
        forall|x: usize| #![trigger a.contains(x)] #![trigger b.contains(x)] a.contains(x) <==> b.contains(x),
        forall|i: int, j: int| 0 <= i < j < a.len() ==> #[trigger] a[i] < #[trigger] a[j],
        forall|i: int, j: int| 0 <= i < j < b.len() ==> #[trigger] b[i] < #[trigger] b[j],
    ensures
        a == b,
    decreases a.len(),
{
    if a.len() == 0 {
        if b.len() > 0 {
            assert(b.contains(b[0]));
        }
        assert(a =~= b);
    } else if b.len() == 0 {
        assert(a.contains(a[0]));
    } else {
        let la = a.last();
        let lb = b.last();
        assert(a.contains(la));
        assert(b.contains(lb));
        let qa = choose|q: int| 0 <= q < a.len() && a[q] == lb;
        let qb = choose|q: int| 0 <= q < b.len() && b[q] == la;
        if qa < a.len() - 1 {
            assert(a[qa] < a[a.len() - 1]);
        }
        if qb < b.len() - 1 {
            assert(b[qb] < b[b.len() - 1]);
        }
        assert(la == lb);
        let a2 = a.drop_last();
        let b2 = b.drop_last();
        assert forall|x: usize| #![trigger a2.contains(x)] #![trigger b2.contains(x)] a2.contains(x) <==> b2.contains(x) by {
            if a2.contains(x) {
                let q = choose|q: int| 0 <= q < a2.len() && a2[q] == x;
                assert(a[q] < la);
                assert(a.contains(x));
                let r = choose|r: int| 0 <= r < b.len() && b[r] == x;
                if r == b.len() - 1 {
                    assert(false);
                }
                assert(b2[r] == x);
            }
            if b2.contains(x) {
                let q = choose|q: int| 0 <= q < b2.len() && b2[q] == x;
                assert(b[q] < lb);
                assert(b.contains(x));
                let r = choose|r: int| 0 <= r < a.len() && a[r] == x;
                if r == a.len() - 1 {
                    assert(false);
                }
                assert(a2[r] == x);
            }
        }
        lemma_sorted_same(a2, b2);
        assert(a =~= a2.push(la));
        assert(b =~= b2.push(lb));
    }
}

/// The first phase of a parallel download of a blob of `total_size` bytes:
/// `None` below two providers, below the configured minimum size, or when no
/// stripe could be assigned; else the stripes of the first
/// `max_concurrent_connections` providers.
pub fn parallel_plan(providers: &[[u8; 32]], total_size: u64, config: &ParallelDownloadConfig) -> (r: Option<
    Vec<StripeAssignment>,
>)
    ensures
        providers.len() < 2 || total_size < config.min_blob_size ==> r is None,
        providers.len() >= 2 && total_size >= config.min_blob_size ==> exists|a: Seq<StripeAssignment>| {
            &&& #[trigger] assignments_spec(
                views32(providers@),
                min_count(config.max_concurrent_connections, providers.len()),
                chunks_of(total_size),
                total_size,
                a,
            )
            &&& (a.len() == 0 ==> r is None)
            &&& (a.len() > 0 ==> (r matches Some(v) && v@ == a))
        },
{
    if providers.len() < 2 || total_size < config.min_blob_size {
        return None;
    }
    let total_chunks: u64 = total_size / 1024 + if total_size % 1024 != 0 {
        1
    } else {
        0
    };
    let n = if providers.len() < config.max_concurrent_connections {
        providers.len()
    } else {
        config.max_concurrent_connections
    };
    let a = assign_chunks_striped(providers, total_chunks, n, total_size);
    assert(total_chunks == chunks_of(total_size));
    assert(assignments_spec(
        views32(providers@),
        min_count(config.max_concurrent_connections, providers.len()),
        chunks_of(total_size),
        total_size,
        a@,
    ));
    if a.len() == 0 {
        None
    } else {
        Some(a)
    }
}

} // verus!
