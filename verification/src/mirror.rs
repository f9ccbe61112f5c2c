//! Mirroring: which blobs a mirror run takes on, and the tally of what became
//! of each. Fetching and pinning the blobs happen outside; they report one
//! [`BlobOutcome`] per blob to a [`MirrorTally`].
use vstd::prelude::*;
use crate::error::{Result, SyncwebError};
use crate::resilience::{
    ResilienceService, provider_blobs_listed, views32, bytes_lt, sort_ids, dedup_ids, dedup,
    lemma_dedup_props, contains_id, lemma_push_contains,
};

verus! {

/// Progress event of a mirror run.
#[derive(Clone, Debug)]
pub enum MirrorEvent {
    /// All blobs to mirror have been discovered.
    Discovered { total: usize },
    /// Starting to fetch a specific blob.
    Fetching { hash: [u8; 32], index: usize, total: usize },
    /// A blob was fetched and pinned.
    Pinned { hash: [u8; 32] },
    /// A blob was skipped, being already held locally.
    Skipped { hash: [u8; 32] },
    /// A blob could not be fetched from any provider.
    Failed { hash: [u8; 32], error: String },
}

/// Result of a mirror run.
#[derive(Clone, Copy, Debug)]
pub struct MirrorResult {
    pub total_blobs: usize,
    pub pinned: usize,
    pub skipped: usize,
    pub failed: usize,
    pub dry_run: bool,
}

/// Options of a mirror run.
#[derive(Clone, Copy, Debug)]
pub struct MirrorOptions {
    pub dry_run: bool,
    pub no_sharing: bool,
    pub min_providers: usize,
}

impl MirrorOptions {
    pub fn new(min_providers: usize) -> (o: Self)
        ensures
            o == (MirrorOptions { dry_run: false, no_sharing: false, min_providers }),
    {
        MirrorOptions { dry_run: false, no_sharing: false, min_providers }
    }

    /// Report without fetching.
    pub fn with_dry_run(self, dry_run: bool) -> (o: Self)
        ensures
            o == (MirrorOptions { dry_run, ..self }),
    {
        MirrorOptions { dry_run, ..self }
    }

    /// Skip lease announcements.
    pub fn with_no_sharing(self, no_sharing: bool) -> (o: Self)
        ensures
            o == (MirrorOptions { no_sharing, ..self }),
    {
        MirrorOptions { no_sharing, ..self }
    }
}

impl Default for MirrorOptions {
    fn default() -> (o: Self)
        ensures
            o == (MirrorOptions { dry_run: false, no_sharing: false, min_providers: 3 }),
    {
        Self::new(3)
    }
}

/// The blobs a provider advertises, ascending.
pub fn discover_provider_blobs(service: &ResilienceService, provider: &[u8; 32]) -> (r: Result<Vec<[u8; 32]>>)
    requires
        service.wf(),
    ensures
        r is Ok,
        r matches Ok(v) ==> provider_blobs_listed(service.tracker_spec(), provider@, views32(v@)),
{
    Ok(service.blobs_for_provider(provider))
}

/// `h` is one of the network's entries and passes the provider filter.
pub open spec fn network_hash_selected(entries: Seq<Seq<u8>>, filter: Option<Seq<Seq<u8>>>, h: Seq<u8>) -> bool {
    &&& entries.contains(h)
    &&& match filter {
        Some(f) => f.contains(h),
        None => true,
    }
}

/// The blobs a network mirror takes on: the entries' hashes that the provider
/// filter admits, ascending and each once.
pub fn network_mirror_hashes(entries: &[[u8; 32]], filter: Option<&Vec<[u8; 32]>>) -> (r: Vec<[u8; 32]>)
    ensures
        views32(r@).no_duplicates(),
        forall|h: Seq<u8>|
            #[trigger] views32(r@).contains(h) <==> network_hash_selected(
                views32(entries@),
                match filter {
                    Some(f) => Some(views32(f@)),
                    None => None,
                },
                h,
            ),
        forall|i: int, j: int| 0 <= i < j < r@.len() ==> bytes_lt(#[trigger] views32(r@)[i], #[trigger] views32(r@)[j]),
{
    let ghost es = views32(entries@);
    let ghost fs = match filter {
        Some(f) => Some(views32(f@)),
        None => None,
    };
    let mut kept: Vec<[u8; 32]> = Vec::new();
    let mut i: usize = 0;
    while i < entries.len()
        invariant
            i <= entries.len(),
            es == views32(entries@),
            fs == (match filter {
                Some(f) => Some(views32(f@)),
                None => None,
            }),
            forall|h: Seq<u8>|
                #[trigger] views32(kept@).contains(h) <==> (network_hash_selected(es.subrange(0, i as int), fs, h)),
        decreases entries.len() - i,
    {
        let admitted = match filter {
            Some(f) => contains_id(f, &entries[i]),
            None => true,
        };
        let ghost old_kept = views32(kept@);
        if admitted {
            kept.push(entries[i]);
            assert(views32(kept@) =~= old_kept.push(entries@[i as int]@));
        }
        proof {
            let before = es.subrange(0, i as int);
            let after = es.subrange(0, i + 1);
            assert(after =~= before.push(es[i as int]));
            lemma_push_contains(before, es[i as int]);
            lemma_push_contains(old_kept, es[i as int]);
            assert(es[i as int] == entries@[i as int]@);
            assert(admitted == match fs {
                Some(f) => f.contains(es[i as int]),
                None => true,
            });
            assert forall|h: Seq<u8>| #[trigger] views32(kept@).contains(h) <==> network_hash_selected(after, fs, h) by {
                assert(old_kept.contains(h) <==> network_hash_selected(before, fs, h));
            }
        }
        i += 1;
    }
    assert(es.subrange(0, entries.len() as int) =~= es);
    let unique = dedup_ids(&kept);
    proof {
        lemma_dedup_props(views32(kept@));
    }
    let r = sort_ids(unique);
    proof {
        assert forall|h: Seq<u8>| #[trigger] views32(r@).contains(h) <==> network_hash_selected(es, fs, h) by {
            assert(views32(unique@).contains(h) <==> views32(kept@).contains(h));
        }
    }
    r
}

/// What became of one blob in a mirror run.
#[derive(Clone, Debug)]
pub enum BlobOutcome {
    /// The blob was already held locally.
    AlreadyLocal,
    /// The blob was fetched and pinned.
    Pinned,
    /// No provider served the blob.
    NoProviders,
    /// The blob was fetched but not pinned.
    NotPinned,
    /// Replication failed with this error.
    Error(String),
}

/// The outcome of a replication attempt that returned: whether the blob was
/// pinned and from how many providers it was fetched.
pub fn replication_outcome(pinned: bool, fetched_from: usize) -> (o: BlobOutcome)
    ensures
        pinned ==> o is Pinned,
        !pinned && fetched_from == 0 ==> o is NoProviders,
        !pinned && fetched_from > 0 ==> o is NotPinned,
{
    if pinned {
        BlobOutcome::Pinned
    } else if fetched_from == 0 {
        BlobOutcome::NoProviders
    } else {
        BlobOutcome::NotPinned
    }
}

/// The result a dry run reports, or `None` when the run fetches.
pub fn dry_run_result(total: usize, options: &MirrorOptions) -> (r: Option<MirrorResult>)
    ensures
        options.dry_run <==> r is Some,
        r matches Some(m) ==> m == (MirrorResult { total_blobs: total, pinned: 0, skipped: 0, failed: 0, dry_run: true }),
{
    if options.dry_run {
        Some(MirrorResult { total_blobs: total, pinned: 0, skipped: 0, failed: 0, dry_run: true })
    } else {
        None
    }
}

/// `a + 1`, saturating.
pub open spec fn bump(a: usize) -> usize {
    if a == usize::MAX {
        a
    } else {
        (a + 1) as usize
    }
}

/// The running counts of a mirror run.
#[derive(Clone, Copy, Debug)]
pub struct MirrorTally {
    pub total: usize,
    pub pinned: usize,
    pub skipped: usize,
    pub failed: usize,
}

impl MirrorTally {
    /// A run over `total` blobs, nothing counted yet.
    pub fn new(total: usize) -> (t: Self)
        ensures
            t == (MirrorTally { total, pinned: 0, skipped: 0, failed: 0 }),
    {
        MirrorTally { total, pinned: 0, skipped: 0, failed: 0 }
    }

    /// Count what became of one blob, and give the event to report.
    pub fn record(&mut self, hash: [u8; 32], outcome: BlobOutcome) -> (e: MirrorEvent)
        ensures
            final(self).total == old(self).total,
            final(self).pinned == if outcome is Pinned { bump(old(self).pinned) } else { old(self).pinned },
            final(self).skipped == if outcome is AlreadyLocal { bump(old(self).skipped) } else { old(self).skipped },
            final(self).failed == if outcome is Pinned || outcome is AlreadyLocal {
                old(self).failed
            } else {
                bump(old(self).failed)
            },
            match outcome {
                BlobOutcome::AlreadyLocal => e == MirrorEvent::Skipped { hash },
                BlobOutcome::Pinned => e == MirrorEvent::Pinned { hash },
                BlobOutcome::NoProviders => e matches MirrorEvent::Failed { hash: h, error } && h == hash
                    && error@ == "no providers available"@,
                BlobOutcome::NotPinned => e matches MirrorEvent::Failed { hash: h, error } && h == hash
                    && error@ == "blob was fetched but not pinned"@,
                BlobOutcome::Error(msg) => e == MirrorEvent::Failed { hash, error: msg },
            },
    {
        match outcome {
            BlobOutcome::AlreadyLocal => {
                self.skipped = self.skipped.saturating_add(1);
                MirrorEvent::Skipped { hash }
            },
            BlobOutcome::Pinned => {
                self.pinned = self.pinned.saturating_add(1);
                MirrorEvent::Pinned { hash }
            },
            BlobOutcome::NoProviders => {
                self.failed = self.failed.saturating_add(1);
                MirrorEvent::Failed { hash, error: "no providers available".to_string() }
            },
            BlobOutcome::NotPinned => {
                self.failed = self.failed.saturating_add(1);
                MirrorEvent::Failed { hash, error: "blob was fetched but not pinned".to_string() }
            },
            BlobOutcome::Error(msg) => {
                self.failed = self.failed.saturating_add(1);
                MirrorEvent::Failed { hash, error: msg }
            },
        }
    }

    /// The result of the finished run.
    pub fn finish(&self) -> (r: MirrorResult)
        ensures
            r == (MirrorResult {
                total_blobs: self.total,
                pinned: self.pinned,
                skipped: self.skipped,
                failed: self.failed,
                dry_run: false,
            }),
    {
        MirrorResult {
            total_blobs: self.total,
            pinned: self.pinned,
            skipped: self.skipped,
            failed: self.failed,
            dry_run: false,
        }
    }
}

} // verus!
