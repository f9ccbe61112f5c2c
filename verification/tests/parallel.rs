use syncweb_core::parallel::{
    assign_chunks_striped, collect_unclaimed, compute_rate_bytes_per_ms, estimate_chunks_in_ranges, estimated_millis, parallel_plan,
    retry_plan, stripe_score, ParallelDownloadConfig, StripeAssignment, TaskOutcome,
};

fn score(p: &[u8; 32], s: u64) -> u64 {
    let mut data = [0_u8; 40];
    data[..32].copy_from_slice(p);
    data[32..].copy_from_slice(&s.to_be_bytes());
    let h = blake3::hash(&data);
    u64::from_be_bytes(h.as_bytes()[..8].try_into().unwrap())
}

#[test]
fn default_config() {
    let c = ParallelDownloadConfig::default();
    assert_eq!((c.min_blob_size, c.max_concurrent_connections, c.min_chunks_per_range), (16 * 1024 * 1024, 5, 64));
}

#[test]
fn stripe_scores_use_the_blake3_prefix() {
    let p = [9_u8; 32];
    assert_eq!(stripe_score(&p, 0), score(&p, 0));
    assert_eq!(stripe_score(&p, 12345), score(&p, 12345));
}

#[test]
fn every_stripe_goes_to_its_best_provider() {
    let providers = [[1_u8; 32], [2_u8; 32], [3_u8; 32]];
    let total_chunks = 5 * 1024 + 7;
    let a = assign_chunks_striped(&providers, total_chunks, 3, 10_000);
    let mut seen = 0;
    for s in 0..6_u64 {
        let best = (0..3).max_by_key(|&i| score(&providers[i], s)).unwrap();
        let owner = a.iter().find(|x| x.stripes.contains(&s)).expect("stripe assigned");
        assert_eq!(owner.provider_index, best);
        assert_eq!(owner.provider, providers[best]);
        seen += 1;
    }
    assert_eq!(seen, 6);
    let total: u64 = a.iter().map(|x| x.estimated_bytes).sum();
    assert_eq!(total, 10_000 - 10_000 % 3 + (10_000 % 3).min(a.len() as u64));
    assert!(assign_chunks_striped(&providers, 0, 3, 1).is_empty());
    assert!(assign_chunks_striped(&providers, 10, 0, 1).is_empty());
}

#[test]
fn rate_is_bytes_over_millis_with_default() {
    let p = [0_u8; 32];
    assert_eq!(compute_rate_bytes_per_ms(&[]), 125);
    let o = [
        TaskOutcome { provider: p, bytes_written: 1000, elapsed_millis: 3 },
        TaskOutcome { provider: p, bytes_written: 500, elapsed_millis: 2 },
    ];
    assert_eq!(compute_rate_bytes_per_ms(&o), 300);
    let slow = [TaskOutcome { provider: p, bytes_written: 1, elapsed_millis: 10 }];
    assert_eq!(compute_rate_bytes_per_ms(&slow), 1);
    assert_eq!(estimated_millis(1000, 0), 1000);
    assert_eq!(estimated_millis(1000, 10), 100);
}

#[test]
fn unclaimed_stripes_and_retry_plan() {
    let a = [1_u8; 32];
    let b = [2_u8; 32];
    let c = [3_u8; 32];
    let assignments = vec![
        StripeAssignment { provider: a, provider_index: 0, stripes: vec![0, 2], estimated_bytes: 1 },
        StripeAssignment { provider: b, provider_index: 1, stripes: vec![1], estimated_bytes: 1 },
        StripeAssignment { provider: c, provider_index: 2, stripes: vec![3], estimated_bytes: 1 },
    ];
    assert_eq!(collect_unclaimed(&assignments, &[b]), vec![0, 2, 3]);
    assert_eq!(estimate_chunks_in_ranges(&[0, 2], 4000), 1 + 2048);
    assert_eq!(estimate_chunks_in_ranges(&[3], 3500), 1 + (3500 - 3072));
    assert!(retry_plan(&assignments, &[], &[a, b, c], 4_000_000).is_none());
    assert!(retry_plan(&assignments, &[a, b, c], &[a, b, c], 4_000_000).is_none());
    assert!(retry_plan(&assignments, &[b], &[a, b, c], 4_000_000).is_none());
    let plan = retry_plan(&assignments, &[a, b], &[a, b, c], 4_000_000).expect("two survivors");
    assert_eq!(plan.survivors, vec![0, 1]);
    assert!(plan.assignments.iter().all(|x| x.provider_index < 2));
}

#[test]
fn parallel_plan_needs_two_providers_and_a_large_blob() {
    let config = ParallelDownloadConfig::default();
    let ps = [[1_u8; 32], [2_u8; 32]];
    assert!(parallel_plan(&ps[..1], 1 << 30, &config).is_none());
    assert!(parallel_plan(&ps, 1024, &config).is_none());
    let plan = parallel_plan(&ps, 32 * 1024 * 1024, &config).expect("plan");
    let stripes: usize = plan.iter().map(|x| x.stripes.len()).sum();
    assert_eq!(stripes, 32);
}
