use std::time::Duration;

use syncweb_core::parsing::{
    parse_bytes, parse_depth_constraints, parse_duration, parse_relative_time_at,
    parse_size_constraint,
};

#[test]
fn test_parse_bytes() {
    assert_eq!(parse_bytes("5GB").unwrap(), 5_000_000_000);
    assert_eq!(parse_bytes("5Gib").unwrap(), 5 * 1024 * 1024 * 1024);
    assert_eq!(parse_bytes("500KB").unwrap(), 500_000);
    assert_eq!(parse_bytes("1024").unwrap(), 1024);
    assert_eq!(parse_bytes("1024b").unwrap(), 1024);
}

#[test]
fn test_parse_size_constraint() {
    assert_eq!(
        parse_size_constraint("5GB").unwrap(),
        (Some(5_000_000_000), Some(5_000_000_000))
    );
    assert_eq!(parse_size_constraint("+5GB").unwrap(), (Some(5_000_000_001), None));
    assert_eq!(parse_size_constraint("-5GB").unwrap(), (None, Some(4_999_999_999)));
}

#[test]
fn test_parse_size_constraint_percentage() {
    let (min, max) = parse_size_constraint("6MB%10").unwrap();
    assert!(min.is_some());
    assert!(max.is_some());
    let min_val = min.unwrap();
    let max_val = max.unwrap();
    assert!(min_val < 6_000_000);
    assert!(max_val > 6_000_000);
}

#[test]
fn test_parse_duration() {
    assert_eq!(Duration::from_secs(parse_duration("3d").unwrap()), Duration::from_secs(72 * 3600));
    assert_eq!(Duration::from_secs(parse_duration("2 weeks").unwrap()), Duration::from_secs(336 * 3600));
    assert_eq!(Duration::from_secs(parse_duration("1 year").unwrap()), Duration::from_secs(8760 * 3600));
    assert_eq!(Duration::from_secs(parse_duration("30 sec").unwrap()), Duration::from_secs(30));
}

#[test]
fn test_parse_depth_constraints() {
    let empty: Vec<String> = vec![];
    assert_eq!(parse_depth_constraints(&empty, 0, None), (0, None));
    assert_eq!(parse_depth_constraints(&["+2".to_owned()], 0, None), (2, None));
    assert_eq!(parse_depth_constraints(&["-3".to_owned()], 0, None), (0, Some(3)));
    assert_eq!(parse_depth_constraints(&["2".to_owned()], 0, None), (2, Some(2)));
    assert_eq!(
        parse_depth_constraints(&["+1".to_owned(), "-3".to_owned()], 0, None),
        (1, Some(3))
    );
}

#[test]
fn sizes_accept_fractions_and_percent_bounds() {
    assert_eq!(parse_bytes("1.5kb").unwrap(), 1_500);
    assert_eq!(parse_bytes("1.5KiB").unwrap(), 1_536);
    assert_eq!(parse_bytes("  2mb ").unwrap(), 2_000_000);
    assert_eq!(parse_size_constraint("6MB%10").unwrap(), (Some(5_400_000), Some(6_600_000)));
    assert_eq!(parse_size_constraint("").unwrap(), (None, None));
    assert_eq!(parse_size_constraint(">1kb").unwrap(), (Some(1_001), None));
    assert_eq!(parse_size_constraint("<1kb").unwrap(), (None, Some(999)));
}

#[test]
fn malformed_sizes_and_durations_are_config_errors() {
    assert!(matches!(parse_bytes("five"), Err(syncweb_core::error::SyncwebError::InvalidConfig(_))));
    assert!(matches!(parse_bytes("1.2.3"), Err(syncweb_core::error::SyncwebError::InvalidConfig(_))));
    assert!(matches!(parse_duration("3 fortnights"), Err(syncweb_core::error::SyncwebError::InvalidConfig(_))));
    assert!(matches!(parse_size_constraint("5GB%x"), Err(syncweb_core::error::SyncwebError::InvalidConfig(_))));
}

#[test]
fn durations_fractions_and_units() {
    assert_eq!(parse_duration("1.5 hours").unwrap(), 5_400);
    assert_eq!(parse_duration("2mo").unwrap(), 2 * 2_592_000);
    assert!(parse_duration("45").is_err());
}

#[test]
fn relative_times_move_from_now() {
    assert_eq!(parse_relative_time_at("3 days", 1_000_000).unwrap(), 1_000_000 + 3 * 86_400);
    assert_eq!(parse_relative_time_at("-3 days", 1_000_000).unwrap(), 1_000_000 - 3 * 86_400);
    assert_eq!(parse_relative_time_at("+1h", 0).unwrap(), 3_600);
    assert!(parse_relative_time_at("1 y", i64::MAX).is_err());
}

#[test]
fn depth_entries_that_do_not_parse_are_skipped() {
    let list = vec!["x".to_owned(), "+4".to_owned(), "-2".to_owned(), "-1".to_owned()];
    assert_eq!(parse_depth_constraints(&list, 0, None), (4, Some(1)));
}

#[test]
fn percentage_sizes_without_a_unit_count_megabytes() {
    assert_eq!(parse_size_constraint("6%10").unwrap(), (Some(5_400_000), Some(6_600_000)));
    assert_eq!(parse_size_constraint("6B%10").unwrap(), (Some(5), Some(6)));
}

#[test]
fn a_bare_k_suffix_means_kilobytes() {
    assert_eq!(parse_bytes("500K").unwrap(), 500_000);
    assert_eq!(parse_bytes("1.5k").unwrap(), 1_500);
}
