use syncweb_core::error::SyncwebError;
use syncweb_core::schedule::{
    parse_clock, parse_rate, parse_schedule, BandwidthLimits, BandwidthWindowConfig, ScheduleConfig,
    ScheduleFolderConfig, ScheduleManager, TimeWindow,
};

#[test]
fn clock_times_parse_to_minutes_after_midnight() {
    assert_eq!(parse_clock("00:00").unwrap(), 0);
    assert_eq!(parse_clock(" 09:30 ").unwrap(), 570);
    assert_eq!(parse_clock("24:00").unwrap(), 1440);
    assert!(matches!(parse_clock("24:01"), Err(SyncwebError::InvalidConfig(_))));
    assert!(matches!(parse_clock("12:60"), Err(SyncwebError::InvalidConfig(_))));
    assert!(matches!(parse_clock("1230"), Err(SyncwebError::InvalidConfig(_))));
    assert!(matches!(parse_clock("ab:00"), Err(SyncwebError::InvalidConfig(_))));
}

#[test]
fn windows_wrap_past_midnight_and_equal_ends_cover_the_day() {
    let day = TimeWindow::parse("09:00-17:00").unwrap().unwrap();
    assert_eq!(day.start(), 540);
    assert_eq!(day.end(), 1020);
    assert!(day.contains(540));
    assert!(!day.contains(1020));
    assert!(!day.contains(100));

    let night = TimeWindow::parse("22:00-06:00").unwrap().unwrap();
    assert!(night.contains(1380));
    assert!(night.contains(60));
    assert!(!night.contains(720));

    let all = TimeWindow::parse("00:00-00:00").unwrap().unwrap();
    assert!(all.contains(0) && all.contains(719) && all.contains(1439));

    assert!(TimeWindow::parse("   ").unwrap().is_none());
    assert!(matches!(TimeWindow::parse("09:00"), Err(SyncwebError::InvalidConfig(_))));
    assert_eq!(day.to_string(), "09:00-17:00");
}

#[test]
fn rates_accept_decimal_and_binary_suffixes() {
    assert_eq!(parse_rate("0").unwrap(), None);
    assert_eq!(parse_rate("unlimited").unwrap(), None);
    assert_eq!(parse_rate("").unwrap(), None);
    assert_eq!(parse_rate("5MB/s").unwrap(), Some(5_000_000));
    assert_eq!(parse_rate("500KB/s").unwrap(), Some(500_000));
    assert_eq!(parse_rate("2KiB").unwrap(), Some(2048));
    assert_eq!(parse_rate("1GiB/s").unwrap(), Some(1_073_741_824));
    assert_eq!(parse_rate("42B/s").unwrap(), Some(42));
    assert_eq!(parse_rate("42").unwrap(), Some(42));
    assert!(matches!(parse_rate("fast"), Err(SyncwebError::InvalidConfig(_))));
    assert!(matches!(parse_rate("99999999999999GB"), Err(SyncwebError::InvalidConfig(_))));
}

#[test]
fn schedules_parse_hours_and_bandwidth_windows() {
    let windows = vec![BandwidthWindowConfig::new("09:00-17:00", "1MB/s", "2MB/s")];
    let schedule = parse_schedule("08:00-18:00", &windows).unwrap();
    assert_eq!(schedule.active_hours, TimeWindow::parse("08:00-18:00").unwrap());
    assert_eq!(schedule.bandwidth.len(), 1);
    assert_eq!(schedule.bandwidth[0].max_upload, Some(1_000_000));
    assert_eq!(schedule.bandwidth[0].max_download, Some(2_000_000));
    assert!(parse_schedule("bad", &[]).is_err());
}

fn config() -> ScheduleConfig {
    let mut config = ScheduleConfig::default();
    config.active_hours = "08:00-18:00".to_string();
    config.bandwidth = vec![BandwidthWindowConfig::new("09:00-17:00", "1MB/s", "0")];
    let folder = ScheduleFolderConfig {
        active_hours: Some("20:00-22:00".to_string()),
        max_upload: Some("10KB/s".to_string()),
        max_download: None,
    };
    config.folders = vec![("music".to_string(), folder)];
    config
}

#[test]
fn manager_applies_global_and_folder_overrides() {
    let manager = ScheduleManager::from_config(&config()).unwrap();
    assert!(manager.is_active_at(None, 600));
    assert!(!manager.is_active_at(None, 1200));
    assert!(manager.is_active_at(Some("music"), 1230));
    assert!(!manager.is_active_at(Some("music"), 600));
    assert!(manager.is_active_at(Some("other"), 600));

    assert_eq!(
        manager.current_limits_at(None, 600),
        BandwidthLimits { max_upload: Some(1_000_000), max_download: None }
    );
    assert_eq!(manager.current_limits_at(None, 1100), BandwidthLimits::default());
    assert_eq!(
        manager.current_limits_at(Some("music"), 600),
        BandwidthLimits { max_upload: Some(10_000), max_download: None }
    );
}

#[test]
fn next_active_window_start_searches_forward() {
    let manager = ScheduleManager::from_config(&config()).unwrap();
    assert_eq!(manager.next_active_window_start_at(None, 600), Some(600));
    assert_eq!(manager.next_active_window_start_at(None, 1200), Some(480));
    assert_eq!(manager.next_active_window_start_at(Some("music"), 600), Some(1200));
    let open = ScheduleManager::from_config(&ScheduleConfig::default()).unwrap();
    assert_eq!(open.next_active_window_start_at(None, 5), None);
    assert!(open.is_active_at(None, 5));
}

#[test]
fn invalid_folder_settings_are_rejected() {
    let mut config = config();
    config.folders[0].1.max_download = Some("lots".to_string());
    assert!(matches!(ScheduleManager::from_config(&config), Err(SyncwebError::InvalidConfig(_))));
}

#[test]
fn an_empty_folder_override_means_all_day() {
    let mut config = config();
    config.folders = vec![(
        "video".to_string(),
        ScheduleFolderConfig { active_hours: Some(String::new()), max_upload: None, max_download: None },
    )];
    let manager = ScheduleManager::from_config(&config).unwrap();
    assert!(!manager.is_active_at(None, 1200));
    assert!(manager.is_active_at(Some("video"), 1200));
    assert_eq!(manager.next_active_window_start_at(Some("video"), 1200), None);
}

#[test]
fn a_folder_named_twice_is_refused() {
    let mut config = config();
    config.folders.push(("music".to_string(), ScheduleFolderConfig::default()));
    match ScheduleManager::from_config(&config) {
        Err(SyncwebError::InvalidConfig(message)) => {
            assert_eq!(message, "duplicate folder schedule: music");
        }
        other => panic!("expected a refusal, got {other:?}"),
    }
}

#[test]
fn the_first_containing_bandwidth_window_sets_the_limits() {
    let mut config = ScheduleConfig::default();
    config.bandwidth = vec![
        BandwidthWindowConfig::new("09:00-12:00", "2KB/s", "3KB/s"),
        BandwidthWindowConfig::new("08:00-18:00", "1MB/s", "unlimited"),
    ];
    let folder = ScheduleFolderConfig { active_hours: Some(String::new()), max_upload: None, max_download: Some("5b".to_string()) };
    config.folders = vec![("docs".to_string(), folder)];
    let manager = ScheduleManager::from_config(&config).unwrap();
    assert_eq!(manager.current_limits_at(None, 600), BandwidthLimits { max_upload: Some(2_000), max_download: Some(3_000) });
    assert_eq!(manager.current_limits_at(None, 800), BandwidthLimits { max_upload: Some(1_000_000), max_download: None });
    assert_eq!(manager.current_limits_at(Some("docs"), 600), BandwidthLimits { max_upload: Some(2_000), max_download: Some(5) });
    assert!(manager.is_active_at(Some("docs"), 3));
}

#[test]
fn the_next_active_minute_wraps_past_midnight() {
    let mut config = ScheduleConfig::default();
    config.active_hours = "23:00-01:00".to_string();
    let manager = ScheduleManager::from_config(&config).unwrap();
    assert_eq!(manager.next_active_window_start_at(None, 1439), Some(1439));
    assert_eq!(manager.next_active_window_start_at(None, 60), Some(1380));
    assert_eq!(manager.next_active_window_start_at(None, 30), Some(30));
}
