use yamalgam::config::LogLevel;
use yamalgam::observability::{days_to_ymd, ObservabilityConfig};

#[test]
fn days_to_ymd_known_dates() {
    // 1970-01-01 = day 0
    assert_eq!(days_to_ymd(0), (1970, 1, 1));
    // 2000-01-01 = day 10957
    assert_eq!(days_to_ymd(10957), (2000, 1, 1));
    // 2024-02-29 (leap year) = day 19782
    assert_eq!(days_to_ymd(19782), (2024, 2, 29));
}

#[test]
fn days_to_ymd_before_epoch_and_year_ends() {
    assert_eq!(days_to_ymd(-1), (1969, 12, 31));
    assert_eq!(days_to_ymd(-719468), (0, 3, 1));
    assert_eq!(days_to_ymd(11016), (2000, 2, 29));
    assert_eq!(days_to_ymd(11322), (2000, 12, 31));
    assert_eq!(days_to_ymd(-25567), (1900, 1, 1));
}

#[test]
fn config_from_overrides_keeps_values() {
    let c = ObservabilityConfig::from_env_with_overrides("yamalgam", None);
    assert_eq!(c.service, "yamalgam");
    assert!(c.log_dir.is_none());
    let dir = std::path::PathBuf::from("/tmp/logs");
    let c = ObservabilityConfig::from_env_with_overrides("svc", Some(dir.clone()));
    assert_eq!(c.log_dir, Some(dir));
}

#[test]
fn log_level_names() {
    assert_eq!(LogLevel::default(), LogLevel::Info);
    assert_eq!(LogLevel::Debug.as_str(), "debug");
    assert_eq!(LogLevel::Info.as_str(), "info");
    assert_eq!(LogLevel::Warn.as_str(), "warn");
    assert_eq!(LogLevel::Error.as_str(), "error");
}
