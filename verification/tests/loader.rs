use yamalgam::loader::{LoaderConfig, ResourceLimits};

#[test]
fn default_is_moderate() {
    let cfg = LoaderConfig::default();
    assert_eq!(cfg.limits.max_depth, Some(256));
    assert!(!cfg.resolution.inclusion.enabled);
    assert!(!cfg.resolution.refs.enabled);
}

#[test]
fn strict_has_tight_limits() {
    let cfg = LoaderConfig::strict();
    assert_eq!(cfg.limits.max_depth, Some(64));
    assert_eq!(cfg.limits.max_scalar_bytes, Some(1024 * 1024));
    assert_eq!(cfg.limits.max_alias_expansions, Some(100));
}

#[test]
fn trusted_has_generous_limits() {
    let cfg = LoaderConfig::trusted();
    assert_eq!(cfg.limits.max_input_bytes, None);
    assert_eq!(cfg.limits.max_scalar_bytes, None);
    assert_eq!(cfg.limits.max_depth, Some(1024));
}

#[test]
fn unchecked_has_no_limits() {
    let cfg = LoaderConfig::unchecked();
    assert_eq!(cfg.limits.max_input_bytes, None);
    assert_eq!(cfg.limits.max_scalar_bytes, None);
    assert_eq!(cfg.limits.max_key_bytes, None);
    assert_eq!(cfg.limits.max_depth, None);
    assert_eq!(cfg.limits.max_alias_expansions, None);
    assert_eq!(cfg.limits.max_anchor_count, None);
    assert_eq!(cfg.limits.max_merge_depth, None);
}

#[test]
fn resolution_disabled_by_default() {
    let cfg = LoaderConfig::default();
    assert!(!cfg.resolution.inclusion.enabled);
    assert!(!cfg.resolution.refs.enabled);
    assert!(cfg.resolution.inclusion.allow.is_empty());
    assert!(cfg.resolution.inclusion.deny.is_empty());
    assert!(cfg.resolution.refs.allow_schemes.is_empty());
    assert!(cfg.resolution.refs.allow_hosts.is_empty());
}

#[test]
fn resource_limits_none_is_all_none() {
    let limits = ResourceLimits::none();
    assert_eq!(limits.max_input_bytes, None);
    assert_eq!(limits.max_scalar_bytes, None);
    assert_eq!(limits.max_key_bytes, None);
    assert_eq!(limits.max_depth, None);
    assert_eq!(limits.max_alias_expansions, None);
    assert_eq!(limits.max_anchor_count, None);
    assert_eq!(limits.max_merge_depth, None);
}

#[test]
fn check_depth_allows_within_limit() {
    let limits = ResourceLimits {
        max_depth: Some(256),
        ..ResourceLimits::none()
    };
    assert!(limits.check_depth(10).is_ok());
}

#[test]
fn check_depth_rejects_over_limit() {
    let limits = ResourceLimits {
        max_depth: Some(256),
        ..ResourceLimits::none()
    };
    assert!(limits.check_depth(300).is_err());
}

#[test]
fn check_depth_allows_when_unlimited() {
    let limits = ResourceLimits::none();
    assert!(limits.check_depth(999_999).is_ok());
}

#[test]
fn check_depth_allows_at_exact_limit() {
    let limits = ResourceLimits {
        max_depth: Some(256),
        ..ResourceLimits::none()
    };
    assert!(limits.check_depth(256).is_ok());
}

#[test]
fn check_scalar_size_rejects_over_limit() {
    let limits = ResourceLimits {
        max_scalar_bytes: Some(1_000_000),
        ..ResourceLimits::none()
    };
    assert!(limits.check_scalar_size(2_000_000).is_err());
}

#[test]
fn check_key_size_rejects_over_limit() {
    let limits = ResourceLimits {
        max_key_bytes: Some(4096),
        ..ResourceLimits::none()
    };
    assert!(limits.check_key_size(5000).is_err());
    assert!(limits.check_key_size(4096).is_ok());
}

#[test]
fn check_input_size_rejects_over_limit() {
    let limits = ResourceLimits {
        max_input_bytes: Some(10 * 1024 * 1024),
        ..ResourceLimits::none()
    };
    assert!(limits.check_input_size(11 * 1024 * 1024).is_err());
    assert!(limits.check_input_size(10 * 1024 * 1024).is_ok());
}
