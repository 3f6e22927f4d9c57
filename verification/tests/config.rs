use inventory_agent::config::{apply_env_overrides, default_interval, Config};
use inventory_agent::text::parse_u64;

#[test]
fn test_config_default() {
    let config = Config::default();
    assert_eq!(config.api_url, None);
    assert_eq!(config.interval_seconds, 1800);
    assert_eq!(config.tls_insecure, false);
}

#[test]
fn test_default_interval() {
    assert_eq!(default_interval(), 1800);
}

#[test]
fn test_env_overrides_present_win() {
    let file = Config {
        api_url: Some("http://file:1/checkin".to_string()),
        interval_seconds: 900,
        tls_insecure: false,
    };
    let merged = apply_env_overrides(
        file,
        Some("https://env:2/checkin".to_string()),
        Some("3600".to_string()),
        Some("TRUE".to_string()),
    );
    assert_eq!(merged.api_url, Some("https://env:2/checkin".to_string()));
    assert_eq!(merged.interval_seconds, 3600);
    assert_eq!(merged.tls_insecure, true);
}

#[test]
fn test_env_overrides_absent_keep_file_values() {
    let file = Config {
        api_url: Some("http://file:1/checkin".to_string()),
        interval_seconds: 900,
        tls_insecure: true,
    };
    let merged = apply_env_overrides(file, None, None, None);
    assert_eq!(merged.api_url, Some("http://file:1/checkin".to_string()));
    assert_eq!(merged.interval_seconds, 900);
    assert_eq!(merged.tls_insecure, true);
}

#[test]
fn test_env_override_bad_interval_ignored() {
    let merged = apply_env_overrides(
        Config::default(),
        None,
        Some("not a number".to_string()),
        Some("false".to_string()),
    );
    assert_eq!(merged.interval_seconds, 1800);
    assert_eq!(merged.tls_insecure, false);
}

#[test]
fn test_parse_u64_values() {
    assert_eq!(parse_u64("900"), Some(900));
    assert_eq!(parse_u64("+5"), Some(5));
    assert_eq!(parse_u64("0"), Some(0));
    assert_eq!(parse_u64("18446744073709551615"), Some(u64::MAX));
    assert_eq!(parse_u64("18446744073709551616"), None);
    assert_eq!(parse_u64(""), None);
    assert_eq!(parse_u64("+"), None);
    assert_eq!(parse_u64("12a"), None);
    assert_eq!(parse_u64("-3"), None);
}
