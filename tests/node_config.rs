use p2p_protocol::calendar::days_since_epoch_to_date;
use p2p_protocol::{format_timestamp, is_leap_year, parse_endpoint, Config};

#[test]
fn test_config_merge() {
    let mut base = Config {
        blockchain_endpoint: Some("127.0.0.1:8087".to_string()),
        verbose: Some(false),
    };

    let override_config = Config {
        blockchain_endpoint: Some("127.0.0.1:9000".to_string()),
        verbose: None,
    };

    base.merge(&override_config);

    assert_eq!(base.blockchain_endpoint, Some("127.0.0.1:9000".to_string()));
    assert_eq!(base.verbose, Some(false));
}

#[test]
fn merge_with_empty_settings_changes_nothing() {
    let mut base = Config {
        blockchain_endpoint: Some("10.1.1.1:8087".to_string()),
        verbose: Some(true),
    };
    base.merge(&Config::default());
    assert_eq!(base.blockchain_endpoint, Some("10.1.1.1:8087".to_string()));
    assert_eq!(base.verbose, Some(true));

    let mut empty = Config::default();
    empty.merge(&Config { blockchain_endpoint: None, verbose: Some(true) });
    assert_eq!(empty.blockchain_endpoint, None);
    assert_eq!(empty.verbose, Some(true));
}

#[test]
fn default_config_paths_with_and_without_home() {
    assert_eq!(
        Config::default_config_paths(Some("/home/ann".to_string())),
        vec!["/home/ann/.config/tnode/config.yml".to_string(), "tnode.yml".to_string()]
    );
    assert_eq!(
        Config::default_config_paths(Some("/home/ann/".to_string())),
        vec!["/home/ann/.config/tnode/config.yml".to_string(), "tnode.yml".to_string()]
    );
    assert_eq!(Config::default_config_paths(Some(String::new())), vec!["tnode.yml".to_string()]);
    assert_eq!(Config::default_config_paths(None), vec!["tnode.yml".to_string()]);
}

#[test]
fn endpoint_gets_the_default_port_only_when_missing() {
    assert_eq!(parse_endpoint("127.0.0.1"), "127.0.0.1:8087");
    assert_eq!(parse_endpoint("node.example"), "node.example:8087");
    assert_eq!(parse_endpoint("127.0.0.1:9000"), "127.0.0.1:9000");
    assert_eq!(parse_endpoint("http://node.example"), "http://node.example");
    assert_eq!(parse_endpoint("https://node.example:443"), "https://node.example:443");
    assert_eq!(parse_endpoint(""), ":8087");
}

#[test]
fn leap_years() {
    assert!(is_leap_year(2000));
    assert!(is_leap_year(2024));
    assert!(!is_leap_year(1900));
    assert!(!is_leap_year(2023));
    assert!(!is_leap_year(2100));
}

#[test]
fn dates_from_day_counts() {
    assert_eq!(days_since_epoch_to_date(0), (1970, 1, 1));
    assert_eq!(days_since_epoch_to_date(31), (1970, 2, 1));
    assert_eq!(days_since_epoch_to_date(365), (1971, 1, 1));
    assert_eq!(days_since_epoch_to_date(789), (1972, 2, 29));
    assert_eq!(days_since_epoch_to_date(19723), (2024, 1, 1));
    assert_eq!(days_since_epoch_to_date(19782), (2024, 2, 29));
    assert_eq!(days_since_epoch_to_date(20088), (2024, 12, 31));
}

#[test]
fn timestamps_as_text() {
    assert_eq!(format_timestamp(0), "1970-01-01 00:00:00 UTC");
    assert_eq!(format_timestamp(1231006505), "2009-01-03 18:15:05 UTC");
    assert_eq!(format_timestamp(1709164800), "2024-02-29 00:00:00 UTC");
    assert_eq!(format_timestamp(u32::MAX), "2106-02-07 06:28:15 UTC");
}
