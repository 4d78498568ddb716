use queue_processor::config::{number_or, split_list, ConfigError, RawSettings, Settings};
use queue_processor::coordinator::{CycleConfig, HealthPolicy};
use queue_processor::health::HealthConfig;
use queue_processor::lease::LeaseConfig;

fn raw() -> RawSettings {
    RawSettings {
        region: "us-east-1".to_string(),
        queue_table: "unranked-solo".to_string(),
        queue_index: "queue-index".to_string(),
        match_table: "matches".to_string(),
        lock_table: "locks".to_string(),
        lock_regions: "us-east-1,us-west-2,eu-west-1".to_string(),
        alarm_names: None,
        lease_seconds: None,
        grace_seconds: None,
        lookback_seconds: None,
        failure_threshold: None,
        concurrency: None,
    }
}

#[test]
fn lists_are_split_at_commas() {
    assert_eq!(split_list("a,b,c"), vec!["a", "b", "c"]);
    assert_eq!(split_list("us-east-1"), vec!["us-east-1"]);
    assert_eq!(split_list(""), vec![""]);
    assert_eq!(split_list(","), vec!["", ""]);
    assert_eq!(split_list("a,"), vec!["a", ""]);
    assert_eq!(split_list(",a,,b"), vec!["", "a", "", "b"]);
    assert_eq!(split_list("é,日本"), vec!["é", "日本"]);
    for text in ["", ",", "a", "a,b", ",,x,", "x y, z"] {
        let expected: Vec<String> = text.split(",").map(str::to_string).collect();
        assert_eq!(split_list(text), expected);
    }
}

#[test]
fn unset_numbers_take_their_standard_value() {
    let s = Settings::from_raw(&raw()).unwrap();
    assert_eq!(s.region, "us-east-1");
    assert_eq!(s.queue_table, "unranked-solo");
    assert_eq!(s.queue_index, "queue-index");
    assert_eq!(s.match_table, "matches");
    assert_eq!(s.lock_table, "locks");
    assert_eq!(s.lock_regions, vec!["us-east-1", "us-west-2", "eu-west-1"]);
    assert_eq!(s.alarms, None);
    assert_eq!(s.lease, LeaseConfig { lease_seconds: 90, grace_seconds: 30 });
    assert_eq!(s.health, HealthConfig { lookback_seconds: 300, failure_threshold: 5 });
    assert_eq!(s.concurrency, 4);
    assert_eq!(
        s.cycle_config(),
        CycleConfig { replicas: 3, policy: HealthPolicy::RecentFailures }
    );
}

#[test]
fn set_numbers_and_alarms_are_read() {
    let mut r = raw();
    r.alarm_names = Some("high-errors,throttled".to_string());
    r.lease_seconds = Some("120".to_string());
    r.grace_seconds = Some("0".to_string());
    r.lookback_seconds = Some("+600".to_string());
    r.failure_threshold = Some("3".to_string());
    r.concurrency = Some("2".to_string());
    r.lock_regions = "eu-west-1".to_string();
    let s = Settings::from_raw(&r).unwrap();
    assert_eq!(s.alarms, Some(vec!["high-errors".to_string(), "throttled".to_string()]));
    assert_eq!(s.lease, LeaseConfig { lease_seconds: 120, grace_seconds: 0 });
    assert_eq!(s.health, HealthConfig { lookback_seconds: 600, failure_threshold: 3 });
    assert_eq!(s.concurrency, 2);
    assert_eq!(
        s.cycle_config(),
        CycleConfig { replicas: 1, policy: HealthPolicy::ExternalSignal }
    );
}

#[test]
fn unusable_numbers_are_refused() {
    let mut r = raw();
    r.lease_seconds = Some("ninety".to_string());
    assert_eq!(Settings::from_raw(&r), Err(ConfigError::LeaseSeconds));
    r.lease_seconds = Some("4294967296".to_string());
    assert_eq!(Settings::from_raw(&r), Err(ConfigError::LeaseSeconds));
    r.lease_seconds = Some("4294967295".to_string());
    r.grace_seconds = Some("-1".to_string());
    assert_eq!(Settings::from_raw(&r), Err(ConfigError::GraceSeconds));
    r.grace_seconds = None;
    r.lookback_seconds = Some("".to_string());
    assert_eq!(Settings::from_raw(&r), Err(ConfigError::LookbackSeconds));
    r.lookback_seconds = None;
    r.failure_threshold = Some("0".to_string());
    assert_eq!(Settings::from_raw(&r), Err(ConfigError::FailureThreshold));
    r.failure_threshold = Some("2147483648".to_string());
    assert_eq!(Settings::from_raw(&r), Err(ConfigError::FailureThreshold));
    r.failure_threshold = Some("2147483647".to_string());
    r.concurrency = Some("0".to_string());
    assert_eq!(Settings::from_raw(&r), Err(ConfigError::Concurrency));
    r.concurrency = Some("1".to_string());
    let s = Settings::from_raw(&r).unwrap();
    assert_eq!(s.lease.lease_seconds, u32::MAX);
    assert_eq!(s.health.failure_threshold, i32::MAX);
    assert_eq!(s.concurrency, 1);
    // the first unusable number is the one reported
    r.concurrency = Some("x".to_string());
    r.grace_seconds = Some("x".to_string());
    assert_eq!(Settings::from_raw(&r), Err(ConfigError::GraceSeconds));
}

#[test]
fn optional_numbers() {
    assert_eq!(number_or(&None, 7, 1, 5), Some(7));
    assert_eq!(number_or(&Some("3".to_string()), 7, 1, 5), Some(3));
    assert_eq!(number_or(&Some("1".to_string()), 7, 1, 5), Some(1));
    assert_eq!(number_or(&Some("5".to_string()), 7, 1, 5), Some(5));
    assert_eq!(number_or(&Some("0".to_string()), 7, 1, 5), None);
    assert_eq!(number_or(&Some("6".to_string()), 7, 1, 5), None);
    assert_eq!(number_or(&Some("three".to_string()), 7, 1, 5), None);
}
