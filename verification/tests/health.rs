use queue_processor::health::{
    failure_lookup, healthy_by_alarms, healthy_by_failures, record_is_recent, FailureQuery,
    HealthConfig, LOOKBACK_SECONDS, MAX_FAILURES,
};
use queue_processor::identity::ExecutionId;

const NOW: i64 = 1_700_000_000;

fn id_at(seconds: i64) -> ExecutionId {
    let raw = (seconds - 1_400_000_000) as u32;
    let mut bytes = [3u8; 20];
    bytes[..4].copy_from_slice(&raw.to_be_bytes());
    ExecutionId::from_bytes(bytes)
}

fn query(timestamps: &[i64], count: i32) -> FailureQuery {
    FailureQuery {
        timestamps: Some(timestamps.iter().map(|t| Some(t.to_string())).collect()),
        count,
    }
}

fn healthy(q: &FailureQuery) -> bool {
    healthy_by_failures(q, &id_at(NOW), &HealthConfig::standard())
}

#[test]
fn standard_health_numbers() {
    assert_eq!(LOOKBACK_SECONDS, 300);
    assert_eq!(MAX_FAILURES, 5);
    assert_eq!(
        HealthConfig::standard(),
        HealthConfig { lookback_seconds: 300, failure_threshold: 5 }
    );
}

#[test]
fn five_recent_failures_are_unhealthy() {
    let recent = [NOW - 1, NOW - 50, NOW - 100, NOW - 200, NOW - 300];
    assert!(!healthy(&query(&recent, 5)));
    assert!(!healthy(&query(&recent, 6)));
    assert!(!healthy(&query(&[NOW + 10, NOW, NOW, NOW, NOW], 5)));
}

#[test]
fn fewer_failures_are_healthy() {
    let recent = [NOW - 1, NOW - 2, NOW - 3, NOW - 4];
    assert!(healthy(&query(&recent, 4)));
    assert!(healthy(&query(&[], 0)));
    assert!(healthy(&query(&[NOW - 1, NOW - 2, NOW - 3, NOW - 4, NOW - 5], 4)));
}

#[test]
fn an_old_failure_makes_the_count_inconclusive() {
    let one_old = [NOW - 1, NOW - 2, NOW - 3, NOW - 4, NOW - 301];
    assert!(healthy(&query(&one_old, 5)));
    assert!(healthy(&query(&one_old, 50)));
}

#[test]
fn unreadable_records_are_inconclusive() {
    let mut q = query(&[NOW, NOW, NOW, NOW, NOW], 5);
    assert!(!healthy(&q));
    q.timestamps.as_mut().unwrap()[2] = None;
    assert!(healthy(&q));
    q.timestamps.as_mut().unwrap()[2] = Some("soon".to_string());
    assert!(healthy(&q));
    q.timestamps.as_mut().unwrap()[2] = Some("-5".to_string());
    assert!(healthy(&q));
    q.timestamps.as_mut().unwrap()[2] = Some(NOW.to_string());
    assert!(!healthy(&q));
    assert!(healthy(&FailureQuery { timestamps: None, count: 5 }));
    assert!(healthy(&FailureQuery { timestamps: None, count: 0 }));
}

#[test]
fn a_count_without_records_is_taken_at_its_word() {
    // the store counted five and returned no record to contradict it
    assert!(!healthy(&query(&[], 5)));
}

#[test]
fn configured_health_numbers_are_used() {
    let strict = HealthConfig { lookback_seconds: 10, failure_threshold: 2 };
    let id = id_at(NOW);
    assert!(!healthy_by_failures(&query(&[NOW - 10, NOW - 1], 2), &id, &strict));
    assert!(healthy_by_failures(&query(&[NOW - 11, NOW - 1], 2), &id, &strict));
    assert!(healthy_by_failures(&query(&[NOW - 1], 1), &id, &strict));
}

#[test]
fn recency_of_one_record() {
    let id = id_at(NOW);
    assert!(record_is_recent(&Some((NOW - 300).to_string()), &id, 300));
    assert!(!record_is_recent(&Some((NOW - 301).to_string()), &id, 300));
    assert!(record_is_recent(&Some(u64::MAX.to_string()), &id, 300));
    assert!(!record_is_recent(&Some("0".to_string()), &id, 300));
    assert!(!record_is_recent(&Some("".to_string()), &id, 300));
    assert!(!record_is_recent(&None, &id, 300));
    // a lookback that reaches before the epoch admits every time
    assert!(record_is_recent(&Some("0".to_string()), &id_at(1_400_000_000), u32::MAX));
}

#[test]
fn alarms_decide_the_external_signal() {
    assert!(healthy_by_alarms(0));
    assert!(!healthy_by_alarms(1));
    assert!(!healthy_by_alarms(7));
}

#[test]
fn lookup_asks_for_the_newest_failures_of_the_region() {
    let q = failure_lookup("solo", "us-east-1", &HealthConfig::standard());
    assert_eq!(q.partition_key, "queue#solo#us-east-1");
    assert_eq!(q.sort_prefix, "error#");
    assert_eq!(q.limit, 5);
    let strict = HealthConfig { lookback_seconds: 10, failure_threshold: 2 };
    assert_eq!(failure_lookup("q", "r", &strict).limit, 2);
}
