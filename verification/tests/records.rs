use queue_processor::entry::{MatchGroup, QueueEntry};
use queue_processor::failure::{
    failure_partition_key, failure_record, failure_sort_prefix, FAILURE_RETENTION_SECONDS,
};
use queue_processor::identity::ExecutionId;
use queue_processor::publish::{
    count_published, match_record, round_succeeded, CONCURRENT_REQUESTS, MATCH_RETENTION_SECONDS,
};

fn documented_id() -> ExecutionId {
    let mut bytes = [0u8; 20];
    bytes[..4].copy_from_slice(&1643290698u32.to_be_bytes());
    bytes[4..].copy_from_slice(&45419194335837378647185401984346151808u128.to_be_bytes());
    ExecutionId::from_bytes(bytes)
}

fn player(user: &str) -> QueueEntry {
    QueueEntry {
        user: user.to_string(),
        ip: "10.0.0.1".to_string(),
        region: "us-east-1".to_string(),
        mmr: 1500,
        join_time: 1,
        queue: "solo".to_string(),
        wait_count: 0,
    }
}

#[test]
fn failure_record_fields() {
    let r = failure_record(&documented_id(), "solo", "us-east-1", "all matches failed to publish");
    assert_eq!(r.partition_key, "queue#solo#us-east-1");
    assert_eq!(r.sort_key, "error#DyU8bFOBPZ4LjvsfN0qywt2LjmK");
    assert_eq!(r.region, "us-east-1");
    assert_eq!(r.timestamp, 3_043_290_698);
    assert_eq!(r.error, "all matches failed to publish");
    assert_eq!(r.expires_at, 3_043_290_698 + 3600);
    assert_eq!(FAILURE_RETENTION_SECONDS, 3600);
    assert_eq!(failure_partition_key("q", "r"), "queue#q#r");
    assert_eq!(failure_partition_key("", ""), "queue##");
    assert_eq!(failure_sort_prefix(), "error#");
}

#[test]
fn match_record_fields() {
    let group = MatchGroup { players: vec![player("zoe"), player("adam")] };
    let r = match_record(&documented_id(), "solo", &group);
    assert_eq!(r.match_id, "adam::zoe");
    assert_eq!(r.session_id, "DyU8bFOBPZ4LjvsfN0qywt2LjmK");
    assert_eq!(r.queue_name, "solo");
    assert_eq!(r.created_at, 3_043_290_698);
    assert_eq!(r.expires_at, 3_043_290_698 + 3600);
    assert_eq!(MATCH_RETENTION_SECONDS, 3600);
    assert_eq!(CONCURRENT_REQUESTS, 4);
}

#[test]
fn same_pair_gives_the_same_match_id() {
    let ab = MatchGroup { players: vec![player("A"), player("B")] };
    let ba = MatchGroup { players: vec![player("B"), player("A")] };
    assert_eq!(ab.id(), ba.id());
    assert_eq!(ab.id(), "A::B");
    let id = documented_id();
    assert_eq!(match_record(&id, "q", &ab).match_id, match_record(&id, "q", &ba).match_id);
}

#[test]
fn one_publication_is_enough() {
    assert!(round_succeeded(&vec![true, false, true]));
    assert!(round_succeeded(&vec![false, false, true]));
    assert!(round_succeeded(&vec![true]));
    assert!(!round_succeeded(&vec![false, false, false]));
    assert!(!round_succeeded(&vec![]));
    assert_eq!(count_published(&vec![true, false, true]), 2);
    assert_eq!(count_published(&vec![false; 4]), 0);
    assert_eq!(count_published(&vec![]), 0);
    assert_eq!(count_published(&vec![true; 5]), 5);
}
