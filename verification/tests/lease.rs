use queue_processor::identity::ExecutionId;
use queue_processor::lease::{
    confirms_holder, lease_partition_key, lease_sort_key, lease_write, Lease, LeaseConfig,
    LeaseReplica, GRACE_SECONDS, LEASE_SECONDS,
};

fn id_at(seconds: i64) -> ExecutionId {
    let raw = (seconds - 1_400_000_000) as u32;
    let mut bytes = [9u8; 20];
    bytes[..4].copy_from_slice(&raw.to_be_bytes());
    ExecutionId::from_bytes(bytes)
}

fn put(store: &mut LeaseReplica, region: &str, now: i64) -> bool {
    let w = lease_write(&id_at(now), "solo", region, &LeaseConfig::standard());
    store.conditional_put(&w)
}

#[test]
fn standard_periods() {
    assert_eq!(LEASE_SECONDS, 90);
    assert_eq!(GRACE_SECONDS, 30);
    assert_eq!(LeaseConfig::standard(), LeaseConfig { lease_seconds: 90, grace_seconds: 30 });
}

#[test]
fn lease_write_carries_keys_and_times() {
    let w = lease_write(&id_at(1_700_000_000), "unranked-solo", "eu-west-1", &LeaseConfig::standard());
    assert_eq!(w.partition_key, "queue#unranked-solo");
    assert_eq!(w.sort_key, "lock");
    assert_eq!(w.holder_region, "eu-west-1");
    assert_eq!(w.expires_at, 1_700_000_090);
    assert_eq!(w.stale_before, 1_699_999_970);
    let custom = LeaseConfig { lease_seconds: 10, grace_seconds: 0 };
    let v = lease_write(&id_at(1_700_000_000), "", "", &custom);
    assert_eq!(v.partition_key, "queue#");
    assert_eq!(v.expires_at, 1_700_000_010);
    assert_eq!(v.stale_before, 1_700_000_000);
    assert_eq!(lease_partition_key("q"), "queue#q");
    assert_eq!(lease_sort_key(), "lock");
}

#[test]
fn lease_write_at_the_ends_of_time() {
    let wide = LeaseConfig { lease_seconds: u32::MAX, grace_seconds: u32::MAX };
    let first = lease_write(&id_at(1_400_000_000), "q", "r", &wide);
    assert_eq!(first.expires_at, 1_400_000_000 + u32::MAX as i64);
    assert_eq!(first.stale_before, 1_400_000_000 - u32::MAX as i64);
    let last = lease_write(&id_at(1_400_000_000 + u32::MAX as i64), "q", "r", &wide);
    assert_eq!(last.expires_at, 1_400_000_000 + 2 * (u32::MAX as i64));
    assert_eq!(last.stale_before, 1_400_000_000);
}

#[test]
fn first_put_is_accepted() {
    let mut store = LeaseReplica::new();
    assert_eq!(store.holder(), None);
    assert!(put(&mut store, "us-east-1", 1_700_000_000));
    assert_eq!(
        store.lease,
        Some(Lease { holder_region: "us-east-1".to_string(), expires_at: 1_700_000_090 })
    );
    assert_eq!(store.holder(), Some("us-east-1".to_string()));
}

#[test]
fn live_lease_is_contested() {
    let mut store = LeaseReplica::new();
    assert!(put(&mut store, "us-east-1", 1_700_000_000));
    let held = store.lease.clone();
    // another region, and the holder itself, while the lease lasts
    assert!(!put(&mut store, "eu-west-1", 1_700_000_001));
    assert!(!put(&mut store, "us-east-1", 1_700_000_060));
    // run out, but not yet by more than the grace period
    assert!(!put(&mut store, "eu-west-1", 1_700_000_090));
    assert!(!put(&mut store, "eu-west-1", 1_700_000_120));
    assert_eq!(store.lease, held);
}

#[test]
fn stale_lease_is_taken_over() {
    let mut store = LeaseReplica::new();
    assert!(put(&mut store, "us-east-1", 1_700_000_000));
    // expires at ..090; a put at ..121 asks for expiry before ..091
    assert!(put(&mut store, "eu-west-1", 1_700_000_121));
    assert_eq!(
        store.lease,
        Some(Lease { holder_region: "eu-west-1".to_string(), expires_at: 1_700_000_211 })
    );
    let mut old = LeaseReplica {
        lease: Some(Lease { holder_region: "gone".to_string(), expires_at: 5 }),
    };
    assert!(put(&mut old, "us-east-1", 1_700_000_000));
    assert_eq!(old.holder(), Some("us-east-1".to_string()));
}

#[test]
fn one_grant_per_lease_window() {
    // attempts of several regions against one store, second by second
    let mut store = LeaseReplica::new();
    let mut grants: Vec<i64> = Vec::new();
    for t in 0..400 {
        let now = 1_700_000_000 + t;
        let region = if t % 3 == 0 { "a" } else if t % 3 == 1 { "b" } else { "c" };
        if put(&mut store, region, now) {
            grants.push(t);
        }
    }
    assert_eq!(grants, vec![0, 121, 242, 363]);
    for pair in grants.windows(2) {
        assert!(pair[1] - pair[0] > 90 + 30);
    }
}

#[test]
fn attempts_follow_the_conditional_put() {
    let config = LeaseConfig { lease_seconds: 60, grace_seconds: 15 };
    let mut store = LeaseReplica::new();
    assert!(store.attempt(&id_at(1_700_000_000), "solo", "a", &config));
    assert_eq!(store.lease, Some(Lease { holder_region: "a".to_string(), expires_at: 1_700_000_060 }));
    assert!(!store.attempt(&id_at(1_700_000_075), "solo", "b", &config));
    assert_eq!(store.holder(), Some("a".to_string()));
    assert!(store.attempt(&id_at(1_700_000_076), "solo", "b", &config));
    assert_eq!(store.lease, Some(Lease { holder_region: "b".to_string(), expires_at: 1_700_000_136 }));
}

#[test]
fn holder_is_confirmed_by_region() {
    assert!(confirms_holder(&Some("us-east-1".to_string()), "us-east-1"));
    assert!(!confirms_holder(&Some("us-east-2".to_string()), "us-east-1"));
    assert!(!confirms_holder(&Some("".to_string()), "us-east-1"));
    assert!(!confirms_holder(&None, "us-east-1"));
    assert!(!confirms_holder(&None, ""));
}
