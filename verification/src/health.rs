//! The health gate: whether this region is fit to process at all.
//!
//! Two policies. By the external signal a region is healthy unless an alarm
//! is active. By recent failures a region is unhealthy when the newest
//! failure records of this queue and region have reached a threshold in
//! number and all of them fall within the lookback window; anything short
//! of that evidence leaves the region healthy.

use crate::failure::{
    error_prefix, failure_key_of, failure_partition_key, failure_sort_prefix,
};
use crate::identity::ExecutionId;
use crate::text::{parse_u64, parse_u64_spec};
use vstd::prelude::*;

verus! {

/// How far back failures count, in seconds, unless configured otherwise.
pub const LOOKBACK_SECONDS: u32 = 300;

/// How many recent failures make a region unhealthy, unless configured
/// otherwise.
pub const MAX_FAILURES: i32 = 5;

/// The two numbers of the recent-failure policy.
#[derive(Debug, Clone, Copy, PartialEq, Eq)]
pub struct HealthConfig {
    /// How far back failures count, in seconds.
    pub lookback_seconds: u32,
    /// How many recent failures make a region unhealthy: also the most
    /// records that the query asks for.
    pub failure_threshold: i32,
}

impl HealthConfig {
    /// The numbers used where nothing is configured.
    pub fn standard() -> (c: Self)
        ensures
            c.lookback_seconds == LOOKBACK_SECONDS,
            c.failure_threshold == MAX_FAILURES,
    {
        HealthConfig { lookback_seconds: LOOKBACK_SECONDS, failure_threshold: MAX_FAILURES }
    }
}

/// The query for the newest failure records of one queue and region: the
/// records under `partition_key` whose sort key begins with `sort_prefix`,
/// newest first, `limit` at most.
#[derive(Debug, Clone, PartialEq, Eq)]
pub struct FailureLookup {
    /// The partition key: `queue#`, the queue's name, `#`, the region.
    pub partition_key: String,
    /// What the sort keys begin with: `error#`.
    pub sort_prefix: String,
    /// The most records asked for: the threshold.
    pub limit: i32,
}

/// The query by which `region` asks a lease store for its newest failures
/// on `queue_name`.
pub fn failure_lookup(queue_name: &str, region: &str, config: &HealthConfig) -> (q: FailureLookup)
    ensures
        q.partition_key@ == failure_key_of(queue_name@, region@),
        q.sort_prefix@ == error_prefix(),
        q.limit == config.failure_threshold,
{
    FailureLookup {
        partition_key: failure_partition_key(queue_name, region),
        sort_prefix: failure_sort_prefix(),
        limit: config.failure_threshold,
    }
}

/// What a lease store answered to the query for the newest failure
/// records.
#[derive(Debug, Clone, PartialEq, Eq)]
pub struct FailureQuery {
    /// For each record returned, the text of its timestamp, or `None` where
    /// the record has none that is a number; `None` for the whole where the
    /// answer carries no list of records.
    pub timestamps: Option<Vec<Option<String>>>,
    /// The number of records that the store says it counted.
    pub count: i32,
}

/// Whether a record with this timestamp text is recent at the second
/// `now`: the text is a number, and it is not older than the lookback.
pub open spec fn is_recent(timestamp: Option<Seq<char>>, now: int, lookback_seconds: int) -> bool {
    match timestamp {
        Some(text) => match parse_u64_spec(text) {
            Some(t) => t >= now - lookback_seconds,
            None => false,
        },
        None => false,
    }
}

/// The text of the timestamp of record `i`, if it has one.
pub open spec fn timestamp_of(timestamps: Seq<Option<String>>, i: int) -> Option<Seq<char>> {
    match timestamps[i] {
        Some(s) => Some(s@),
        None => None,
    }
}

/// Whether the answer carries a list of records and every one of them is
/// recent.
pub open spec fn all_recent(query: FailureQuery, now: int, lookback_seconds: int) -> bool {
    match query.timestamps {
        Some(list) => forall|i: int|
            0 <= i < list@.len() ==> is_recent(
                #[trigger] timestamp_of(list@, i),
                now,
                lookback_seconds,
            ),
        None => false,
    }
}

/// Whether the answer shows the region to be unhealthy: the count has
/// reached the threshold, and all records returned are recent.
pub open spec fn shows_unhealthy(query: FailureQuery, now: int, config: HealthConfig) -> bool {
    all_recent(query, now, config.lookback_seconds as int) && query.count
        >= config.failure_threshold
}

/// Whether a record whose timestamp reads `timestamp` is recent in the
/// cycle `id`.
pub fn record_is_recent(timestamp: &Option<String>, id: &ExecutionId, lookback_seconds: u32) -> (r:
    bool)
    ensures
        r == is_recent(
            match *timestamp {
                Some(s) => Some(s@),
                None => None,
            },
            id.seconds(),
            lookback_seconds as int,
        ),
{
    let now = id.timestamp_seconds();
    match timestamp {
        Some(text) => match parse_u64(text.as_str()) {
            Some(t) => {
                let oldest: i64 = now - lookback_seconds as i64;
                oldest < 0 || t >= oldest as u64
            },
            None => false,
        },
        None => false,
    }
}

/// The recent-failure policy: the region is healthy unless `query`, the
/// answer of a lease store in the cycle `id`, shows it to be unhealthy.
pub fn healthy_by_failures(query: &FailureQuery, id: &ExecutionId, config: &HealthConfig) -> (healthy:
    bool)
    ensures
        healthy == !shows_unhealthy(*query, id.seconds(), *config),
{
    let recent = match &query.timestamps {
        None => false,
        Some(list) => {
            let mut all = true;
            let mut i: usize = 0;
            while i < list.len()
                invariant
                    i <= list.len(),
                    all == (forall|k: int|
                        0 <= k < i ==> is_recent(
                            #[trigger] timestamp_of(list@, k),
                            id.seconds(),
                            config.lookback_seconds as int,
                        )),
                decreases list.len() - i,
            {
                let r = record_is_recent(&list[i], id, config.lookback_seconds);
                assert(r == is_recent(
                    timestamp_of(list@, i as int),
                    id.seconds(),
                    config.lookback_seconds as int,
                ));
                all = all && r;
                i = i + 1;
            }
            all
        },
    };
    !(recent && query.count >= config.failure_threshold)
}

/// The external-signal policy: the region is healthy unless an alarm is
/// active.
pub fn healthy_by_alarms(active_alarms: usize) -> (healthy: bool)
    ensures
        healthy == (active_alarms == 0),
{
    active_alarms == 0
}

/// An answer without evidence leaves the region healthy: no list of
/// records, a record without a readable timestamp, a record older than the
/// lookback, or a count below the threshold.
pub proof fn lemma_inconclusive_is_healthy(query: FailureQuery, now: int, config: HealthConfig)
    requires
        query.timestamps is None || query.count < config.failure_threshold || (exists|i: int|
            0 <= i < query.timestamps->Some_0@.len() && !is_recent(
                #[trigger] timestamp_of(query.timestamps->Some_0@, i),
                now,
                config.lookback_seconds as int,
            )),
    ensures
        !shows_unhealthy(query, now, config),
{
}

} // verus!
