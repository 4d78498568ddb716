//! Failure records: what a cycle that failed leaves behind in the lease
//! stores, for diagnosis and for the health gate.

use crate::identity::ExecutionId;
use crate::lease::queue_prefix;
use crate::text::concat2;
use vstd::prelude::*;
use vstd::string::*;

verus! {

/// How long a failure record is kept, in seconds.
pub const FAILURE_RETENTION_SECONDS: i64 = 3600;

/// The record of one failed cycle.
#[derive(Debug, Clone, PartialEq, Eq)]
pub struct FailureRecord {
    /// The partition key: `queue#`, the queue's name, `#`, the region.
    pub partition_key: String,
    /// The sort key: `error#` and the cycle's identifier.
    pub sort_key: String,
    /// The region whose cycle failed.
    pub region: String,
    /// The second of the cycle.
    pub timestamp: i64,
    /// What went wrong.
    pub error: String,
    /// The second after which the record may be dropped.
    pub expires_at: i64,
}

/// The characters of `error#`: the prefix of every failure record's sort
/// key.
pub open spec fn error_prefix() -> Seq<char> {
    seq!['e', 'r', 'r', 'o', 'r', '#']
}

/// The partition key under which the failures of `region` on `queue_name`
/// are kept.
pub open spec fn failure_key_of(queue_name: Seq<char>, region: Seq<char>) -> Seq<char> {
    queue_prefix() + queue_name + seq!['#'] + region
}

/// The partition key under which the failures of `region` on `queue_name`
/// are kept.
pub fn failure_partition_key(queue_name: &str, region: &str) -> (key: String)
    ensures
        key@ == failure_key_of(queue_name@, region@),
{
    proof {
        reveal_strlit("queue#");
        assert("queue#"@ =~= queue_prefix());
        reveal_strlit("#");
        assert("#"@ =~= seq!['#']);
    }
    let mut key = concat2("queue#", queue_name);
    key.append("#");
    key.append(region);
    key
}

/// The prefix of the sort key of every failure record.
pub fn failure_sort_prefix() -> (key: String)
    ensures
        key@ == error_prefix(),
{
    proof {
        reveal_strlit("error#");
        assert("error#"@ =~= error_prefix());
    }
    String::from_str("error#")
}

/// The record of the failure `error` of the cycle `id` of `region` on
/// `queue_name`.
pub fn failure_record(id: &ExecutionId, queue_name: &str, region: &str, error: &str) -> (r:
    FailureRecord)
    ensures
        r.partition_key@ == failure_key_of(queue_name@, region@),
        r.sort_key@ == error_prefix() + id.text(),
        r.region@ == region@,
        r.timestamp == id.seconds(),
        r.error@ == error@,
        r.expires_at == id.seconds() + FAILURE_RETENTION_SECONDS,
{
    let now = id.timestamp_seconds();
    let mut sort_key = failure_sort_prefix();
    let text = id.to_base62();
    sort_key.append(text.as_str());
    FailureRecord {
        partition_key: failure_partition_key(queue_name, region),
        sort_key,
        region: String::from_str(region),
        timestamp: now,
        error: String::from_str(error),
        expires_at: now + FAILURE_RETENTION_SECONDS,
    }
}

} // verus!
