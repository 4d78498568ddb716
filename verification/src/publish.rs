//! Match records, and the verdict on a round of publications.

use crate::entry::{ids_of, match_id_of, MatchGroup};
use crate::identity::ExecutionId;
use vstd::prelude::*;
use vstd::string::*;

verus! {

/// How long a match record is kept, in seconds.
pub const MATCH_RETENTION_SECONDS: i64 = 3600;

/// How many publications may be under way at once, unless configured
/// otherwise.
pub const CONCURRENT_REQUESTS: usize = 4;

/// The record of one match, as it is written to the match store. The
/// players themselves are written beside it by whoever holds them in the
/// store's format.
#[derive(Debug, Clone, PartialEq, Eq)]
pub struct MatchRecord {
    /// The identifier of the match.
    pub match_id: String,
    /// The session: the identifier of the cycle that made the match.
    pub session_id: String,
    /// The queue the match was made in.
    pub queue_name: String,
    /// The second of the cycle.
    pub created_at: i64,
    /// The second after which the record may be dropped.
    pub expires_at: i64,
}

/// The record of the match `group`, made in the cycle `id` on `queue_name`.
pub fn match_record(id: &ExecutionId, queue_name: &str, group: &MatchGroup) -> (r: MatchRecord)
    ensures
        r.match_id@ == match_id_of(ids_of(group.players@)),
        r.session_id@ == id.text(),
        r.queue_name@ == queue_name@,
        r.created_at == id.seconds(),
        r.expires_at == id.seconds() + MATCH_RETENTION_SECONDS,
{
    let now = id.timestamp_seconds();
    MatchRecord {
        match_id: group.id(),
        session_id: id.to_base62(),
        queue_name: String::from_str(queue_name),
        created_at: now,
        expires_at: now + MATCH_RETENTION_SECONDS,
    }
}

/// How many of `results` are successes.
pub open spec fn successes(results: Seq<bool>) -> nat
    decreases results.len(),
{
    if results.len() == 0 {
        0
    } else {
        successes(results.drop_last()) + if results.last() {
            1nat
        } else {
            0nat
        }
    }
}

/// How many publications succeeded, `results` holding one outcome for each
/// group.
pub fn count_published(results: &Vec<bool>) -> (n: usize)
    ensures
        n == successes(results@),
        n <= results@.len(),
{
    let mut n: usize = 0;
    let mut i: usize = 0;
    while i < results.len()
        invariant
            i <= results.len(),
            n <= i,
            n == successes(results@.take(i as int)),
        decreases results.len() - i,
    {
        assert(results@.take(i + 1).drop_last() =~= results@.take(i as int));
        if results[i] {
            n = n + 1;
        }
        i = i + 1;
    }
    assert(results@.take(results.len() as int) =~= results@);
    n
}

/// A round of publications counts as a success when one publication or
/// more succeeded: the groups that failed stay in the queue for the next
/// cycle.
pub fn round_succeeded(results: &Vec<bool>) -> (ok: bool)
    ensures
        ok == (successes(results@) >= 1),
        ok == (exists|i: int| 0 <= i < results@.len() && results@[i]),
{
    proof {
        lemma_successes_exist(results@);
    }
    count_published(results) >= 1
}

/// There is a success among `results` exactly when their count is not zero.
pub proof fn lemma_successes_exist(results: Seq<bool>)
    ensures
        successes(results) >= 1 <==> exists|i: int| 0 <= i < results.len() && results[i],
    decreases results.len(),
{
    if results.len() > 0 {
        let init = results.drop_last();
        lemma_successes_exist(init);
        if exists|i: int| 0 <= i < results.len() && results[i] {
            let i = choose|i: int| 0 <= i < results.len() && results[i];
            if i < init.len() {
                assert(init[i]);
            }
        }
        if successes(results) >= 1 && !results.last() {
            let i = choose|i: int| 0 <= i < init.len() && init[i];
            assert(results[i]);
        }
    }
}

} // verus!
