//! The lease that names the one region allowed to process a queue.
//!
//! A lease lives in a lease store, one per queue. It is written by a
//! conditional put that the store accepts when it holds no lease yet, or
//! when the lease it holds ran out more than a grace period ago. A lease is
//! never released: it runs out.

use crate::identity::ExecutionId;
use crate::text::{concat2, str_eq};
use vstd::prelude::*;
use vstd::string::*;

verus! {

/// How long a lease lasts, in seconds, unless configured otherwise.
pub const LEASE_SECONDS: u32 = 90;

/// How long a lease must have run out before another region may take it,
/// in seconds, unless configured otherwise.
pub const GRACE_SECONDS: u32 = 30;

/// The two periods of the lease protocol, in seconds.
#[derive(Debug, Clone, Copy, PartialEq, Eq)]
pub struct LeaseConfig {
    /// How long a lease lasts.
    pub lease_seconds: u32,
    /// How long a lease must have run out before it may be taken.
    pub grace_seconds: u32,
}

impl LeaseConfig {
    /// The periods used where nothing is configured.
    pub fn standard() -> (c: Self)
        ensures
            c.lease_seconds == LEASE_SECONDS,
            c.grace_seconds == GRACE_SECONDS,
    {
        LeaseConfig { lease_seconds: LEASE_SECONDS, grace_seconds: GRACE_SECONDS }
    }
}

/// A lease as a store holds it.
#[derive(Debug, Clone, PartialEq, Eq)]
pub struct Lease {
    /// The region that holds the lease.
    pub holder_region: String,
    /// The second at which the lease runs out.
    pub expires_at: i64,
}

/// A conditional put of a lease: what is written, and the second that the
/// lease in the store must have run out before for the put to be accepted.
#[derive(Debug, Clone, PartialEq, Eq)]
pub struct LeaseWrite {
    /// The partition key: `queue#` and the queue's name.
    pub partition_key: String,
    /// The sort key: `lock`.
    pub sort_key: String,
    /// The region that asks for the lease.
    pub holder_region: String,
    /// The second at which the new lease runs out.
    pub expires_at: i64,
    /// A lease in the store must run out before this second.
    pub stale_before: i64,
}

/// The characters of `queue#`.
pub open spec fn queue_prefix() -> Seq<char> {
    seq!['q', 'u', 'e', 'u', 'e', '#']
}

/// The characters of `lock`.
pub open spec fn lock_key() -> Seq<char> {
    seq!['l', 'o', 'c', 'k']
}

/// Whether a store that holds `existing` accepts a put that asks for the
/// lease to have run out before `stale_before`.
pub open spec fn put_accepted(existing: Option<Lease>, stale_before: int) -> bool {
    match existing {
        None => true,
        Some(lease) => lease.expires_at < stale_before,
    }
}

/// The partition key of the lease of `queue_name`.
pub fn lease_partition_key(queue_name: &str) -> (key: String)
    ensures
        key@ == queue_prefix() + queue_name@,
{
    proof {
        reveal_strlit("queue#");
        assert("queue#"@ =~= queue_prefix());
    }
    concat2("queue#", queue_name)
}

/// The sort key of a lease.
pub fn lease_sort_key() -> (key: String)
    ensures
        key@ == lock_key(),
{
    proof {
        reveal_strlit("lock");
        assert("lock"@ =~= lock_key());
    }
    String::from_str("lock")
}

/// The put by which `region` asks for the lease of `queue_name` in the
/// cycle `id`: the lease would run out `lease_seconds` after the cycle's
/// second, and the lease in the store must have run out more than
/// `grace_seconds` before it.
pub fn lease_write(id: &ExecutionId, queue_name: &str, region: &str, config: &LeaseConfig) -> (w:
    LeaseWrite)
    ensures
        w.partition_key@ == queue_prefix() + queue_name@,
        w.sort_key@ == lock_key(),
        w.holder_region@ == region@,
        w.expires_at == id.seconds() + config.lease_seconds,
        w.stale_before == id.seconds() - config.grace_seconds,
{
    let now = id.timestamp_seconds();
    LeaseWrite {
        partition_key: lease_partition_key(queue_name),
        sort_key: lease_sort_key(),
        holder_region: String::from_str(region),
        expires_at: now + config.lease_seconds as i64,
        stale_before: now - config.grace_seconds as i64,
    }
}

/// Whether `region` holds the lease, going by the holder that the store
/// names: `None` where the store has no lease, or the lease names no
/// holder in text.
pub fn confirms_holder(holder: &Option<String>, region: &str) -> (held: bool)
    ensures
        held == (*holder matches Some(h) && h@ == region@),
{
    match holder {
        Some(h) => str_eq(h.as_str(), region),
        None => false,
    }
}

/// One lease store, as far as one queue's lease goes.
pub struct LeaseReplica {
    /// The lease that the store holds, if any.
    pub lease: Option<Lease>,
}

impl LeaseReplica {
    /// A store that holds no lease.
    pub fn new() -> (r: Self)
        ensures
            r.lease is None,
    {
        LeaseReplica { lease: None }
    }

    /// The conditional put: accepted when the store holds no lease, or one
    /// that ran out before `write.stale_before`. An accepted put replaces
    /// the lease; a rejected one changes nothing.
    pub fn conditional_put(&mut self, write: &LeaseWrite) -> (accepted: bool)
        ensures
            accepted == put_accepted(old(self).lease, write.stale_before as int),
            accepted ==> (final(self).lease matches Some(l) && l.holder_region@
                == write.holder_region@ && l.expires_at == write.expires_at),
            !accepted ==> final(self).lease == old(self).lease,
    {
        let free = match &self.lease {
            None => true,
            Some(l) => l.expires_at < write.stale_before,
        };
        if free {
            self.lease = Some(
                Lease { holder_region: write.holder_region.clone(), expires_at: write.expires_at },
            );
        }
        free
    }

    /// The second at which the store's lease runs out, if it holds one.
    pub open spec fn expiry(self) -> Option<int> {
        match self.lease {
            Some(l) => Some(l.expires_at as int),
            None => None,
        }
    }

    /// The attempt of `region` to take the lease of `queue_name` in the
    /// cycle `id`: the put of `lease_write`, put to this store. It is
    /// granted when the store holds no lease, or one that ran out more than
    /// `grace_seconds` before the cycle's second; then the lease is the
    /// region's and runs out `lease_seconds` after that second.
    pub fn attempt(
        &mut self,
        id: &ExecutionId,
        queue_name: &str,
        region: &str,
        config: &LeaseConfig,
    ) -> (is_granted: bool)
        ensures
            is_granted == granted_on(
                old(self).expiry(),
                id.seconds(),
                config.grace_seconds as int,
            ),
            is_granted ==> (final(self).lease matches Some(l) && l.holder_region@ == region@
                && l.expires_at == id.seconds() + config.lease_seconds),
            !is_granted ==> final(self).lease == old(self).lease,
    {
        let write = lease_write(id, queue_name, region, config);
        self.conditional_put(&write)
    }

    /// The region that the store names as holder, if it holds a lease.
    pub fn holder(&self) -> (h: Option<String>)
        ensures
            match self.lease {
                Some(l) => h matches Some(s) && s@ == l.holder_region@,
                None => h is None,
            },
    {
        match &self.lease {
            Some(l) => Some(l.holder_region.clone()),
            None => None,
        }
    }
}

/// A lease that ran out more than the grace period ago is taken over: the
/// store accepts the put of a cycle whose second lies more than
/// `grace_seconds` after the second at which the lease ran out.
pub proof fn lemma_stale_lease_is_taken_over(existing: Lease, now: int, grace_seconds: int)
    requires
        existing.expires_at < now - grace_seconds,
    ensures
        put_accepted(Some(existing), now - grace_seconds),
{
}

/// The second at which the store's lease runs out once the first `k` of
/// `attempts` have been put to it in order, the store holding at first a
/// lease that runs out at `start`, or none. An attempt is the second of the
/// cycle that makes it.
pub open spec fn expiry_after(
    start: Option<int>,
    attempts: Seq<int>,
    lease_seconds: int,
    grace_seconds: int,
    k: int,
) -> Option<int>
    decreases k,
{
    if k <= 0 {
        start
    } else {
        let before = expiry_after(start, attempts, lease_seconds, grace_seconds, k - 1);
        if granted_on(before, attempts[k - 1], grace_seconds) {
            Some(attempts[k - 1] + lease_seconds)
        } else {
            before
        }
    }
}

/// Whether a store whose lease runs out at `expiry` grants `attempt`.
pub open spec fn granted_on(expiry: Option<int>, attempt: int, grace_seconds: int) -> bool {
    match expiry {
        None => true,
        Some(e) => e < attempt - grace_seconds,
    }
}

/// Whether attempt `k` is granted when `attempts` are put to the store in
/// order.
pub open spec fn granted(
    start: Option<int>,
    attempts: Seq<int>,
    lease_seconds: int,
    grace_seconds: int,
    k: int,
) -> bool {
    granted_on(
        expiry_after(start, attempts, lease_seconds, grace_seconds, k),
        attempts[k],
        grace_seconds,
    )
}

proof fn lemma_expiry_grows(
    start: Option<int>,
    attempts: Seq<int>,
    lease_seconds: int,
    grace_seconds: int,
    i: int,
    k: int,
)
    requires
        0 <= lease_seconds,
        0 <= grace_seconds,
        0 <= i < k <= attempts.len(),
        granted(start, attempts, lease_seconds, grace_seconds, i),
    ensures
        (expiry_after(start, attempts, lease_seconds, grace_seconds, k) matches Some(e) && e
            >= attempts[i] + lease_seconds),
    decreases k,
{
    if k > i + 1 {
        lemma_expiry_grows(start, attempts, lease_seconds, grace_seconds, i, k - 1);
    }
}

/// Mutual exclusion: however many attempts are put to one store, and in
/// whatever order, two that are granted lie more than a lease and a grace
/// period apart. So within any stretch of `lease_seconds + grace_seconds`
/// seconds at most one attempt acquires the lease.
pub proof fn lemma_grants_are_apart(
    start: Option<int>,
    attempts: Seq<int>,
    lease_seconds: int,
    grace_seconds: int,
    i: int,
    j: int,
)
    requires
        0 <= lease_seconds,
        0 <= grace_seconds,
        0 <= i < j < attempts.len(),
        granted(start, attempts, lease_seconds, grace_seconds, i),
        granted(start, attempts, lease_seconds, grace_seconds, j),
    ensures
        attempts[j] > attempts[i] + lease_seconds + grace_seconds,
{
    lemma_expiry_grows(start, attempts, lease_seconds, grace_seconds, i, j);
}

} // verus!
