//! One processing cycle as a state machine.
//!
//! The cycle alternates between decisions, which are made here, and work on
//! the stores, which is done by whoever drives the machine: `step` takes
//! the state and what the last piece of work brought, and gives the next
//! state and the next piece of work.
//!
//! The order is: health gate, lease, queue, matching, publication. A region
//! that is unhealthy, or does not hold the lease, stands down. A cycle that
//! cannot go on writes a failure record, trying the lease stores in order
//! until one takes it, and then reports the failure.

use vstd::prelude::*;
use vstd::string::*;

verus! {

/// How the health of the region is judged.
#[derive(Debug, Clone, Copy, PartialEq, Eq)]
pub enum HealthPolicy {
    /// By an outside alarm: one source, no fallback.
    ExternalSignal,
    /// By the recent failure records in the lease stores, asked in order.
    RecentFailures,
}

/// What the machine needs to know of the deployment.
#[derive(Debug, Clone, Copy, PartialEq, Eq)]
pub struct CycleConfig {
    /// The number of lease stores, which are tried in the order 0, 1, ...
    pub replicas: usize,
    /// How the health of the region is judged.
    pub policy: HealthPolicy,
}

/// Why a cycle could not go on.
#[derive(Debug, Clone, Copy, PartialEq, Eq)]
pub enum Failure {
    /// No source answered the health check.
    HealthUnavailable,
    /// No lease store answered the put of the lease.
    LeaseUnavailable,
    /// The lease store did not answer when asked who holds the lease.
    ConfirmFailed,
    /// The queue could not be read.
    LoadFailed,
    /// The matches could not be made.
    MatchFailed,
    /// Not one match was published.
    PublishFailed,
    /// The driver reported something that the state was not waiting for.
    Unexpected,
}

/// Why a region stood down.
#[derive(Debug, Clone, Copy, PartialEq, Eq)]
pub enum Abandon {
    /// The region is not healthy.
    Unhealthy,
    /// Another region holds the lease.
    LeaseNotHeld,
}

/// How a cycle ended.
#[derive(Debug, Clone, Copy, PartialEq, Eq)]
pub enum Outcome {
    /// The region stood down.
    Abandoned(Abandon),
    /// The queue held fewer than two entries.
    Empty,
    /// One match or more was published.
    Published,
    /// The cycle failed.
    Failed(Failure),
}

/// Where a cycle stands.
#[derive(Debug, Clone, Copy, PartialEq, Eq)]
pub enum State {
    /// Nothing has been done yet.
    Start,
    /// Waiting for the health source; with the recent-failure policy, the
    /// lease store `replica`.
    HealthCheck { replica: usize },
    /// Waiting for the lease store `replica` to answer the put.
    LeaseAcquire { replica: usize },
    /// Waiting for the lease store `replica` to name the holder.
    LeaseConfirm { replica: usize },
    /// Waiting for the queue; `replica` is the store that holds our lease.
    Load { replica: usize },
    /// Waiting for the matches.
    Match { replica: usize },
    /// Waiting for the publications of `groups` matches.
    Publish { replica: usize, groups: usize },
    /// Waiting for the lease store `replica` to take the failure record.
    Record { replica: usize, cause: Failure },
    /// The cycle is over.
    Finished(Outcome),
}

/// What the health source answered.
#[derive(Debug, Clone, Copy, PartialEq, Eq)]
pub enum HealthAnswer {
    /// The region is fit to process.
    Healthy,
    /// The region is degraded.
    Unhealthy,
    /// The source could not be reached.
    Unreachable,
}

/// What a lease store answered to the put of the lease.
#[derive(Debug, Clone, Copy, PartialEq, Eq)]
pub enum WriteAnswer {
    /// The lease is ours.
    Granted,
    /// The store holds a lease that has not run out.
    Contested,
    /// The store could not be reached.
    Unreachable,
}

/// What a lease store answered when asked for the holder.
#[derive(Debug, Clone, Copy, PartialEq, Eq)]
pub enum ReadAnswer {
    /// This region holds the lease.
    Held,
    /// It does not.
    NotHeld,
    /// The store could not be reached.
    Unreachable,
}

/// What the last piece of work brought.
#[derive(Debug, Clone, Copy, PartialEq, Eq)]
pub enum Event {
    /// The trigger fired.
    Begin,
    /// The health source answered.
    Health(HealthAnswer),
    /// A lease store answered the put.
    LeaseWrite(WriteAnswer),
    /// A lease store answered the question for the holder.
    LeaseRead(ReadAnswer),
    /// The queue was read and holds `entries` entries.
    Loaded { entries: usize },
    /// The queue could not be read.
    LoadFailed,
    /// The matching made `groups` groups.
    Matched { groups: usize },
    /// The matching failed.
    MatchFailed,
    /// All publications are over, and `succeeded` of them succeeded.
    Published { succeeded: usize },
    /// A lease store took the failure record, or did not.
    Recorded(bool),
}

/// The next piece of work.
#[derive(Debug, Clone, Copy, PartialEq, Eq)]
pub enum Action {
    /// Ask the alarm source whether an alarm is active.
    CheckAlarms,
    /// Ask the lease store `replica` for the newest failure records.
    QueryFailures { replica: usize },
    /// Put the lease to the lease store `replica`.
    AcquireLease { replica: usize },
    /// Ask the lease store `replica` who holds the lease.
    ConfirmLease { replica: usize },
    /// Read the queue.
    LoadQueue,
    /// Make the matches of the entries read.
    MakeMatches,
    /// Publish the `groups` groups made.
    Publish { groups: usize },
    /// Write the failure record to the lease store `replica`.
    RecordFailure { replica: usize, cause: Failure },
    /// Tell the trigger how the cycle ended.
    Report { success: bool },
}

/// What the trigger is told: a cycle that stood down, or found nothing to
/// match, counts as a success like one that published.
pub open spec fn reports_success(outcome: Outcome) -> bool {
    !(outcome is Failed)
}

/// The store after `replica` in the order of trial, if there is one.
pub open spec fn next_replica(config: CycleConfig, replica: usize) -> Option<usize> {
    if replica + 1 < config.replicas {
        Some((replica + 1) as usize)
    } else {
        None
    }
}

/// A cycle that cannot go on: the failure record goes to the first lease
/// store, and where there is none the cycle is over.
pub open spec fn fail_spec(config: CycleConfig, cause: Failure) -> (State, Action) {
    if config.replicas > 0 {
        (State::Record { replica: 0, cause }, Action::RecordFailure { replica: 0, cause })
    } else {
        (State::Finished(Outcome::Failed(cause)), Action::Report { success: false })
    }
}

/// The start of the lease acquisition, at the first lease store.
pub open spec fn acquire_spec(config: CycleConfig) -> (State, Action) {
    if config.replicas > 0 {
        (State::LeaseAcquire { replica: 0 }, Action::AcquireLease { replica: 0 })
    } else {
        fail_spec(config, Failure::LeaseUnavailable)
    }
}

/// The transition: the state and the work that follow `state` on `event`.
pub open spec fn step_spec(config: CycleConfig, state: State, event: Event) -> (State, Action) {
    match state {
        State::Finished(outcome) => (state, Action::Report { success: reports_success(outcome) }),
        State::Start => match event {
            Event::Begin => match config.policy {
                HealthPolicy::ExternalSignal => (
                    State::HealthCheck { replica: 0 },
                    Action::CheckAlarms,
                ),
                HealthPolicy::RecentFailures => if config.replicas > 0 {
                    (State::HealthCheck { replica: 0 }, Action::QueryFailures { replica: 0 })
                } else {
                    fail_spec(config, Failure::HealthUnavailable)
                },
            },
            _ => fail_spec(config, Failure::Unexpected),
        },
        State::HealthCheck { replica } => match event {
            Event::Health(HealthAnswer::Healthy) => acquire_spec(config),
            Event::Health(HealthAnswer::Unhealthy) => (
                State::Finished(Outcome::Abandoned(Abandon::Unhealthy)),
                Action::Report { success: true },
            ),
            Event::Health(HealthAnswer::Unreachable) => match config.policy {
                HealthPolicy::ExternalSignal => fail_spec(config, Failure::HealthUnavailable),
                HealthPolicy::RecentFailures => match next_replica(config, replica) {
                    Some(next) => (
                        State::HealthCheck { replica: next },
                        Action::QueryFailures { replica: next },
                    ),
                    None => fail_spec(config, Failure::HealthUnavailable),
                },
            },
            _ => fail_spec(config, Failure::Unexpected),
        },
        State::LeaseAcquire { replica } => match event {
            Event::LeaseWrite(WriteAnswer::Granted) => (State::Load { replica }, Action::LoadQueue),
            Event::LeaseWrite(WriteAnswer::Contested) => (
                State::LeaseConfirm { replica },
                Action::ConfirmLease { replica },
            ),
            Event::LeaseWrite(WriteAnswer::Unreachable) => match next_replica(config, replica) {
                Some(next) => (
                    State::LeaseAcquire { replica: next },
                    Action::AcquireLease { replica: next },
                ),
                None => fail_spec(config, Failure::LeaseUnavailable),
            },
            _ => fail_spec(config, Failure::Unexpected),
        },
        State::LeaseConfirm { replica } => match event {
            Event::LeaseRead(ReadAnswer::Held) => (State::Load { replica }, Action::LoadQueue),
            Event::LeaseRead(ReadAnswer::NotHeld) => (
                State::Finished(Outcome::Abandoned(Abandon::LeaseNotHeld)),
                Action::Report { success: true },
            ),
            Event::LeaseRead(ReadAnswer::Unreachable) => fail_spec(config, Failure::ConfirmFailed),
            _ => fail_spec(config, Failure::Unexpected),
        },
        State::Load { replica } => match event {
            Event::Loaded { entries } => if entries <= 1 {
                (State::Finished(Outcome::Empty), Action::Report { success: true })
            } else {
                (State::Match { replica }, Action::MakeMatches)
            },
            Event::LoadFailed => fail_spec(config, Failure::LoadFailed),
            _ => fail_spec(config, Failure::Unexpected),
        },
        State::Match { replica } => match event {
            Event::Matched { groups } => (
                State::Publish { replica, groups },
                Action::Publish { groups },
            ),
            Event::MatchFailed => fail_spec(config, Failure::MatchFailed),
            _ => fail_spec(config, Failure::Unexpected),
        },
        State::Publish { replica, groups } => match event {
            Event::Published { succeeded } => if succeeded > groups {
                fail_spec(config, Failure::Unexpected)
            } else if succeeded >= 1 {
                (State::Finished(Outcome::Published), Action::Report { success: true })
            } else {
                fail_spec(config, Failure::PublishFailed)
            },
            _ => fail_spec(config, Failure::Unexpected),
        },
        State::Record { replica, cause } => match event {
            Event::Recorded(true) => (
                State::Finished(Outcome::Failed(cause)),
                Action::Report { success: false },
            ),
            _ => match next_replica(config, replica) {
                Some(next) => (
                    State::Record { replica: next, cause },
                    Action::RecordFailure { replica: next, cause },
                ),
                None => (State::Finished(Outcome::Failed(cause)), Action::Report { success: false }),
            },
        },
    }
}

/// What the trigger is told of `outcome`.
pub fn outcome_reports_success(outcome: &Outcome) -> (ok: bool)
    ensures
        ok == reports_success(*outcome),
{
    match outcome {
        Outcome::Failed(_) => false,
        _ => true,
    }
}

fn fail(config: &CycleConfig, cause: Failure) -> (out: (State, Action))
    ensures
        out == fail_spec(*config, cause),
{
    if config.replicas > 0 {
        (State::Record { replica: 0, cause }, Action::RecordFailure { replica: 0, cause })
    } else {
        (State::Finished(Outcome::Failed(cause)), Action::Report { success: false })
    }
}

fn following(config: &CycleConfig, replica: usize) -> (out: Option<usize>)
    ensures
        out == next_replica(*config, replica),
{
    if replica < config.replicas && replica + 1 < config.replicas {
        Some(replica + 1)
    } else {
        None
    }
}

/// One step of the cycle: the state and the work that follow `state` on
/// `event`.
pub fn step(config: &CycleConfig, state: State, event: Event) -> (out: (State, Action))
    ensures
        out == step_spec(*config, state, event),
{
    match state {
        State::Finished(outcome) => (
            state,
            Action::Report { success: outcome_reports_success(&outcome) },
        ),
        State::Start => match event {
            Event::Begin => match config.policy {
                HealthPolicy::ExternalSignal => (
                    State::HealthCheck { replica: 0 },
                    Action::CheckAlarms,
                ),
                HealthPolicy::RecentFailures => if config.replicas > 0 {
                    (State::HealthCheck { replica: 0 }, Action::QueryFailures { replica: 0 })
                } else {
                    fail(config, Failure::HealthUnavailable)
                },
            },
            _ => fail(config, Failure::Unexpected),
        },
        State::HealthCheck { replica } => match event {
            Event::Health(HealthAnswer::Healthy) => if config.replicas > 0 {
                (State::LeaseAcquire { replica: 0 }, Action::AcquireLease { replica: 0 })
            } else {
                fail(config, Failure::LeaseUnavailable)
            },
            Event::Health(HealthAnswer::Unhealthy) => (
                State::Finished(Outcome::Abandoned(Abandon::Unhealthy)),
                Action::Report { success: true },
            ),
            Event::Health(HealthAnswer::Unreachable) => match config.policy {
                HealthPolicy::ExternalSignal => fail(config, Failure::HealthUnavailable),
                HealthPolicy::RecentFailures => match following(config, replica) {
                    Some(next) => (
                        State::HealthCheck { replica: next },
                        Action::QueryFailures { replica: next },
                    ),
                    None => fail(config, Failure::HealthUnavailable),
                },
            },
            _ => fail(config, Failure::Unexpected),
        },
        State::LeaseAcquire { replica } => match event {
            Event::LeaseWrite(WriteAnswer::Granted) => (State::Load { replica }, Action::LoadQueue),
            Event::LeaseWrite(WriteAnswer::Contested) => (
                State::LeaseConfirm { replica },
                Action::ConfirmLease { replica },
            ),
            Event::LeaseWrite(WriteAnswer::Unreachable) => match following(config, replica) {
                Some(next) => (
                    State::LeaseAcquire { replica: next },
                    Action::AcquireLease { replica: next },
                ),
                None => fail(config, Failure::LeaseUnavailable),
            },
            _ => fail(config, Failure::Unexpected),
        },
        State::LeaseConfirm { replica } => match event {
            Event::LeaseRead(ReadAnswer::Held) => (State::Load { replica }, Action::LoadQueue),
            Event::LeaseRead(ReadAnswer::NotHeld) => (
                State::Finished(Outcome::Abandoned(Abandon::LeaseNotHeld)),
                Action::Report { success: true },
            ),
            Event::LeaseRead(ReadAnswer::Unreachable) => fail(config, Failure::ConfirmFailed),
            _ => fail(config, Failure::Unexpected),
        },
        State::Load { replica } => match event {
            Event::Loaded { entries } => if entries <= 1 {
                (State::Finished(Outcome::Empty), Action::Report { success: true })
            } else {
                (State::Match { replica }, Action::MakeMatches)
            },
            Event::LoadFailed => fail(config, Failure::LoadFailed),
            _ => fail(config, Failure::Unexpected),
        },
        State::Match { replica } => match event {
            Event::Matched { groups } => (
                State::Publish { replica, groups },
                Action::Publish { groups },
            ),
            Event::MatchFailed => fail(config, Failure::MatchFailed),
            _ => fail(config, Failure::Unexpected),
        },
        State::Publish { replica, groups } => match event {
            Event::Published { succeeded } => if succeeded > groups {
                fail(config, Failure::Unexpected)
            } else if succeeded >= 1 {
                (State::Finished(Outcome::Published), Action::Report { success: true })
            } else {
                fail(config, Failure::PublishFailed)
            },
            _ => fail(config, Failure::Unexpected),
        },
        State::Record { replica, cause } => match event {
            Event::Recorded(true) => (
                State::Finished(Outcome::Failed(cause)),
                Action::Report { success: false },
            ),
            _ => match following(config, replica) {
                Some(next) => (
                    State::Record { replica: next, cause },
                    Action::RecordFailure { replica: next, cause },
                ),
                None => (State::Finished(Outcome::Failed(cause)), Action::Report { success: false }),
            },
        },
    }
}

/// The state of a cycle that has seen the first `k` of `events`.
pub open spec fn state_after(config: CycleConfig, events: Seq<Event>, k: int) -> State
    decreases k,
{
    if k <= 0 {
        State::Start
    } else {
        step_spec(config, state_after(config, events, k - 1), events[k - 1]).0
    }
}

/// The work that the cycle asks for on seeing event `k` of `events`.
pub open spec fn action_at(config: CycleConfig, events: Seq<Event>, k: int) -> Action {
    step_spec(config, state_after(config, events, k), events[k]).1
}

/// Runs a cycle from the start over `events`: the state it ends in, and
/// the work it asked for, event by event.
pub fn run_script(config: &CycleConfig, events: &Vec<Event>) -> (out: (State, Vec<Action>))
    ensures
        out.0 == state_after(*config, events@, events@.len() as int),
        out.1@.len() == events@.len(),
        forall|k: int| 0 <= k < events@.len() ==> out.1@[k] == action_at(*config, events@, k),
{
    let mut state = State::Start;
    let mut actions: Vec<Action> = Vec::new();
    let mut i: usize = 0;
    while i < events.len()
        invariant
            i <= events.len(),
            state == state_after(*config, events@, i as int),
            actions@.len() == i,
            forall|k: int| 0 <= k < i ==> actions@[k] == action_at(*config, events@, k),
        decreases events.len() - i,
    {
        let (next, action) = step(config, state, events[i]);
        state = next;
        actions.push(action);
        i = i + 1;
    }
    (state, actions)
}

/// What a failure is called in a failure record where nothing more is
/// known of it.
pub open spec fn description_of(cause: Failure) -> Seq<char> {
    match cause {
        Failure::HealthUnavailable => "all regions failed"@,
        Failure::LeaseUnavailable => "all regions failed"@,
        Failure::ConfirmFailed => "lease holder could not be read"@,
        Failure::LoadFailed => "queue could not be read"@,
        Failure::MatchFailed => "matches could not be made"@,
        Failure::PublishFailed => "all matches failed to publish"@,
        Failure::Unexpected => "unexpected event"@,
    }
}

/// What a failure is called in a failure record where nothing more is
/// known of it.
pub fn describe(cause: &Failure) -> (text: String)
    ensures
        text@ == description_of(*cause),
{
    match cause {
        Failure::HealthUnavailable => String::from_str("all regions failed"),
        Failure::LeaseUnavailable => String::from_str("all regions failed"),
        Failure::ConfirmFailed => String::from_str("lease holder could not be read"),
        Failure::LoadFailed => String::from_str("queue could not be read"),
        Failure::MatchFailed => String::from_str("matches could not be made"),
        Failure::PublishFailed => String::from_str("all matches failed to publish"),
        Failure::Unexpected => String::from_str("unexpected event"),
    }
}

/// Whether the cycle has no verdict on its health yet.
pub open spec fn awaits_health(state: State) -> bool {
    state is Start || state is HealthCheck
}

/// Whether the work is a question to a health source.
pub open spec fn asks_health(action: Action) -> bool {
    action is CheckAlarms || action is QueryFailures
}

/// A cycle that is over stays as it is, and only repeats its report.
pub proof fn lemma_finished_is_final(
    config: CycleConfig,
    events: Seq<Event>,
    k: int,
    i: int,
    outcome: Outcome,
)
    requires
        0 <= k <= i,
        state_after(config, events, k) == State::Finished(outcome),
    ensures
        state_after(config, events, i) == State::Finished(outcome),
        action_at(config, events, i) == (Action::Report { success: reports_success(outcome) }),
    decreases i - k,
{
    if i > k {
        lemma_finished_is_final(config, events, k, i - 1, outcome);
    }
}

/// As long as a cycle has no verdict on its health, all it has asked for is
/// that verdict.
pub proof fn lemma_health_comes_first(config: CycleConfig, events: Seq<Event>, k: int, i: int)
    requires
        0 <= i < k,
        awaits_health(state_after(config, events, k)),
    ensures
        awaits_health(state_after(config, events, i)),
        asks_health(action_at(config, events, i)),
    decreases k - i,
{
    if i < k - 1 {
        lemma_health_comes_first(config, events, k, i + 1);
    }
}

/// The health gate comes before everything else: in a cycle whose health
/// check finds the region unhealthy, no lease is asked for and no queue is
/// read. All that the cycle asks for, from its first event to its last, is
/// the health verdict and then the report of a success, and it ends as
/// abandoned.
pub proof fn lemma_unhealthy_short_circuits(
    config: CycleConfig,
    events: Seq<Event>,
    k: int,
    i: int,
)
    requires
        0 <= k < events.len(),
        state_after(config, events, k) is HealthCheck,
        events[k] == Event::Health(HealthAnswer::Unhealthy),
        0 <= i < events.len(),
    ensures
        state_after(config, events, events.len() as int) == State::Finished(
            Outcome::Abandoned(Abandon::Unhealthy),
        ),
        asks_health(action_at(config, events, i)) || action_at(config, events, i) == (
            Action::Report { success: true }),
        !(action_at(config, events, i) is AcquireLease),
        !(action_at(config, events, i) is ConfirmLease),
        !(action_at(config, events, i) is LoadQueue),
{
    let done = Outcome::Abandoned(Abandon::Unhealthy);
    assert(state_after(config, events, k + 1) == State::Finished(done));
    lemma_finished_is_final(config, events, k + 1, events.len() as int, done);
    if i < k {
        lemma_health_comes_first(config, events, k, i);
    } else if i > k {
        lemma_finished_is_final(config, events, k + 1, i, done);
    }
}

/// One success is enough: a round of publications in which at least one
/// group was published ends the cycle as a success, however many failed.
pub proof fn lemma_partial_publish_is_success(
    config: CycleConfig,
    replica: usize,
    groups: usize,
    succeeded: usize,
)
    requires
        1 <= succeeded <= groups,
    ensures
        step_spec(config, State::Publish { replica, groups }, Event::Published { succeeded })
            == (State::Finished(Outcome::Published), Action::Report { success: true }),
        reports_success(Outcome::Published),
{
}

/// A round of publications in which no group was published is a failure:
/// the cycle goes on to write the failure record, first to the first lease
/// store.
pub proof fn lemma_total_publish_failure_is_recorded(
    config: CycleConfig,
    replica: usize,
    groups: usize,
)
    ensures
        step_spec(config, State::Publish { replica, groups }, Event::Published { succeeded: 0 })
            == fail_spec(config, Failure::PublishFailed),
        config.replicas > 0 ==> fail_spec(config, Failure::PublishFailed) == (
            State::Record { replica: 0, cause: Failure::PublishFailed },
            Action::RecordFailure { replica: 0, cause: Failure::PublishFailed },
        ),
{
}

/// The failure record is offered to the lease stores in order, one write
/// each: when the first `j` stores have not taken it, the cycle is waiting
/// for store `j`, which it has asked once.
pub proof fn lemma_failure_record_is_tried_in_order(
    config: CycleConfig,
    events: Seq<Event>,
    k: int,
    j: int,
    cause: Failure,
)
    requires
        0 <= k,
        0 <= j < config.replicas,
        k + j <= events.len(),
        state_after(config, events, k) == (State::Record { replica: 0, cause }),
        forall|i: int| 0 <= i < j ==> #[trigger] events[k + i] != Event::Recorded(true),
    ensures
        state_after(config, events, k + j) == (State::Record { replica: j as usize, cause }),
        j > 0 ==> action_at(config, events, k + j - 1) == (Action::RecordFailure {
            replica: j as usize,
            cause,
        }),
    decreases j,
{
    if j > 0 {
        lemma_failure_record_is_tried_in_order(config, events, k, j - 1, cause);
        assert(events[k + (j - 1)] != Event::Recorded(true));
    }
}

/// The failure record is written until one lease store takes it, or all
/// have been tried; then the cycle is over and reports the failure, and no
/// further write is asked for.
pub proof fn lemma_failure_record_stops(
    config: CycleConfig,
    events: Seq<Event>,
    k: int,
    i: int,
    replica: usize,
    cause: Failure,
)
    requires
        0 <= k < events.len(),
        state_after(config, events, k) == (State::Record { replica, cause }),
        events[k] == Event::Recorded(true) || replica + 1 >= config.replicas,
        k <= i < events.len(),
    ensures
        state_after(config, events, events.len() as int) == State::Finished(
            Outcome::Failed(cause),
        ),
        action_at(config, events, i) == (Action::Report { success: false }),
{
    let done = Outcome::Failed(cause);
    assert(state_after(config, events, k + 1) == State::Finished(done));
    lemma_finished_is_final(config, events, k + 1, events.len() as int, done);
    if i > k {
        lemma_finished_is_final(config, events, k + 1, i, done);
    }
}

/// How far a cycle has come: a number that every step raises, and that is
/// largest when the cycle is over.
pub open spec fn progress(config: CycleConfig, state: State) -> int {
    let r = config.replicas as int;
    match state {
        State::Start => 0,
        State::HealthCheck { replica } => 1 + vstd::math::min(replica as int, r),
        State::LeaseAcquire { replica } => r + 2 + vstd::math::min(replica as int, r),
        State::LeaseConfirm { .. } => 2 * r + 3,
        State::Load { .. } => 2 * r + 4,
        State::Match { .. } => 2 * r + 5,
        State::Publish { .. } => 2 * r + 6,
        State::Record { replica, .. } => 2 * r + 7 + vstd::math::min(replica as int, r),
        State::Finished(_) => 3 * r + 8,
    }
}

/// Every step of a cycle that is not over brings it further.
pub proof fn lemma_step_makes_progress(config: CycleConfig, state: State, event: Event)
    requires
        !(state is Finished),
    ensures
        progress(config, step_spec(config, state, event).0) > progress(config, state),
{
}

/// A cycle ends: with `replicas` lease stores it is over after at most
/// `3 * replicas + 8` events, whatever they are.
pub proof fn lemma_cycle_ends(config: CycleConfig, events: Seq<Event>, k: int)
    requires
        3 * config.replicas + 8 <= k,
    ensures
        state_after(config, events, k) is Finished,
{
    lemma_progress_after(config, events, k);
}

proof fn lemma_progress_after(config: CycleConfig, events: Seq<Event>, k: int)
    requires
        0 <= k,
    ensures
        state_after(config, events, k) is Finished || progress(
            config,
            state_after(config, events, k),
        ) >= k,
    decreases k,
{
    if k > 0 {
        lemma_progress_after(config, events, k - 1);
        let before = state_after(config, events, k - 1);
        if !(before is Finished) {
            lemma_step_makes_progress(config, before, events[k - 1]);
        }
    }
}

} // verus!
