//! The settings of a deployment, read from the text of its environment.

use crate::coordinator::{CycleConfig, HealthPolicy};
use crate::health::{HealthConfig, LOOKBACK_SECONDS, MAX_FAILURES};
use crate::lease::{LeaseConfig, GRACE_SECONDS, LEASE_SECONDS};
use crate::publish::CONCURRENT_REQUESTS;
use crate::text::{chars_of, join_with, parse_u64, parse_u64_spec};
use vstd::prelude::*;
use vstd::string::*;

verus! {

/// The settings as the environment gives them: text, and `None` for what
/// is not set.
#[derive(Debug, Clone, PartialEq, Eq)]
pub struct RawSettings {
    /// The region this deployment runs in.
    pub region: String,
    /// The queue's name, which is also the name of its table.
    pub queue_table: String,
    /// The index by which the queue is read.
    pub queue_index: String,
    /// The table that matches are written to.
    pub match_table: String,
    /// The table of the lease stores.
    pub lock_table: String,
    /// The regions of the lease stores, in the order of trial, separated by
    /// commas.
    pub lock_regions: String,
    /// The names of the alarms of the external-signal policy, separated by
    /// commas; where none are set the recent-failure policy is used.
    pub alarm_names: Option<String>,
    /// How long a lease lasts, in seconds.
    pub lease_seconds: Option<String>,
    /// How long a lease must have run out before it may be taken.
    pub grace_seconds: Option<String>,
    /// How far back failures count, in seconds.
    pub lookback_seconds: Option<String>,
    /// How many recent failures make a region unhealthy.
    pub failure_threshold: Option<String>,
    /// How many publications may be under way at once.
    pub concurrency: Option<String>,
}

/// The settings of a deployment.
#[derive(Debug, Clone, PartialEq, Eq)]
pub struct Settings {
    /// The region this deployment runs in.
    pub region: String,
    /// The queue's name, which is also the name of its table.
    pub queue_table: String,
    /// The index by which the queue is read.
    pub queue_index: String,
    /// The table that matches are written to.
    pub match_table: String,
    /// The table of the lease stores.
    pub lock_table: String,
    /// The regions of the lease stores, in the order of trial.
    pub lock_regions: Vec<String>,
    /// The names of the alarms; `None` with the recent-failure policy.
    pub alarms: Option<Vec<String>>,
    /// The periods of the lease protocol.
    pub lease: LeaseConfig,
    /// The numbers of the recent-failure policy.
    pub health: HealthConfig,
    /// How many publications may be under way at once: at least one.
    pub concurrency: usize,
}

/// A setting that cannot be used.
#[derive(Debug, Clone, Copy, PartialEq, Eq)]
pub enum ConfigError {
    /// The lease period is no number of seconds below 2^32.
    LeaseSeconds,
    /// The grace period is no number of seconds below 2^32.
    GraceSeconds,
    /// The lookback is no number of seconds below 2^32.
    LookbackSeconds,
    /// The threshold is no number from 1 to 2^31 - 1.
    FailureThreshold,
    /// The limit of publications at once is no number from 1 to 2^32 - 1.
    Concurrency,
}

/// Whether `part` holds no comma.
pub open spec fn comma_free(part: Seq<char>) -> bool {
    forall|i: int| 0 <= i < part.len() ==> #[trigger] part[i] != ','
}

/// Whether `parts` are the items of the comma-separated list `text`: there
/// is at least one, none holds a comma, and joined by commas they give
/// `text`. The empty text is the list of one empty item.
pub open spec fn is_split(text: Seq<char>, parts: Seq<Seq<char>>) -> bool {
    &&& parts.len() >= 1
    &&& forall|k: int| 0 <= k < parts.len() ==> comma_free(#[trigger] parts[k])
    &&& join_with(parts, seq![',']) == text
}

/// The items of the comma-separated list `text`.
pub fn split_list(text: &str) -> (parts: Vec<String>)
    ensures
        is_split(text@, crate::text::views_of(parts@)),
{
    let chars = chars_of(text);
    let n = chars.len();
    let mut parts: Vec<String> = Vec::new();
    let mut start: usize = 0;
    let mut i: usize = 0;
    let ghost sep = seq![','];
    while i < n
        invariant
            start <= i <= n,
            n == chars@.len(),
            chars@ == text@,
            sep == seq![','],
            forall|k: int| start <= k < i ==> chars@[k] != ',',
            forall|k: int|
                0 <= k < parts@.len() ==> comma_free(#[trigger] crate::text::views_of(parts@)[k]),
            if parts@.len() == 0 {
                start == 0
            } else {
                join_with(crate::text::views_of(parts@), sep) + sep == text@.take(start as int)
            },
        decreases n - i,
    {
        if chars[i] == ',' {
            let ghost before = crate::text::views_of(parts@);
            let item = text.substring_char(start, i);
            parts.push(String::from_str(item));
            proof {
                let after = crate::text::views_of(parts@);
                assert(after.drop_last() =~= before);
                assert(after.last() == text@.subrange(start as int, i as int));
                assert(text@.take(i + 1) =~= text@.take(start as int) + text@.subrange(
                    start as int,
                    i as int,
                ) + sep);
                if before.len() == 0 {
                    assert(text@.take(0) =~= Seq::<char>::empty());
                    assert(join_with(after, sep) + sep =~= text@.take(i + 1));
                } else {
                    assert(join_with(after, sep) + sep =~= text@.take(i + 1));
                }
                assert forall|k: int| 0 <= k < after.len() implies comma_free(
                    #[trigger] after[k],
                ) by {
                    if k < before.len() {
                        assert(after[k] == before[k]);
                    }
                }
            }
            start = i + 1;
        }
        i = i + 1;
    }
    let ghost before = crate::text::views_of(parts@);
    let item = text.substring_char(start, n);
    parts.push(String::from_str(item));
    proof {
        let after = crate::text::views_of(parts@);
        assert(after.drop_last() =~= before);
        assert(after.last() == text@.subrange(start as int, n as int));
        assert(text@ =~= text@.take(start as int) + text@.subrange(start as int, n as int));
        if before.len() == 0 {
            assert(text@.take(0) =~= Seq::<char>::empty());
            assert(join_with(after, sep) =~= text@);
        } else {
            assert(join_with(after, sep) =~= text@);
        }
        assert forall|k: int| 0 <= k < after.len() implies comma_free(#[trigger] after[k]) by {
            if k < before.len() {
                assert(after[k] == before[k]);
            }
        }
    }
    parts
}

/// The number that an optional setting gives: `fallback` where it is not
/// set, the number it writes where that lies from `least` to `most`, and
/// nothing otherwise.
pub open spec fn number_spec(text: Option<String>, fallback: u64, least: u64, most: u64) -> Option<
    u64,
> {
    match text {
        None => Some(fallback),
        Some(s) => match parse_u64_spec(s@) {
            Some(v) => if least <= v <= most {
                Some(v)
            } else {
                None
            },
            None => None,
        },
    }
}

/// The number that an optional setting gives.
pub fn number_or(text: &Option<String>, fallback: u64, least: u64, most: u64) -> (out: Option<u64>)
    ensures
        out == number_spec(*text, fallback, least, most),
{
    match text {
        None => Some(fallback),
        Some(s) => match parse_u64(s.as_str()) {
            Some(v) => if least <= v && v <= most {
                Some(v)
            } else {
                None
            },
            None => None,
        },
    }
}

impl Settings {
    /// What the cycle's state machine needs of the settings: the number of
    /// lease stores, and the health policy, which is the external signal
    /// where alarms are named.
    pub open spec fn cycle_spec(self) -> CycleConfig {
        CycleConfig {
            replicas: self.lock_regions@.len() as usize,
            policy: if self.alarms is Some {
                HealthPolicy::ExternalSignal
            } else {
                HealthPolicy::RecentFailures
            },
        }
    }

    /// What the cycle's state machine needs of the settings.
    pub fn cycle_config(&self) -> (c: CycleConfig)
        ensures
            c == self.cycle_spec(),
    {
        CycleConfig {
            replicas: self.lock_regions.len(),
            policy: match self.alarms {
                Some(_) => HealthPolicy::ExternalSignal,
                None => HealthPolicy::RecentFailures,
            },
        }
    }

    /// The settings that `raw` gives. The lists are split at their commas;
    /// a number that is not set takes its standard value; a number that is
    /// set must be a decimal number in its range.
    pub fn from_raw(raw: &RawSettings) -> (out: Result<Settings, ConfigError>)
        ensures
            match out {
                Ok(s) => {
                    &&& s.region@ == raw.region@
                    &&& s.queue_table@ == raw.queue_table@
                    &&& s.queue_index@ == raw.queue_index@
                    &&& s.match_table@ == raw.match_table@
                    &&& s.lock_table@ == raw.lock_table@
                    &&& is_split(raw.lock_regions@, crate::text::views_of(s.lock_regions@))
                    &&& match raw.alarm_names {
                        Some(names) => s.alarms matches Some(list) && is_split(
                            names@,
                            crate::text::views_of(list@),
                        ),
                        None => s.alarms is None,
                    }
                    &&& number_spec(raw.lease_seconds, LEASE_SECONDS as u64, 0, u32::MAX as u64)
                        == Some(s.lease.lease_seconds as u64)
                    &&& number_spec(raw.grace_seconds, GRACE_SECONDS as u64, 0, u32::MAX as u64)
                        == Some(s.lease.grace_seconds as u64)
                    &&& number_spec(
                        raw.lookback_seconds,
                        LOOKBACK_SECONDS as u64,
                        0,
                        u32::MAX as u64,
                    ) == Some(s.health.lookback_seconds as u64)
                    &&& number_spec(
                        raw.failure_threshold,
                        MAX_FAILURES as u64,
                        1,
                        i32::MAX as u64,
                    ) == Some(s.health.failure_threshold as u64)
                    &&& number_spec(
                        raw.concurrency,
                        CONCURRENT_REQUESTS as u64,
                        1,
                        u32::MAX as u64,
                    ) == Some(s.concurrency as u64)
                },
                Err(e) => e == first_error(*raw),
            },
            out is Err <==> has_error(*raw),
    {
        let lease_seconds = match number_or(
            &raw.lease_seconds,
            LEASE_SECONDS as u64,
            0,
            u32::MAX as u64,
        ) {
            Some(v) => v as u32,
            None => { return Err(ConfigError::LeaseSeconds); },
        };
        let grace_seconds = match number_or(
            &raw.grace_seconds,
            GRACE_SECONDS as u64,
            0,
            u32::MAX as u64,
        ) {
            Some(v) => v as u32,
            None => { return Err(ConfigError::GraceSeconds); },
        };
        let lookback_seconds = match number_or(
            &raw.lookback_seconds,
            LOOKBACK_SECONDS as u64,
            0,
            u32::MAX as u64,
        ) {
            Some(v) => v as u32,
            None => { return Err(ConfigError::LookbackSeconds); },
        };
        let failure_threshold = match number_or(
            &raw.failure_threshold,
            MAX_FAILURES as u64,
            1,
            i32::MAX as u64,
        ) {
            Some(v) => v as i32,
            None => { return Err(ConfigError::FailureThreshold); },
        };
        let concurrency = match number_or(
            &raw.concurrency,
            CONCURRENT_REQUESTS as u64,
            1,
            u32::MAX as u64,
        ) {
            Some(v) => v as usize,
            None => { return Err(ConfigError::Concurrency); },
        };
        let alarms = match &raw.alarm_names {
            Some(names) => Some(split_list(names.as_str())),
            None => None,
        };
        Ok(
            Settings {
                region: raw.region.clone(),
                queue_table: raw.queue_table.clone(),
                queue_index: raw.queue_index.clone(),
                match_table: raw.match_table.clone(),
                lock_table: raw.lock_table.clone(),
                lock_regions: split_list(raw.lock_regions.as_str()),
                alarms,
                lease: LeaseConfig { lease_seconds, grace_seconds },
                health: HealthConfig { lookback_seconds, failure_threshold },
                concurrency,
            },
        )
    }
}

/// Whether one of the numbers of `raw` cannot be used.
pub open spec fn has_error(raw: RawSettings) -> bool {
    ||| number_spec(raw.lease_seconds, LEASE_SECONDS as u64, 0, u32::MAX as u64) is None
    ||| number_spec(raw.grace_seconds, GRACE_SECONDS as u64, 0, u32::MAX as u64) is None
    ||| number_spec(raw.lookback_seconds, LOOKBACK_SECONDS as u64, 0, u32::MAX as u64) is None
    ||| number_spec(raw.failure_threshold, MAX_FAILURES as u64, 1, i32::MAX as u64) is None
    ||| number_spec(raw.concurrency, CONCURRENT_REQUESTS as u64, 1, u32::MAX as u64) is None
}

/// The first number of `raw` that cannot be used, in the order lease,
/// grace, lookback, threshold, concurrency.
pub open spec fn first_error(raw: RawSettings) -> ConfigError {
    if number_spec(raw.lease_seconds, LEASE_SECONDS as u64, 0, u32::MAX as u64) is None {
        ConfigError::LeaseSeconds
    } else if number_spec(raw.grace_seconds, GRACE_SECONDS as u64, 0, u32::MAX as u64) is None {
        ConfigError::GraceSeconds
    } else if number_spec(raw.lookback_seconds, LOOKBACK_SECONDS as u64, 0, u32::MAX as u64)
        is None {
        ConfigError::LookbackSeconds
    } else if number_spec(raw.failure_threshold, MAX_FAILURES as u64, 1, i32::MAX as u64)
        is None {
        ConfigError::FailureThreshold
    } else {
        ConfigError::Concurrency
    }
}

} // verus!
