use vstd::prelude::*;

verus! {

/// Default number of partitions taken per tick.
pub const DEFAULT_QUERY_LIMIT: u32 = 50;
/// Default pause, in seconds, after an idle or failed tick.
pub const DEFAULT_EXECUTION_INTERVAL_IN_SECONDS: u64 = 5;
/// Default HTTP request timeout, in milliseconds.
pub const DEFAULT_HTTP_TIMEOUT_IN_MILLIS: u64 = 3000;
/// Default time, in seconds, for which a tick's locks hold their partitions.
pub const DEFAULT_MAX_IN_FLIGHT_INTERVAL_IN_SECONDS: u64 = 30;
/// Default number of attempts at which a record is given up.
pub const DEFAULT_FAILURE_LIMIT: u32 = 10;
/// Default pause, in seconds, between janitor ticks.
pub const DEFAULT_CLEANER_EXECUTION_INTERVAL_IN_SECONDS: u64 = 5;

/// The relay's knobs as given: each may be left unset, and then takes its
/// default in `settings`.
#[derive(Debug, Clone, Copy, PartialEq, Eq, Structural)]
pub struct OutboxProcessorResources {
    pub http_timeout_in_millis: Option<u64>,
    pub outbox_query_limit: Option<u32>,
    pub outbox_execution_interval_in_seconds: Option<u64>,
    pub delete_after_process_successfully: Option<bool>,
    pub max_in_flight_interval_in_seconds: Option<u64>,
    pub outbox_failure_limit: Option<u32>,
    pub scheduled_clear_locked_partition: Option<bool>,
    pub outbox_cleaner_execution_interval_in_seconds: Option<u64>,
    pub delay_for_failure_attempt_in_seconds: Option<u64>,
}

/// The relay's knobs with every default filled in.
#[derive(Debug, Clone, Copy, PartialEq, Eq, Structural)]
pub struct Settings {
    pub http_timeout_in_millis: u64,
    pub outbox_query_limit: u32,
    pub outbox_execution_interval_in_seconds: u64,
    pub delete_after_process_successfully: bool,
    pub max_in_flight_interval_in_seconds: u64,
    pub outbox_failure_limit: u32,
    pub scheduled_clear_locked_partition: bool,
    pub outbox_cleaner_execution_interval_in_seconds: u64,
    pub delay_for_failure_attempt_in_seconds: u64,
}

/// The value if set, else the default.
pub open spec fn or_default<T>(o: Option<T>, d: T) -> T {
    match o {
        Some(v) => v,
        None => d,
    }
}

/// Seconds as milliseconds, capped at the largest `u64`.
pub open spec fn millis_of(secs: u64) -> u64 {
    if secs * 1000 > u64::MAX {
        u64::MAX
    } else {
        (secs * 1000) as u64
    }
}

/// Seconds as milliseconds, capped at the largest `u64`.
pub fn seconds_to_millis(secs: u64) -> (r: u64)
    ensures
        r == millis_of(secs),
{
    if secs > u64::MAX / 1000 {
        u64::MAX
    } else {
        secs * 1000
    }
}

fn u64_or(o: Option<u64>, d: u64) -> (r: u64)
    ensures
        r == or_default(o, d),
{
    match o {
        Some(v) => v,
        None => d,
    }
}

fn u32_or(o: Option<u32>, d: u32) -> (r: u32)
    ensures
        r == or_default(o, d),
{
    match o {
        Some(v) => v,
        None => d,
    }
}

fn bool_or(o: Option<bool>, d: bool) -> (r: bool)
    ensures
        r == or_default(o, d),
{
    match o {
        Some(v) => v,
        None => d,
    }
}

impl OutboxProcessorResources {
    /// Knobs with nothing set.
    pub fn new() -> (r: Self)
        ensures
            r.http_timeout_in_millis is None,
            r.outbox_query_limit is None,
            r.outbox_execution_interval_in_seconds is None,
            r.delete_after_process_successfully is None,
            r.max_in_flight_interval_in_seconds is None,
            r.outbox_failure_limit is None,
            r.scheduled_clear_locked_partition is None,
            r.outbox_cleaner_execution_interval_in_seconds is None,
            r.delay_for_failure_attempt_in_seconds is None,
    {
        OutboxProcessorResources {
            http_timeout_in_millis: None,
            outbox_query_limit: None,
            outbox_execution_interval_in_seconds: None,
            delete_after_process_successfully: None,
            max_in_flight_interval_in_seconds: None,
            outbox_failure_limit: None,
            scheduled_clear_locked_partition: None,
            outbox_cleaner_execution_interval_in_seconds: None,
            delay_for_failure_attempt_in_seconds: None,
        }
    }

    pub fn with_http_timeout_in_millis(self, http_timeout: u64) -> (r: Self)
        ensures
            r == (Self { http_timeout_in_millis: Some(http_timeout), ..self }),
    {
        Self { http_timeout_in_millis: Some(http_timeout), ..self }
    }

    pub fn with_outbox_query_limit(self, outbox_query_limit: u32) -> (r: Self)
        ensures
            r == (Self { outbox_query_limit: Some(outbox_query_limit), ..self }),
    {
        Self { outbox_query_limit: Some(outbox_query_limit), ..self }
    }

    pub fn with_outbox_execution_interval_in_seconds(self, interval: u64) -> (r: Self)
        ensures
            r == (Self { outbox_execution_interval_in_seconds: Some(interval), ..self }),
    {
        Self { outbox_execution_interval_in_seconds: Some(interval), ..self }
    }

    pub fn with_delete_after_process_successfully(self, delete: bool) -> (r: Self)
        ensures
            r == (Self { delete_after_process_successfully: Some(delete), ..self }),
    {
        Self { delete_after_process_successfully: Some(delete), ..self }
    }

    pub fn with_max_in_flight_interval_in_seconds(self, interval: u64) -> (r: Self)
        ensures
            r == (Self { max_in_flight_interval_in_seconds: Some(interval), ..self }),
    {
        Self { max_in_flight_interval_in_seconds: Some(interval), ..self }
    }

    pub fn with_outbox_failure_limit(self, limit: u32) -> (r: Self)
        ensures
            r == (Self { outbox_failure_limit: Some(limit), ..self }),
    {
        Self { outbox_failure_limit: Some(limit), ..self }
    }

    pub fn with_scheduled_clear_locked_partition(self, scheduled: bool) -> (r: Self)
        ensures
            r == (Self { scheduled_clear_locked_partition: Some(scheduled), ..self }),
    {
        Self { scheduled_clear_locked_partition: Some(scheduled), ..self }
    }

    pub fn with_outbox_cleaner_execution_interval_in_seconds(self, interval: u64) -> (r: Self)
        ensures
            r == (Self { outbox_cleaner_execution_interval_in_seconds: Some(interval), ..self }),
    {
        Self { outbox_cleaner_execution_interval_in_seconds: Some(interval), ..self }
    }

    pub fn with_delay_for_failure_attempt_in_seconds(self, delay: u64) -> (r: Self)
        ensures
            r == (Self { delay_for_failure_attempt_in_seconds: Some(delay), ..self }),
    {
        Self { delay_for_failure_attempt_in_seconds: Some(delay), ..self }
    }

    /// The knobs with their defaults filled in.
    pub fn settings(&self) -> (r: Settings)
        ensures
            r.http_timeout_in_millis == or_default(
                self.http_timeout_in_millis,
                DEFAULT_HTTP_TIMEOUT_IN_MILLIS,
            ),
            r.outbox_query_limit == or_default(self.outbox_query_limit, DEFAULT_QUERY_LIMIT),
            r.outbox_execution_interval_in_seconds == or_default(
                self.outbox_execution_interval_in_seconds,
                DEFAULT_EXECUTION_INTERVAL_IN_SECONDS,
            ),
            r.delete_after_process_successfully == or_default(
                self.delete_after_process_successfully,
                false,
            ),
            r.max_in_flight_interval_in_seconds == or_default(
                self.max_in_flight_interval_in_seconds,
                DEFAULT_MAX_IN_FLIGHT_INTERVAL_IN_SECONDS,
            ),
            r.outbox_failure_limit == or_default(self.outbox_failure_limit, DEFAULT_FAILURE_LIMIT),
            r.scheduled_clear_locked_partition == or_default(
                self.scheduled_clear_locked_partition,
                false,
            ),
            r.outbox_cleaner_execution_interval_in_seconds == or_default(
                self.outbox_cleaner_execution_interval_in_seconds,
                DEFAULT_CLEANER_EXECUTION_INTERVAL_IN_SECONDS,
            ),
            r.delay_for_failure_attempt_in_seconds == or_default(
                self.delay_for_failure_attempt_in_seconds,
                0,
            ),
    {
        Settings {
            http_timeout_in_millis: u64_or(self.http_timeout_in_millis, DEFAULT_HTTP_TIMEOUT_IN_MILLIS),
            outbox_query_limit: u32_or(self.outbox_query_limit, DEFAULT_QUERY_LIMIT),
            outbox_execution_interval_in_seconds: u64_or(
                self.outbox_execution_interval_in_seconds,
                DEFAULT_EXECUTION_INTERVAL_IN_SECONDS,
            ),
            delete_after_process_successfully: bool_or(self.delete_after_process_successfully, false),
            max_in_flight_interval_in_seconds: u64_or(
                self.max_in_flight_interval_in_seconds,
                DEFAULT_MAX_IN_FLIGHT_INTERVAL_IN_SECONDS,
            ),
            outbox_failure_limit: u32_or(self.outbox_failure_limit, DEFAULT_FAILURE_LIMIT),
            scheduled_clear_locked_partition: bool_or(self.scheduled_clear_locked_partition, false),
            outbox_cleaner_execution_interval_in_seconds: u64_or(
                self.outbox_cleaner_execution_interval_in_seconds,
                DEFAULT_CLEANER_EXECUTION_INTERVAL_IN_SECONDS,
            ),
            delay_for_failure_attempt_in_seconds: u64_or(self.delay_for_failure_attempt_in_seconds, 0),
        }
    }
}

} // verus!
