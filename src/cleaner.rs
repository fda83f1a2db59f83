use vstd::prelude::*;
use crate::error::{ErrorKind, OutboxPatternProcessorError};
use crate::repository::{purged_locks, OutboxCleanerSchedule, OutboxRepository};

verus! {

/// The latest start time, in milliseconds since the Unix epoch, from which
/// the janitor asks the `cron` crate for a next firing: 2100-01-01T00:00:00Z.
/// The crate knows no year after 2100, so nothing fires after it.
pub const LAST_CRON_START_MILLIS: u64 = 4_102_444_800_000;

/// Whether the `cron` crate accepts a schedule expression.
pub uninterp spec fn cron_parses(expr: Seq<char>) -> bool;

/// When a cron expression next fires strictly after `last` (milliseconds
/// since the Unix epoch), as the `cron` crate computes it; `None` when the
/// expression does not parse or never fires again.
pub uninterp spec fn cron_next_after(expr: Seq<char>, last: u64) -> Option<u64>;

/// Relies on `cron::Schedule::from_str`: whether it accepts the expression
/// depends on the expression alone.
#[verifier::external_body]
fn parse_cron(expr: &str) -> (r: Result<(), String>)
    ensures
        r is Ok <==> cron_parses(expr@),
{
    match <cron::Schedule as std::str::FromStr>::from_str(expr) {
        Ok(_) => Ok(()),
        Err(e) => Err(e.to_string()),
    }
}

/// Relies on `cron::Schedule::from_str`, `Schedule::after` and the
/// iterator's `next`, with `chrono` for the conversions: the next firing
/// depends on the expression and the start time alone. `after` adds one
/// second to the start with chrono's `+`, which panics near chrono's last
/// date, so the start is bounded.
#[verifier::external_body]
fn next_execution(expr: &str, last: u64) -> (r: Option<u64>)
    requires
        last < LAST_CRON_START_MILLIS,
    ensures
        r == cron_next_after(expr@, last),
{
    let schedule = <cron::Schedule as std::str::FromStr>::from_str(expr).ok()?;
    let start = chrono::DateTime::<chrono::Utc>::from_timestamp_millis(i64::try_from(last).ok()?)?;
    let next = schedule.after(&start).next()?;
    u64::try_from(next.timestamp_millis()).ok()
}

/// When a schedule fires next after its last run: `Err` when its expression
/// does not parse, no firing when its last run is past the last start the
/// cron crate is asked about.
pub open spec fn next_run_of(expr: Seq<char>, last: u64) -> Result<Option<u64>, ()> {
    if !cron_parses(expr) {
        Err(())
    } else if last >= LAST_CRON_START_MILLIS {
        Ok(None)
    } else {
        Ok(cron_next_after(expr, last))
    }
}

/// The janitor is due when the schedule's next firing is not in the future.
pub open spec fn is_due(next: Option<u64>, now: u64) -> bool {
    next matches Some(n) && n <= now
}

/// Whether the janitor is due, given the schedule's next firing.
pub fn cleaner_due(next: Option<u64>, now: u64) -> (r: bool)
    ensures
        r == is_due(next, now),
{
    match next {
        Some(n) => n <= now,
        None => false,
    }
}

/// When a schedule next fires after its last run; a configuration error
/// when its expression does not parse.
pub fn next_cleaner_run(schedule: &OutboxCleanerSchedule) -> (r: Result<Option<u64>, OutboxPatternProcessorError>)
    ensures
        match next_run_of(schedule.cron_expression@, schedule.last_execution) {
            Err(_) => r matches Err(e) && e.kind == ErrorKind::Configuration,
            Ok(n) => r matches Ok(m) && m == n,
        },
{
    match parse_cron(schedule.cron_expression.as_str()) {
        Err(cause) => Err(OutboxPatternProcessorError::configuration(cause.as_str(), "Failed to parse cron expression")),
        Ok(()) => {
            if schedule.last_execution >= LAST_CRON_START_MILLIS {
                Ok(None)
            } else {
                Ok(next_execution(schedule.cron_expression.as_str(), schedule.last_execution))
            }
        },
    }
}

impl OutboxRepository {
    /// One janitor tick, given when the schedule next fires after its last
    /// run: if a schedule exists and that time has come, purges the stale
    /// tombstones and records `now` as the last run. Returns whether it ran.
    pub fn run_cleaner(&mut self, next: Option<u64>, now: u64) -> (ran: bool)
        requires
            old(self).wf(),
        ensures
            final(self).wf(),
            final(self).records@ == old(self).records@,
            ran == (old(self).cleaner_schedule is Some && is_due(next, now)),
            ran ==> final(self).locks@ == purged_locks(old(self).locks@, now),
            ran ==> (final(self).cleaner_schedule matches Some(d) && old(
                self,
            ).cleaner_schedule matches Some(c) && d.cron_expression == c.cron_expression
                && d.last_execution == now),
            !ran ==> final(self).locks@ == old(self).locks@ && final(self).cleaner_schedule
                == old(self).cleaner_schedule,
    {
        if self.cleaner_schedule.is_none() || !cleaner_due(next, now) {
            return false;
        }
        self.clear_processed_locked_partition_key(now);
        self.update_last_cleaner_execution(now);
        true
    }

    /// One janitor tick at `now`: reads the schedule, asks when it next
    /// fires after its last run, and, if that time has come, purges the
    /// stale tombstones and records `now` as the last run. Returns whether it
    /// ran; a configuration error, with nothing changed, when the schedule's
    /// expression does not parse.
    pub fn one_shot_processed_locked_cleaner(&mut self, now: u64) -> (r: Result<bool, OutboxPatternProcessorError>)
        requires
            old(self).wf(),
        ensures
            final(self).wf(),
            final(self).records@ == old(self).records@,
            match old(self).cleaner_schedule {
                None => r == Ok::<bool, OutboxPatternProcessorError>(false),
                Some(c) => match next_run_of(c.cron_expression@, c.last_execution) {
                    Err(_) => r matches Err(e) && e.kind == ErrorKind::Configuration,
                    Ok(next) => r matches Ok(ran) && ran == is_due(next, now),
                },
            },
            r matches Ok(true) ==> final(self).locks@ == purged_locks(old(self).locks@, now),
            r matches Ok(true) ==> (final(self).cleaner_schedule matches Some(d) && old(
                self,
            ).cleaner_schedule matches Some(c) && d.cron_expression == c.cron_expression
                && d.last_execution == now),
            !(r matches Ok(true)) ==> final(self).locks@ == old(self).locks@,
            !(r matches Ok(true)) ==> final(self).cleaner_schedule == old(self).cleaner_schedule,
    {
        let next = match &self.cleaner_schedule {
            None => None,
            Some(c) => match next_cleaner_run(c) {
                Err(e) => return Err(e),
                Ok(n) => n,
            },
        };
        Ok(self.run_cleaner(next, now))
    }
}

} // verus!
