use vstd::prelude::*;
use crate::outbox::{
    contains_id, idempotent_keys, keys_of, outboxes_view, partition_keys, partitions_of, Outbox,
    OutboxView,
};
use crate::repository::{
    failed_records, is_batch_of, kept_records, marked_records, released_locks, OutboxRepository,
    PartitionLock,
};
use crate::resources::{millis_of, seconds_to_millis, OutboxProcessorResources, Settings};

verus! {

/// The dispatch loop's decisions: what a tick takes and how its outcome is
/// written back. Sending is left to the caller, between the two.
#[derive(Debug)]
pub struct OutboxProcessor {
    pub resources: OutboxProcessorResources,
}

/// The records of the batch that failed in no sink: those whose key is not
/// among the failures.
pub open spec fn success_set(batch: Seq<OutboxView>, failed: Seq<OutboxView>) -> Seq<OutboxView> {
    kept_records(batch, keys_of(failed))
}

/// The records after a tick's bookkeeping: successes marked processed (or
/// deleted), then, if anything failed, failures counted.
pub open spec fn settled_records(
    rs: Seq<OutboxView>,
    batch: Seq<OutboxView>,
    failed: Seq<OutboxView>,
    s: Settings,
    now: u64,
) -> Seq<OutboxView> {
    let ok = keys_of(success_set(batch, failed));
    let first = if s.delete_after_process_successfully {
        kept_records(rs, ok)
    } else {
        marked_records(rs, ok, now)
    };
    if failed.len() > 0 {
        failed_records(
            first,
            keys_of(failed),
            partitions_of(failed),
            millis_of(s.delay_for_failure_attempt_in_seconds),
            now,
        )
    } else {
        first
    }
}

/// The locks after a tick's bookkeeping: the successes' partitions released,
/// then, if anything failed, the failures' partitions.
pub open spec fn settled_locks(
    ls: Seq<PartitionLock>,
    batch: Seq<OutboxView>,
    failed: Seq<OutboxView>,
    s: Settings,
    now: u64,
) -> Seq<PartitionLock> {
    let first = released_locks(
        ls,
        partitions_of(success_set(batch, failed)),
        now,
        s.scheduled_clear_locked_partition,
    );
    if failed.len() > 0 {
        released_locks(first, partitions_of(failed), now, s.scheduled_clear_locked_partition)
    } else {
        first
    }
}


/// One step of a tick's bookkeeping. The record store applies the steps of
/// a plan in order, each together with the release of its partitions (and of
/// every lock whose time is up).
#[derive(Debug)]
pub enum BookkeepingStep {
    /// Marks the records with these keys processed, one more attempt each.
    MarkProcessed { keys: Vec<u128>, partitions: Vec<u128> },
    /// Deletes the records with these keys.
    DeleteProcessed { keys: Vec<u128>, partitions: Vec<u128> },
    /// With a delay (in milliseconds), first pushes `process_after` to now
    /// plus the delay for every unprocessed record of these partitions; then
    /// counts one more attempt for the records with these keys.
    IncreaseAttempts { keys: Vec<u128>, partitions: Vec<u128>, delay: Option<u64> },
}

/// A tick's bookkeeping: its steps, and whether released locks are kept as
/// tombstones (scheduled purge) or deleted.
#[derive(Debug)]
pub struct BookkeepingPlan {
    pub steps: Vec<BookkeepingStep>,
    pub scheduled_purge: bool,
}

/// The model of a step.
pub ghost enum StepView {
    Mark(Seq<u128>, Seq<u128>),
    Delete(Seq<u128>, Seq<u128>),
    Increase(Seq<u128>, Seq<u128>, u64),
}

impl View for BookkeepingStep {
    type V = StepView;

    open spec fn view(&self) -> StepView {
        match self {
            BookkeepingStep::MarkProcessed { keys, partitions } => StepView::Mark(keys@, partitions@),
            BookkeepingStep::DeleteProcessed { keys, partitions } => StepView::Delete(keys@, partitions@),
            BookkeepingStep::IncreaseAttempts { keys, partitions, delay } => StepView::Increase(
                keys@,
                partitions@,
                match delay {
                    Some(d) => *d,
                    None => 0,
                },
            ),
        }
    }
}

pub open spec fn steps_view(steps: Seq<BookkeepingStep>) -> Seq<StepView> {
    steps.map_values(|st: BookkeepingStep| st@)
}

/// The partitions a step releases.
pub open spec fn step_partitions(st: StepView) -> Seq<u128> {
    match st {
        StepView::Mark(_, p) => p,
        StepView::Delete(_, p) => p,
        StepView::Increase(_, p, _) => p,
    }
}

/// The records after one step.
pub open spec fn step_records(rs: Seq<OutboxView>, st: StepView, now: u64) -> Seq<OutboxView> {
    match st {
        StepView::Mark(k, _) => marked_records(rs, k, now),
        StepView::Delete(k, _) => kept_records(rs, k),
        StepView::Increase(k, p, d) => failed_records(rs, k, p, d, now),
    }
}

/// The records after the steps, in order.
pub open spec fn applied_records(rs: Seq<OutboxView>, steps: Seq<StepView>, now: u64) -> Seq<OutboxView>
    decreases steps.len(),
{
    if steps.len() == 0 {
        rs
    } else {
        step_records(applied_records(rs, steps.drop_last(), now), steps.last(), now)
    }
}

/// The locks after the steps, in order.
pub open spec fn applied_locks(ls: Seq<PartitionLock>, steps: Seq<StepView>, now: u64, sp: bool) -> Seq<PartitionLock>
    decreases steps.len(),
{
    if steps.len() == 0 {
        ls
    } else {
        released_locks(applied_locks(ls, steps.drop_last(), now, sp), step_partitions(steps.last()), now, sp)
    }
}

/// The steps of a tick's bookkeeping: the successes marked processed (or
/// deleted); then, if anything failed, the failures counted.
pub open spec fn tick_steps(batch: Seq<OutboxView>, failed: Seq<OutboxView>, s: Settings) -> Seq<StepView> {
    let ok = success_set(batch, failed);
    let first = if s.delete_after_process_successfully {
        StepView::Delete(keys_of(ok), partitions_of(ok))
    } else {
        StepView::Mark(keys_of(ok), partitions_of(ok))
    };
    if failed.len() > 0 {
        seq![
            first,
            StepView::Increase(
                keys_of(failed),
                partitions_of(failed),
                millis_of(s.delay_for_failure_attempt_in_seconds),
            ),
        ]
    } else {
        seq![first]
    }
}

impl OutboxRepository {
    /// Applies one bookkeeping step and releases its partitions, along with
    /// every lock whose time is up.
    pub fn apply_step(&mut self, step: &BookkeepingStep, scheduled_purge: bool, now: u64)
        requires
            old(self).wf(),
        ensures
            final(self).wf(),
            final(self).cleaner_schedule == old(self).cleaner_schedule,
            final(self).records_view() == step_records(old(self).records_view(), step@, now),
            final(self).locks@ == released_locks(old(self).locks@, step_partitions(step@), now, scheduled_purge),
    {
        match step {
            BookkeepingStep::MarkProcessed { keys, partitions } => {
                self.mark_keys_processed(keys, partitions, now, scheduled_purge)
            },
            BookkeepingStep::DeleteProcessed { keys, partitions } => {
                self.delete_keys(keys, partitions, now, scheduled_purge)
            },
            BookkeepingStep::IncreaseAttempts { keys, partitions, delay } => {
                let d = match delay {
                    Some(d) => *d,
                    None => 0,
                };
                self.increase_key_attempts(keys, partitions, d, now, scheduled_purge)
            },
        }
    }
}

impl OutboxProcessor {
    pub fn new(resources: OutboxProcessorResources) -> (r: Self)
        ensures
            r.resources == resources,
    {
        OutboxProcessor { resources }
    }

    /// The records of the batch that failed in no sink, in batch order.
    pub fn successful_outboxes(batch: &Vec<Outbox>, failed: &Vec<Outbox>) -> (r: Vec<Outbox>)
        ensures
            outboxes_view(r@) == success_set(outboxes_view(batch@), outboxes_view(failed@)),
    {
        let keys = idempotent_keys(failed);
        let ghost rs = outboxes_view(batch@);
        let mut out: Vec<Outbox> = Vec::new();
        let mut i: usize = 0;
        while i < batch.len()
            invariant
                rs == outboxes_view(batch@),
                keys@ == keys_of(outboxes_view(failed@)),
                0 <= i <= rs.len(),
                outboxes_view(out@) == kept_records(rs.subrange(0, i as int), keys@),
            decreases rs.len() - i,
        {
            proof {
                assert(rs[i as int] == batch@[i as int]@);
                assert(rs.subrange(0, i + 1).drop_last() =~= rs.subrange(0, i as int));
            }
            if !contains_id(&keys, batch[i].idempotent_key) {
                let x = batch[i].clone();
                let ghost before = outboxes_view(out@);
                out.push(x);
                assert(outboxes_view(out@) =~= before.push(x@));
            }
            i = i + 1;
        }
        assert(rs.subrange(0, rs.len() as int) =~= rs);
        out
    }

    /// The run loop's decision after a tick: pause for the tick interval
    /// when the tick found nothing or failed, go on at once otherwise.
    pub fn should_pause(outcome: &Result<usize, crate::error::OutboxPatternProcessorError>) -> (r: bool)
        ensures
            r == match outcome {
                Ok(n) => *n == 0,
                Err(_) => true,
            },
    {
        match outcome {
            Ok(n) => *n == 0,
            Err(_) => true,
        }
    }

    /// The first half of a tick: takes a batch under a fresh lock owned by
    /// `lock_id`, as the settings say.
    pub fn acquire(store: &mut OutboxRepository, settings: &Settings, lock_id: u128, now: u64) -> (batch: Vec<Outbox>)
        requires
            old(store).wf(),
        ensures
            final(store).wf(),
            final(store).records@ == old(store).records@,
            final(store).cleaner_schedule == old(store).cleaner_schedule,
            is_batch_of(
                outboxes_view(batch@),
                old(store).records_view(),
                old(store).locks@,
                settings.outbox_query_limit,
                settings.outbox_failure_limit,
                now,
            ),
            final(store).locks@ == old(store).locks@ + crate::repository::locks_for(
                outboxes_view(batch@),
                lock_id,
                crate::repository::sat_add(now, millis_of(settings.max_in_flight_interval_in_seconds)),
            ),
    {
        let in_flight = seconds_to_millis(settings.max_in_flight_interval_in_seconds);
        store.list(settings.outbox_query_limit, settings.outbox_failure_limit, in_flight, lock_id, now)
    }

    /// The bookkeeping of a tick as steps, for a store to apply in order
    /// in one transaction.
    pub fn bookkeeping_plan(batch: &Vec<Outbox>, failed: &Vec<Outbox>, settings: &Settings) -> (r: BookkeepingPlan)
        ensures
            steps_view(r.steps@) == tick_steps(outboxes_view(batch@), outboxes_view(failed@), *settings),
            r.scheduled_purge == settings.scheduled_clear_locked_partition,
    {
        let success = OutboxProcessor::successful_outboxes(batch, failed);
        let keys = idempotent_keys(&success);
        let partitions = partition_keys(&success);
        let first = if settings.delete_after_process_successfully {
            BookkeepingStep::DeleteProcessed { keys, partitions }
        } else {
            BookkeepingStep::MarkProcessed { keys, partitions }
        };
        let mut steps: Vec<BookkeepingStep> = Vec::new();
        steps.push(first);
        if failed.len() > 0 {
            let ms = seconds_to_millis(settings.delay_for_failure_attempt_in_seconds);
            let delay = if ms > 0 {
                Some(ms)
            } else {
                None
            };
            steps.push(
                BookkeepingStep::IncreaseAttempts {
                    keys: idempotent_keys(failed),
                    partitions: partition_keys(failed),
                    delay,
                },
            );
        }
        proof {
            assert(steps_view(steps@) =~= tick_steps(outboxes_view(batch@), outboxes_view(failed@), *settings));
        }
        BookkeepingPlan { steps, scheduled_purge: settings.scheduled_clear_locked_partition }
    }

    /// The second half of a tick, in one step: applies the bookkeeping plan,
    /// which marks (or deletes) the records that failed in no sink, counts an
    /// attempt for each failed one (pushing its partition back when a failure
    /// delay is set), and releases every partition of the batch along with
    /// all expired locks. Returns the size of the batch.
    pub fn complete(
        store: &mut OutboxRepository,
        batch: &Vec<Outbox>,
        failed: &Vec<Outbox>,
        settings: &Settings,
        now: u64,
    ) -> (r: usize)
        requires
            old(store).wf(),
        ensures
            r == batch@.len(),
            final(store).wf(),
            final(store).cleaner_schedule == old(store).cleaner_schedule,
            final(store).records_view() == settled_records(
                old(store).records_view(),
                outboxes_view(batch@),
                outboxes_view(failed@),
                *settings,
                now,
            ),
            final(store).locks@ == settled_locks(
                old(store).locks@,
                outboxes_view(batch@),
                outboxes_view(failed@),
                *settings,
                now,
            ),
    {
        let plan = OutboxProcessor::bookkeeping_plan(batch, failed, settings);
        let ghost sv = steps_view(plan.steps@);
        let ghost rs = store.records_view();
        let ghost ls = store.locks@;
        let mut i: usize = 0;
        while i < plan.steps.len()
            invariant
                sv == steps_view(plan.steps@),
                0 <= i <= sv.len(),
                store.wf(),
                store.cleaner_schedule == old(store).cleaner_schedule,
                store.records_view() == applied_records(rs, sv.subrange(0, i as int), now),
                store.locks@ == applied_locks(ls, sv.subrange(0, i as int), now, plan.scheduled_purge),
            decreases sv.len() - i,
        {
            store.apply_step(&plan.steps[i], plan.scheduled_purge, now);
            proof {
                assert(sv.subrange(0, i + 1).drop_last() =~= sv.subrange(0, i as int));
                assert(sv[i as int] == plan.steps@[i as int]@);
            }
            i = i + 1;
        }
        proof {
            assert(sv.subrange(0, sv.len() as int) =~= sv);
            let bv = outboxes_view(batch@);
            let fv = outboxes_view(failed@);
            let sp = plan.scheduled_purge;
            let one = seq![sv[0]];
            assert(one.drop_last() =~= Seq::<StepView>::empty());
            assert(one.last() == sv[0]);
            assert(applied_records(rs, one.drop_last(), now) == rs);
            assert(applied_locks(ls, one.drop_last(), now, sp) == ls);
            assert(applied_records(rs, one, now) == step_records(rs, sv[0], now));
            assert(applied_locks(ls, one, now, sp) == released_locks(ls, step_partitions(sv[0]), now, sp));
            if fv.len() > 0 {
                assert(sv.drop_last() =~= one);
                assert(sv.last() == sv[1]);
                assert(applied_records(rs, sv, now) == step_records(applied_records(rs, one, now), sv[1], now));
                assert(applied_locks(ls, sv, now, sp) == released_locks(
                    applied_locks(ls, one, now, sp),
                    step_partitions(sv[1]),
                    now,
                    sp,
                ));
            } else {
                assert(sv =~= one);
            }
        }
        batch.len()
    }
}

} // verus!
