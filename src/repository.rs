use vstd::prelude::*;
use crate::error::OutboxPatternProcessorError;
use crate::outbox::{
    contains_id, idempotent_keys, keys_of, outboxes_view, partition_keys, partitions_of, Outbox,
    OutboxView,
};

verus! {

/// A worker's claim on a partition. Active while `processed_at` is `None`;
/// afterwards a tombstone kept until the janitor purges it.
#[derive(Debug, Clone, Copy, PartialEq, Eq, Structural)]
pub struct PartitionLock {
    pub partition_key: u128,
    pub lock_id: u128,
    pub processing_until: u64,
    pub processed_at: Option<u64>,
}

/// The janitor's schedule: a six-field cron expression (with seconds) and the
/// time of its last run.
#[derive(Debug)]
pub struct OutboxCleanerSchedule {
    pub cron_expression: String,
    pub last_execution: u64,
}

/// The record store: outbox records, partition locks and the janitor's
/// schedule. Every change of shared state goes through its methods.
#[derive(Debug)]
pub struct OutboxRepository {
    pub records: Vec<Outbox>,
    pub locks: Vec<PartitionLock>,
    pub cleaner_schedule: Option<OutboxCleanerSchedule>,
}

/// A lock that still holds its partition.
pub open spec fn is_active(l: PartitionLock) -> bool {
    l.processed_at is None
}

/// Some active lock holds the partition.
pub open spec fn has_active_lock(locks: Seq<PartitionLock>, pk: u128) -> bool {
    exists|i: int| 0 <= i < locks.len() && locks[i].partition_key == pk && is_active(locks[i])
}

/// At most one active lock per partition.
pub open spec fn locks_wf(locks: Seq<PartitionLock>) -> bool {
    forall|i: int, j: int|
        0 <= i < locks.len() && 0 <= j < locks.len() && i != j && is_active(locks[i])
            && is_active(locks[j]) ==> locks[i].partition_key != locks[j].partition_key
}

/// No two records share an idempotent key.
pub open spec fn keys_unique(rs: Seq<OutboxView>) -> bool {
    forall|i: int, j: int|
        0 <= i < rs.len() && 0 <= j < rs.len() && i != j ==> rs[i].idempotent_key
            != rs[j].idempotent_key
}

/// A record that a tick may dispatch, lock aside: not processed, due, and
/// with attempts left.
pub open spec fn is_eligible(r: OutboxView, now: u64, fail_limit: u32) -> bool {
    r.processed_at is None && r.process_after < now && r.attempts < fail_limit
}

/// An eligible record whose partition no active lock holds.
pub open spec fn is_ready(
    r: OutboxView,
    locks: Seq<PartitionLock>,
    now: u64,
    fail_limit: u32,
) -> bool {
    is_eligible(r, now, fail_limit) && !has_active_lock(locks, r.partition_key)
}

/// Record `i` comes before record `j` in dispatch order: earlier
/// `process_after`, ties broken by position in the store.
pub open spec fn precedes(rs: Seq<OutboxView>, i: int, j: int) -> bool {
    rs[i].process_after < rs[j].process_after || (rs[i].process_after == rs[j].process_after
        && i <= j)
}

/// Some record of the list belongs to the partition.
pub open spec fn in_partitions(batch: Seq<OutboxView>, pk: u128) -> bool {
    exists|k: int| 0 <= k < batch.len() && batch[k].partition_key == pk
}

/// The lock a tick takes on a partition.
pub open spec fn new_lock(pk: u128, lock_id: u128, until: u64) -> PartitionLock {
    PartitionLock { partition_key: pk, lock_id, processing_until: until, processed_at: None }
}

/// `a + b`, capped at the largest `u64`.
pub open spec fn sat_add(a: u64, b: u64) -> u64 {
    if a + b > u64::MAX {
        u64::MAX
    } else {
        (a + b) as u64
    }
}


/// The locks a tick takes on the partitions of its batch, in order.
pub open spec fn locks_for(batch: Seq<OutboxView>, lock_id: u128, until: u64) -> Seq<PartitionLock> {
    batch.map_values(|o: OutboxView| new_lock(o.partition_key, lock_id, until))
}

/// What every prefix of a batch taken from `rs` under `locks` holds: each
/// record is a stored one, ready, and the oldest eligible record of its
/// partition, ties going to the record stored first; no two share a
/// partition; and the partitions come in the order of their oldest ready
/// record.
pub open spec fn batch_progress(
    batch: Seq<OutboxView>,
    rs: Seq<OutboxView>,
    locks: Seq<PartitionLock>,
    fail_limit: u32,
    now: u64,
) -> bool {
    &&& forall|k: int| 0 <= k < batch.len() ==> rs.contains(#[trigger] batch[k])
    &&& forall|k: int| 0 <= k < batch.len() ==> is_ready(#[trigger] batch[k], locks, now, fail_limit)
    &&& forall|k: int, j: int|
        0 <= k < batch.len() && 0 <= j < rs.len() && is_eligible(rs[j], now, fail_limit)
            && rs[j].partition_key == batch[k].partition_key ==> batch[k].process_after
            <= rs[j].process_after
    &&& forall|i: int, j: int|
        0 <= i < rs.len() && 0 <= j < rs.len() && batch.contains(rs[i]) && is_eligible(
            rs[j],
            now,
            fail_limit,
        ) && rs[j].partition_key == rs[i].partition_key ==> #[trigger] precedes(rs, i, j)
    &&& forall|k1: int, k2: int|
        0 <= k1 < batch.len() && 0 <= k2 < batch.len() && k1 != k2 ==> batch[k1].partition_key
            != batch[k2].partition_key
    &&& forall|k: int, j: int|
        0 <= k < batch.len() && 0 <= j < rs.len() && is_ready(rs[j], locks, now, fail_limit)
            && !in_partitions(batch, rs[j].partition_key) ==> batch[k].process_after
            <= rs[j].process_after
}

/// What a batch taken from `rs` under `locks` promises: at most `limit`
/// records, each of them as `batch_progress` says, and a batch shorter than
/// `limit` leaves no ready partition behind.
pub open spec fn is_batch_of(
    batch: Seq<OutboxView>,
    rs: Seq<OutboxView>,
    locks: Seq<PartitionLock>,
    limit: u32,
    fail_limit: u32,
    now: u64,
) -> bool {
    &&& batch.len() <= limit
    &&& batch_progress(batch, rs, locks, fail_limit, now)
    &&& batch.len() < limit ==> forall|j: int|
        0 <= j < rs.len() && is_ready(rs[j], locks, now, fail_limit) ==> in_partitions(
            batch,
            rs[j].partition_key,
        )
}


/// `a + 1`, capped at the largest `u32`.
pub open spec fn sat_inc(a: u32) -> u32 {
    if a == u32::MAX {
        a
    } else {
        (a + 1) as u32
    }
}

/// A release sweep clears this lock: its partition is being released and it
/// is active, or its time is up.
pub open spec fn lock_released(l: PartitionLock, pks: Seq<u128>, now: u64) -> bool {
    (pks.contains(l.partition_key) && is_active(l)) || l.processing_until < now
}

/// The lock, closed at `now` and kept as a tombstone.
pub open spec fn tombstone(l: PartitionLock, now: u64) -> PartitionLock {
    PartitionLock { processed_at: Some(now), ..l }
}

/// The locks after a release of `pks` at `now`: each released lock is
/// tombstoned under scheduled purge and deleted otherwise.
pub open spec fn released_locks(
    ls: Seq<PartitionLock>,
    pks: Seq<u128>,
    now: u64,
    scheduled_purge: bool,
) -> Seq<PartitionLock>
    decreases ls.len(),
{
    if ls.len() == 0 {
        ls
    } else {
        let rest = released_locks(ls.drop_last(), pks, now, scheduled_purge);
        let l = ls.last();
        if lock_released(l, pks, now) {
            if scheduled_purge {
                rest.push(tombstone(l, now))
            } else {
                rest
            }
        } else {
            rest.push(l)
        }
    }
}

/// A tombstone whose closing time lies before `now`.
pub open spec fn is_stale_tombstone(l: PartitionLock, now: u64) -> bool {
    l.processed_at matches Some(t) && t < now
}

/// The locks after the janitor's purge at `now`.
pub open spec fn purged_locks(ls: Seq<PartitionLock>, now: u64) -> Seq<PartitionLock>
    decreases ls.len(),
{
    if ls.len() == 0 {
        ls
    } else {
        let rest = purged_locks(ls.drop_last(), now);
        if is_stale_tombstone(ls.last(), now) {
            rest
        } else {
            rest.push(ls.last())
        }
    }
}

/// A record after being marked processed at `now`, if its key is listed.
pub open spec fn mark_record(r: OutboxView, keys: Seq<u128>, now: u64) -> OutboxView {
    if keys.contains(r.idempotent_key) {
        OutboxView { processed_at: Some(now), attempts: sat_inc(r.attempts), ..r }
    } else {
        r
    }
}

/// The records after marking the listed keys processed at `now`.
pub open spec fn marked_records(rs: Seq<OutboxView>, keys: Seq<u128>, now: u64) -> Seq<OutboxView>
    decreases rs.len(),
{
    if rs.len() == 0 {
        rs
    } else {
        marked_records(rs.drop_last(), keys, now).push(mark_record(rs.last(), keys, now))
    }
}

/// A record after a failed delivery round: one more attempt if its key is
/// listed; its `process_after` pushed to `now + delay` if the delay is on,
/// its partition failed and it is not processed.
pub open spec fn fail_record(
    r: OutboxView,
    keys: Seq<u128>,
    pks: Seq<u128>,
    delay: u64,
    now: u64,
) -> OutboxView {
    OutboxView {
        process_after: if delay > 0 && pks.contains(r.partition_key) && r.processed_at is None {
            sat_add(now, delay)
        } else {
            r.process_after
        },
        attempts: if keys.contains(r.idempotent_key) {
            sat_inc(r.attempts)
        } else {
            r.attempts
        },
        ..r
    }
}

/// The records after a failed delivery round.
pub open spec fn failed_records(
    rs: Seq<OutboxView>,
    keys: Seq<u128>,
    pks: Seq<u128>,
    delay: u64,
    now: u64,
) -> Seq<OutboxView>
    decreases rs.len(),
{
    if rs.len() == 0 {
        rs
    } else {
        failed_records(rs.drop_last(), keys, pks, delay, now).push(
            fail_record(rs.last(), keys, pks, delay, now),
        )
    }
}

/// The records whose key is not listed, in order.
pub open spec fn kept_records(rs: Seq<OutboxView>, keys: Seq<u128>) -> Seq<OutboxView>
    decreases rs.len(),
{
    if rs.len() == 0 {
        rs
    } else {
        let rest = kept_records(rs.drop_last(), keys);
        if keys.contains(rs.last().idempotent_key) {
            rest
        } else {
            rest.push(rs.last())
        }
    }
}

/// `b` is what `a` became: same record, no fewer attempts, and processed if
/// `a` was.
pub open spec fn record_advanced(a: OutboxView, b: OutboxView) -> bool {
    &&& a.idempotent_key == b.idempotent_key
    &&& a.attempts <= b.attempts
    &&& a.processed_at is Some ==> b.processed_at is Some
}

/// `b` advanced from some record of `old`.
pub open spec fn advanced_from(old: Seq<OutboxView>, b: OutboxView) -> bool {
    exists|i: int| 0 <= i < old.len() && #[trigger] record_advanced(old[i], b)
}

/// Every record of `new` advanced from a record of `old`.
pub open spec fn records_evolve(old: Seq<OutboxView>, new: Seq<OutboxView>) -> bool {
    forall|j: int| 0 <= j < new.len() ==> #[trigger] advanced_from(old, new[j])
}

/// Every active lock left by a release was there before and is not one the
/// release clears; a release keeps at most one active lock per partition.
pub proof fn lemma_released_locks(ls: Seq<PartitionLock>, pks: Seq<u128>, now: u64, sp: bool)
    ensures
        ({
            let res = released_locks(ls, pks, now, sp);
            &&& forall|j: int|
                0 <= j < res.len() && is_active(res[j]) ==> ls.contains(res[j]) && !lock_released(
                    res[j],
                    pks,
                    now,
                )
            &&& locks_wf(ls) ==> locks_wf(res)
        }),
    decreases ls.len(),
{
    if ls.len() > 0 {
        let rest_in = ls.drop_last();
        lemma_released_locks(rest_in, pks, now, sp);
        let res = released_locks(ls, pks, now, sp);
        let rest = released_locks(rest_in, pks, now, sp);
        let l = ls.last();
        assert forall|j: int|
            0 <= j < res.len() && is_active(res[j]) implies ls.contains(res[j]) && !lock_released(
                res[j],
                pks,
                now,
            ) by {
            if j < rest.len() {
                assert(res[j] == rest[j]);
                let i = choose|i: int| 0 <= i < rest_in.len() && rest_in[i] == rest[j];
                assert(ls[i] == rest_in[i]);
            } else {
                assert(ls[ls.len() - 1] == l);
            }
        }
        if locks_wf(ls) {
            assert(locks_wf(rest_in)) by {
                assert forall|i: int, j: int|
                    0 <= i < rest_in.len() && 0 <= j < rest_in.len() && i != j && is_active(
                        rest_in[i],
                    ) && is_active(rest_in[j]) implies rest_in[i].partition_key
                    != rest_in[j].partition_key by {
                    assert(rest_in[i] == ls[i]);
                    assert(rest_in[j] == ls[j]);
                }
            }
            assert forall|a: int, b: int|
                0 <= a < res.len() && 0 <= b < res.len() && a != b && is_active(res[a])
                    && is_active(res[b]) implies res[a].partition_key != res[b].partition_key by {
                if a < rest.len() && b < rest.len() {
                    assert(res[a] == rest[a]);
                    assert(res[b] == rest[b]);
                } else {
                    let o = if a < rest.len() {
                        a
                    } else {
                        b
                    };
                    assert(res[o] == rest[o]);
                    let i = choose|i: int| 0 <= i < rest_in.len() && rest_in[i] == rest[o];
                    assert(ls[i] == rest_in[i]);
                    assert(is_active(l));
                    assert(ls[ls.len() - 1] == l);
                }
            }
        }
    }
}

/// A purge keeps every active lock, drops every stale tombstone, and keeps
/// at most one active lock per partition.
pub proof fn lemma_purged_locks(ls: Seq<PartitionLock>, now: u64)
    ensures
        ({
            let res = purged_locks(ls, now);
            &&& forall|j: int|
                0 <= j < res.len() ==> ls.contains(res[j]) && !is_stale_tombstone(res[j], now)
            &&& forall|i: int|
                0 <= i < ls.len() && is_active(ls[i]) ==> res.contains(ls[i])
            &&& locks_wf(ls) ==> locks_wf(res)
        }),
    decreases ls.len(),
{
    if ls.len() > 0 {
        let rest_in = ls.drop_last();
        lemma_purged_locks(rest_in, now);
        let res = purged_locks(ls, now);
        let rest = purged_locks(rest_in, now);
        let l = ls.last();
        assert forall|j: int| 0 <= j < res.len() implies ls.contains(res[j]) && !is_stale_tombstone(
            res[j],
            now,
        ) by {
            if j < rest.len() {
                assert(res[j] == rest[j]);
                let i = choose|i: int| 0 <= i < rest_in.len() && rest_in[i] == rest[j];
                assert(ls[i] == rest_in[i]);
            } else {
                assert(ls[ls.len() - 1] == l);
            }
        }
        assert forall|i: int| 0 <= i < ls.len() && is_active(ls[i]) implies res.contains(ls[i]) by {
            if i < ls.len() - 1 {
                assert(rest_in[i] == ls[i]);
                let j = choose|j: int| 0 <= j < rest.len() && rest[j] == rest_in[i];
                assert(res[j] == rest[j]);
            } else {
                assert(res[res.len() - 1] == l);
            }
        }
        if locks_wf(ls) {
            assert(locks_wf(rest_in)) by {
                assert forall|i: int, j: int|
                    0 <= i < rest_in.len() && 0 <= j < rest_in.len() && i != j && is_active(
                        rest_in[i],
                    ) && is_active(rest_in[j]) implies rest_in[i].partition_key
                    != rest_in[j].partition_key by {
                    assert(rest_in[i] == ls[i]);
                    assert(rest_in[j] == ls[j]);
                }
            }
            assert forall|a: int, b: int|
                0 <= a < res.len() && 0 <= b < res.len() && a != b && is_active(res[a])
                    && is_active(res[b]) implies res[a].partition_key != res[b].partition_key by {
                if a < rest.len() && b < rest.len() {
                    assert(res[a] == rest[a]);
                    assert(res[b] == rest[b]);
                } else {
                    let o = if a < rest.len() {
                        a
                    } else {
                        b
                    };
                    assert(res[o] == rest[o]);
                    let i = choose|i: int| 0 <= i < rest_in.len() && rest_in[i] == rest[o];
                    assert(ls[i] == rest_in[i]);
                    assert(ls[ls.len() - 1] == l);
                }
            }
        }
    }
}

/// Marking changes records one by one, in place.
pub proof fn lemma_marked_records(rs: Seq<OutboxView>, keys: Seq<u128>, now: u64)
    ensures
        marked_records(rs, keys, now).len() == rs.len(),
        forall|i: int|
            0 <= i < rs.len() ==> marked_records(rs, keys, now)[i] == mark_record(rs[i], keys, now),
    decreases rs.len(),
{
    if rs.len() > 0 {
        lemma_marked_records(rs.drop_last(), keys, now);
    }
}

/// Counting failures changes records one by one, in place.
pub proof fn lemma_failed_records(
    rs: Seq<OutboxView>,
    keys: Seq<u128>,
    pks: Seq<u128>,
    delay: u64,
    now: u64,
)
    ensures
        failed_records(rs, keys, pks, delay, now).len() == rs.len(),
        forall|i: int|
            0 <= i < rs.len() ==> failed_records(rs, keys, pks, delay, now)[i] == fail_record(
                rs[i],
                keys,
                pks,
                delay,
                now,
            ),
    decreases rs.len(),
{
    if rs.len() > 0 {
        lemma_failed_records(rs.drop_last(), keys, pks, delay, now);
    }
}

/// Deleting keeps exactly the records whose key is not listed, and keeps
/// keys unique.
pub proof fn lemma_kept_records(rs: Seq<OutboxView>, keys: Seq<u128>)
    ensures
        ({
            let res = kept_records(rs, keys);
            &&& forall|j: int|
                0 <= j < res.len() ==> rs.contains(res[j]) && !keys.contains(res[j].idempotent_key)
            &&& forall|i: int|
                0 <= i < rs.len() && !keys.contains(rs[i].idempotent_key) ==> res.contains(rs[i])
            &&& keys_unique(rs) ==> keys_unique(res)
        }),
    decreases rs.len(),
{
    if rs.len() > 0 {
        let rest_in = rs.drop_last();
        lemma_kept_records(rest_in, keys);
        let res = kept_records(rs, keys);
        let rest = kept_records(rest_in, keys);
        let l = rs.last();
        assert forall|j: int| 0 <= j < res.len() implies rs.contains(res[j]) && !keys.contains(
            res[j].idempotent_key,
        ) by {
            if j < rest.len() {
                assert(res[j] == rest[j]);
                let i = choose|i: int| 0 <= i < rest_in.len() && rest_in[i] == rest[j];
                assert(rs[i] == rest_in[i]);
            } else {
                assert(rs[rs.len() - 1] == l);
            }
        }
        assert forall|i: int|
            0 <= i < rs.len() && !keys.contains(rs[i].idempotent_key) implies res.contains(rs[i]) by {
            if i < rs.len() - 1 {
                assert(rest_in[i] == rs[i]);
                let j = choose|j: int| 0 <= j < rest.len() && rest[j] == rest_in[i];
                assert(res[j] == rest[j]);
            } else {
                assert(res[res.len() - 1] == l);
            }
        }
        if keys_unique(rs) {
            assert(keys_unique(rest_in)) by {
                assert forall|i: int, j: int|
                    0 <= i < rest_in.len() && 0 <= j < rest_in.len() && i != j implies rest_in[i].idempotent_key
                    != rest_in[j].idempotent_key by {
                    assert(rest_in[i] == rs[i]);
                    assert(rest_in[j] == rs[j]);
                }
            }
            assert forall|a: int, b: int|
                0 <= a < res.len() && 0 <= b < res.len() && a != b implies res[a].idempotent_key
                != res[b].idempotent_key by {
                if a < rest.len() && b < rest.len() {
                    assert(res[a] == rest[a]);
                    assert(res[b] == rest[b]);
                } else {
                    let o = if a < rest.len() {
                        a
                    } else {
                        b
                    };
                    assert(res[o] == rest[o]);
                    let i = choose|i: int| 0 <= i < rest_in.len() && rest_in[i] == rest[o];
                    assert(rs[i] == rest_in[i]);
                    assert(rs[rs.len() - 1] == l);
                }
            }
        }
    }
}

impl OutboxRepository {
    /// The models of the stored records.
    pub open spec fn records_view(&self) -> Seq<OutboxView> {
        outboxes_view(self.records@)
    }

    /// The store's invariant: unique record keys, at most one active lock per
    /// partition.
    pub open spec fn wf(&self) -> bool {
        keys_unique(self.records_view()) && locks_wf(self.locks@)
    }

    /// An empty store.
    pub fn new() -> (r: Self)
        ensures
            r.wf(),
            r.records@.len() == 0,
            r.locks@.len() == 0,
            r.cleaner_schedule is None,
    {
        OutboxRepository { records: Vec::new(), locks: Vec::new(), cleaner_schedule: None }
    }

    /// Whether an active lock holds the partition.
    pub fn is_partition_locked(&self, pk: u128) -> (r: bool)
        ensures
            r == has_active_lock(self.locks@, pk),
    {
        let mut i: usize = 0;
        while i < self.locks.len()
            invariant
                0 <= i <= self.locks@.len(),
                forall|j: int|
                    0 <= j < i ==> !(self.locks@[j].partition_key == pk && is_active(
                        self.locks@[j],
                    )),
            decreases self.locks@.len() - i,
        {
            if self.locks[i].partition_key == pk && self.locks[i].processed_at.is_none() {
                return true;
            }
            i = i + 1;
        }
        false
    }

    /// The position of the first ready record in dispatch order, if any.
    fn next_ready(&self, now: u64, fail_limit: u32) -> (r: Option<usize>)
        ensures
            match r {
                None => forall|j: int|
                    0 <= j < self.records@.len() ==> !is_ready(
                        self.records_view()[j],
                        self.locks@,
                        now,
                        fail_limit,
                    ),
                Some(b) => b < self.records@.len() && is_ready(
                    self.records_view()[b as int],
                    self.locks@,
                    now,
                    fail_limit,
                ) && forall|j: int|
                    0 <= j < self.records@.len() && is_ready(
                        self.records_view()[j],
                        self.locks@,
                        now,
                        fail_limit,
                    ) ==> precedes(self.records_view(), b as int, j),
            },
    {
        let ghost rs = self.records_view();
        let mut best: Option<usize> = None;
        let mut i: usize = 0;
        while i < self.records.len()
            invariant
                0 <= i <= self.records@.len(),
                rs == self.records_view(),
                best is None ==> forall|j: int|
                    0 <= j < i ==> !is_ready(rs[j], self.locks@, now, fail_limit),
                best matches Some(b) ==> b < i && is_ready(rs[b as int], self.locks@, now, fail_limit),
                best matches Some(b) ==> forall|j: int|
                    0 <= j < i && is_ready(rs[j], self.locks@, now, fail_limit) ==> precedes(
                        rs,
                        b as int,
                        j,
                    ),
            decreases self.records@.len() - i,
        {
            let r = &self.records[i];
            assert(rs[i as int] == self.records@[i as int]@);
            let ready = r.processed_at.is_none() && r.process_after < now && r.attempts
                < fail_limit && !self.is_partition_locked(r.partition_key);
            assert(ready == is_ready(rs[i as int], self.locks@, now, fail_limit));
            let take = ready && match best {
                None => true,
                Some(b) => r.process_after < self.records[b].process_after,
            };
            proof {
                if let Some(b) = best {
                    assert(rs[b as int] == self.records@[b as int]@);
                    if take {
                        assert forall|j: int|
                            0 <= j < i + 1 && is_ready(
                                rs[j],
                                self.locks@,
                                now,
                                fail_limit,
                            ) implies precedes(rs, i as int, j) by {
                            if j < i {
                                assert(precedes(rs, b as int, j));
                            }
                        }
                    } else {
                        assert forall|j: int|
                            0 <= j < i + 1 && is_ready(
                                rs[j],
                                self.locks@,
                                now,
                                fail_limit,
                            ) implies precedes(rs, b as int, j) by {
                            if j < i {
                                assert(precedes(rs, b as int, j));
                            }
                        }
                    }
                } else {
                    assert forall|j: int| 0 <= j < i + 1 && is_ready(
                        rs[j],
                        self.locks@,
                        now,
                        fail_limit,
                    ) implies j == i by {}
                }
            }
            if take {
                best = Some(i);
            }
            i = i + 1;
        }
        best
    }


    /// Releases the partitions `pks`, and with them every lock whose time is
    /// up: deletes those locks, or under scheduled purge closes them at `now`.
    pub fn release_locks(&mut self, pks: &Vec<u128>, now: u64, scheduled_purge: bool)
        requires
            old(self).wf(),
        ensures
            final(self).wf(),
            final(self).records@ == old(self).records@,
            final(self).cleaner_schedule == old(self).cleaner_schedule,
            final(self).locks@ == released_locks(old(self).locks@, pks@, now, scheduled_purge),
            forall|j: int|
                0 <= j < final(self).locks@.len() && is_active(final(self).locks@[j]) ==> !pks@.contains(
                    final(self).locks@[j].partition_key,
                ) && now <= final(self).locks@[j].processing_until,
    {
        let ghost ls = self.locks@;
        let mut out: Vec<PartitionLock> = Vec::new();
        let mut i: usize = 0;
        while i < self.locks.len()
            invariant
                ls == self.locks@,
                0 <= i <= ls.len(),
                out@ == released_locks(ls.subrange(0, i as int), pks@, now, scheduled_purge),
            decreases ls.len() - i,
        {
            let l = self.locks[i];
            let hit = (contains_id(pks, l.partition_key) && l.processed_at.is_none())
                || l.processing_until < now;
            if hit {
                if scheduled_purge {
                    out.push(PartitionLock { processed_at: Some(now), ..l });
                }
            } else {
                out.push(l);
            }
            proof {
                assert(ls.subrange(0, i + 1).drop_last() =~= ls.subrange(0, i as int));
            }
            i = i + 1;
        }
        proof {
            assert(ls.subrange(0, ls.len() as int) =~= ls);
            lemma_released_locks(ls, pks@, now, scheduled_purge);
        }
        self.locks = out;
    }

    /// Marks the records with these keys processed at `now`, one more
    /// attempt each, then releases the partitions `pks`.
    pub fn mark_keys_processed(&mut self, keys: &Vec<u128>, pks: &Vec<u128>, now: u64, scheduled_purge: bool)
        requires
            old(self).wf(),
        ensures
            final(self).wf(),
            final(self).records_view() == marked_records(old(self).records_view(), keys@, now),
            final(self).locks@ == released_locks(old(self).locks@, pks@, now, scheduled_purge),
            final(self).cleaner_schedule == old(self).cleaner_schedule,
    {
        let ghost rs = self.records_view();
        let mut out: Vec<Outbox> = Vec::new();
        let mut i: usize = 0;
        while i < self.records.len()
            invariant
                rs == self.records_view(),
                0 <= i <= rs.len(),
                outboxes_view(out@) == marked_records(rs.subrange(0, i as int), keys@, now),
            decreases rs.len() - i,
        {
            let mut r = self.records[i].clone();
            if contains_id(keys, r.idempotent_key) {
                r.processed_at = Some(now);
                r.attempts = r.attempts.saturating_add(1);
            }
            let ghost before = outboxes_view(out@);
            out.push(r);
            proof {
                assert(rs[i as int] == self.records@[i as int]@);
                assert(rs.subrange(0, i + 1).drop_last() =~= rs.subrange(0, i as int));
                assert(outboxes_view(out@) =~= before.push(r@));
            }
            i = i + 1;
        }
        proof {
            assert(rs.subrange(0, rs.len() as int) =~= rs);
            lemma_marked_records(rs, keys@, now);
            assert(keys_of(self.records_view()) =~= keys_of(outboxes_view(out@)));
        }
        self.records = out;
        self.release_locks(pks, now, scheduled_purge);
    }

    /// Marks the listed records processed at `now`, one more attempt each,
    /// then releases their partitions.
    pub fn mark_as_processed(&mut self, outboxes: &Vec<Outbox>, now: u64, scheduled_purge: bool)
        requires
            old(self).wf(),
        ensures
            final(self).wf(),
            final(self).records_view() == marked_records(
                old(self).records_view(),
                keys_of(outboxes_view(outboxes@)),
                now,
            ),
            final(self).locks@ == released_locks(
                old(self).locks@,
                partitions_of(outboxes_view(outboxes@)),
                now,
                scheduled_purge,
            ),
            final(self).cleaner_schedule == old(self).cleaner_schedule,
    {
        let keys = idempotent_keys(outboxes);
        let pks = partition_keys(outboxes);
        self.mark_keys_processed(&keys, &pks, now, scheduled_purge);
    }

    /// Deletes the records with these keys, then releases the partitions
    /// `pks`.
    pub fn delete_keys(&mut self, keys: &Vec<u128>, pks: &Vec<u128>, now: u64, scheduled_purge: bool)
        requires
            old(self).wf(),
        ensures
            final(self).wf(),
            final(self).records_view() == kept_records(old(self).records_view(), keys@),
            final(self).locks@ == released_locks(old(self).locks@, pks@, now, scheduled_purge),
            final(self).cleaner_schedule == old(self).cleaner_schedule,
    {
        let ghost rs = self.records_view();
        let mut out: Vec<Outbox> = Vec::new();
        let mut i: usize = 0;
        while i < self.records.len()
            invariant
                rs == self.records_view(),
                0 <= i <= rs.len(),
                outboxes_view(out@) == kept_records(rs.subrange(0, i as int), keys@),
            decreases rs.len() - i,
        {
            proof {
                assert(rs[i as int] == self.records@[i as int]@);
                assert(rs.subrange(0, i + 1).drop_last() =~= rs.subrange(0, i as int));
            }
            if !contains_id(keys, self.records[i].idempotent_key) {
                let r = self.records[i].clone();
                let ghost before = outboxes_view(out@);
                out.push(r);
                assert(outboxes_view(out@) =~= before.push(r@));
            }
            i = i + 1;
        }
        proof {
            assert(rs.subrange(0, rs.len() as int) =~= rs);
            lemma_kept_records(rs, keys@);
        }
        self.records = out;
        self.release_locks(pks, now, scheduled_purge);
    }

    /// Deletes the listed records, then releases their partitions.
    pub fn delete_processed(&mut self, outboxes: &Vec<Outbox>, now: u64, scheduled_purge: bool)
        requires
            old(self).wf(),
        ensures
            final(self).wf(),
            final(self).records_view() == kept_records(
                old(self).records_view(),
                keys_of(outboxes_view(outboxes@)),
            ),
            final(self).locks@ == released_locks(
                old(self).locks@,
                partitions_of(outboxes_view(outboxes@)),
                now,
                scheduled_purge,
            ),
            final(self).cleaner_schedule == old(self).cleaner_schedule,
    {
        let keys = idempotent_keys(outboxes);
        let pks = partition_keys(outboxes);
        self.delete_keys(&keys, &pks, now, scheduled_purge);
    }

    /// Counts one more attempt for the records with these keys; with a
    /// positive `delay`, first pushes `process_after` to `now + delay` for
    /// every unprocessed record of the partitions `pks`, so that a partition
    /// keeps its order; then releases those partitions.
    pub fn increase_key_attempts(
        &mut self,
        keys: &Vec<u128>,
        pks: &Vec<u128>,
        delay: u64,
        now: u64,
        scheduled_purge: bool,
    )
        requires
            old(self).wf(),
        ensures
            final(self).wf(),
            final(self).records_view() == failed_records(old(self).records_view(), keys@, pks@, delay, now),
            final(self).locks@ == released_locks(old(self).locks@, pks@, now, scheduled_purge),
            final(self).cleaner_schedule == old(self).cleaner_schedule,
    {
        let until = now.saturating_add(delay);
        let ghost rs = self.records_view();
        let mut out: Vec<Outbox> = Vec::new();
        let mut i: usize = 0;
        while i < self.records.len()
            invariant
                rs == self.records_view(),
                0 <= i <= rs.len(),
                until == sat_add(now, delay),
                outboxes_view(out@) == failed_records(
                    rs.subrange(0, i as int),
                    keys@,
                    pks@,
                    delay,
                    now,
                ),
            decreases rs.len() - i,
        {
            let mut r = self.records[i].clone();
            if delay > 0 && r.processed_at.is_none() && contains_id(pks, r.partition_key) {
                r.process_after = until;
            }
            if contains_id(keys, r.idempotent_key) {
                r.attempts = r.attempts.saturating_add(1);
            }
            let ghost before = outboxes_view(out@);
            out.push(r);
            proof {
                assert(rs[i as int] == self.records@[i as int]@);
                assert(rs.subrange(0, i + 1).drop_last() =~= rs.subrange(0, i as int));
                assert(outboxes_view(out@) =~= before.push(r@));
            }
            i = i + 1;
        }
        proof {
            assert(rs.subrange(0, rs.len() as int) =~= rs);
            lemma_failed_records(rs, keys@, pks@, delay, now);
            assert(keys_of(self.records_view()) =~= keys_of(outboxes_view(out@)));
        }
        self.records = out;
        self.release_locks(pks, now, scheduled_purge);
    }

    /// Counts one more attempt for each listed record; with a positive
    /// `delay`, first pushes `process_after` to `now + delay` for every
    /// unprocessed record of their partitions; then releases those
    /// partitions.
    pub fn increase_attempts(
        &mut self,
        outboxes: &Vec<Outbox>,
        delay: u64,
        now: u64,
        scheduled_purge: bool,
    )
        requires
            old(self).wf(),
        ensures
            final(self).wf(),
            final(self).records_view() == failed_records(
                old(self).records_view(),
                keys_of(outboxes_view(outboxes@)),
                partitions_of(outboxes_view(outboxes@)),
                delay,
                now,
            ),
            final(self).locks@ == released_locks(
                old(self).locks@,
                partitions_of(outboxes_view(outboxes@)),
                now,
                scheduled_purge,
            ),
            final(self).cleaner_schedule == old(self).cleaner_schedule,
    {
        let keys = idempotent_keys(outboxes);
        let pks = partition_keys(outboxes);
        self.increase_key_attempts(&keys, &pks, delay, now, scheduled_purge);
    }

    /// The janitor's purge: deletes every tombstone closed before `now`.
    pub fn clear_processed_locked_partition_key(&mut self, now: u64)
        requires
            old(self).wf(),
        ensures
            final(self).wf(),
            final(self).records@ == old(self).records@,
            final(self).cleaner_schedule == old(self).cleaner_schedule,
            final(self).locks@ == purged_locks(old(self).locks@, now),
    {
        let ghost ls = self.locks@;
        let mut out: Vec<PartitionLock> = Vec::new();
        let mut i: usize = 0;
        while i < self.locks.len()
            invariant
                ls == self.locks@,
                0 <= i <= ls.len(),
                out@ == purged_locks(ls.subrange(0, i as int), now),
            decreases ls.len() - i,
        {
            let l = self.locks[i];
            let stale = match l.processed_at {
                Some(t) => t < now,
                None => false,
            };
            if !stale {
                out.push(l);
            }
            proof {
                assert(ls.subrange(0, i + 1).drop_last() =~= ls.subrange(0, i as int));
            }
            i = i + 1;
        }
        proof {
            assert(ls.subrange(0, ls.len() as int) =~= ls);
            lemma_purged_locks(ls, now);
        }
        self.locks = out;
    }

    /// Records `now` as the janitor's last run, where a schedule exists.
    pub fn update_last_cleaner_execution(&mut self, now: u64)
        requires
            old(self).wf(),
        ensures
            final(self).wf(),
            final(self).records@ == old(self).records@,
            final(self).locks@ == old(self).locks@,
            match old(self).cleaner_schedule {
                None => final(self).cleaner_schedule is None,
                Some(c) => final(self).cleaner_schedule matches Some(d) && d.cron_expression
                    == c.cron_expression && d.last_execution == now,
            },
    {
        if let Some(c) = &mut self.cleaner_schedule {
            c.last_execution = now;
        }
    }

    /// Sets the janitor's schedule.
    pub fn set_cleaner_schedule(&mut self, schedule: OutboxCleanerSchedule)
        requires
            old(self).wf(),
        ensures
            final(self).wf(),
            final(self).records@ == old(self).records@,
            final(self).locks@ == old(self).locks@,
            final(self).cleaner_schedule == Some(schedule),
    {
        self.cleaner_schedule = Some(schedule);
    }

    /// Whether a record with this key is stored.
    pub fn contains_key(&self, key: u128) -> (r: bool)
        ensures
            r == exists|i: int|
                0 <= i < self.records@.len() && self.records@[i].idempotent_key == key,
    {
        let mut i: usize = 0;
        while i < self.records.len()
            invariant
                0 <= i <= self.records@.len(),
                forall|j: int| 0 <= j < i ==> self.records@[j].idempotent_key != key,
            decreases self.records@.len() - i,
        {
            if self.records[i].idempotent_key == key {
                return true;
            }
            i = i + 1;
        }
        false
    }


    /// The janitor's schedule, if one is set.
    pub fn find_cleaner_schedule(&self) -> (r: Option<&OutboxCleanerSchedule>)
        ensures
            match self.cleaner_schedule {
                None => r is None,
                Some(c) => r == Some(&c),
            },
    {
        self.cleaner_schedule.as_ref()
    }

    /// Stores several new records at once, as one producer transaction
    /// does, and returns them: all of them, or none when a key is taken or
    /// repeated.
    pub fn insert_all(&mut self, outboxes: Vec<Outbox>) -> (r: Result<Vec<Outbox>, OutboxPatternProcessorError>)
        requires
            old(self).wf(),
        ensures
            final(self).wf(),
            final(self).locks@ == old(self).locks@,
            final(self).cleaner_schedule == old(self).cleaner_schedule,
            r is Ok <==> (keys_unique(outboxes_view(outboxes@)) && forall|i: int, j: int|
                0 <= i < old(self).records@.len() && 0 <= j < outboxes@.len()
                    ==> old(self).records@[i].idempotent_key != outboxes@[j].idempotent_key),
            r is Ok ==> final(self).records@ == old(self).records@ + outboxes@,
            r matches Ok(stored) ==> outboxes_view(stored@) == outboxes_view(outboxes@),
            r is Err ==> final(self).records@ == old(self).records@,
    {
        let ghost ov = outboxes_view(outboxes@);
        let mut j: usize = 0;
        while j < outboxes.len()
            invariant
                self.wf(),
                self.records@ == old(self).records@,
                self.locks@ == old(self).locks@,
                self.cleaner_schedule == old(self).cleaner_schedule,
                ov == outboxes_view(outboxes@),
                0 <= j <= outboxes@.len(),
                forall|a: int, b: int| 0 <= a < j && 0 <= b < outboxes@.len() && a != b ==> ov[a].idempotent_key != ov[b].idempotent_key,
                forall|i: int, b: int|
                    0 <= i < self.records@.len() && 0 <= b < j ==> self.records@[i].idempotent_key
                        != outboxes@[b].idempotent_key,
            decreases outboxes@.len() - j,
        {
            if self.contains_key(outboxes[j].idempotent_key) {
                return Err(OutboxPatternProcessorError::new("duplicate idempotent_key", "Failed to insert outboxes"));
            }
            let mut k: usize = 0;
            while k < outboxes.len()
                invariant
                    self.wf(),
                    self.records@ == old(self).records@,
                    self.locks@ == old(self).locks@,
                    self.cleaner_schedule == old(self).cleaner_schedule,
                    ov == outboxes_view(outboxes@),
                    0 <= j < outboxes@.len(),
                    0 <= k <= outboxes@.len(),
                    forall|b: int| 0 <= b < k && b != j ==> ov[j as int].idempotent_key != ov[b].idempotent_key,
                decreases outboxes@.len() - k,
            {
                if k != j && outboxes[k].idempotent_key == outboxes[j].idempotent_key {
                    proof {
                        assert(ov[j as int] == outboxes@[j as int]@);
                        assert(ov[k as int] == outboxes@[k as int]@);
                    }
                    return Err(OutboxPatternProcessorError::new("duplicate idempotent_key", "Failed to insert outboxes"));
                }
                proof {
                    assert(ov[j as int] == outboxes@[j as int]@);
                    assert(ov[k as int] == outboxes@[k as int]@);
                }
                k = k + 1;
            }
            j = j + 1;
        }
        let ghost before = self.records_view();
        let ghost old_records = self.records@;
        let stored = crate::outbox::clone_outboxes(&outboxes);
        let mut more = outboxes;
        self.records.append(&mut more);
        proof {
            assert(self.records@ =~= old_records + outboxes@);
            assert(self.records_view() =~= before + ov);
            assert forall|a: int, b: int|
                0 <= a < self.records_view().len() && 0 <= b < self.records_view().len() && a != b
                    implies self.records_view()[a].idempotent_key != self.records_view()[b].idempotent_key by {
                if a < before.len() && b >= before.len() {
                    assert(old_records[a].idempotent_key != outboxes@[b - before.len()].idempotent_key);
                } else if b < before.len() && a >= before.len() {
                    assert(old_records[b].idempotent_key != outboxes@[a - before.len()].idempotent_key);
                }
            }
        }
        Ok(stored)
    }

    /// Stores a new record, as a producer does, and returns it; refused
    /// when its key is already taken.
    pub fn insert(&mut self, outbox: Outbox) -> (r: Result<Outbox, OutboxPatternProcessorError>)
        requires
            old(self).wf(),
        ensures
            final(self).wf(),
            final(self).locks@ == old(self).locks@,
            final(self).cleaner_schedule == old(self).cleaner_schedule,
            (exists|i: int|
                0 <= i < old(self).records@.len() && old(self).records@[i].idempotent_key
                    == outbox.idempotent_key) ==> r is Err && final(self).records@ == old(
                self,
            ).records@,
            !(exists|i: int|
                0 <= i < old(self).records@.len() && old(self).records@[i].idempotent_key
                    == outbox.idempotent_key) ==> r is Ok && final(self).records@ == old(
                self,
            ).records@.push(outbox),
            r matches Ok(stored) ==> stored@ == outbox@,
    {
        if self.contains_key(outbox.idempotent_key) {
            return Err(
                OutboxPatternProcessorError::new(
                    "duplicate idempotent_key",
                    "Failed to insert outbox",
                ),
            );
        }
        let ghost before = self.records_view();
        let ghost o = outbox@;
        let stored = outbox.clone();
        self.records.push(outbox);
        proof {
            assert(self.records_view() =~= before.push(o));
            assert forall|i: int, j: int|
                0 <= i < self.records_view().len() && 0 <= j < self.records_view().len() && i
                    != j implies self.records_view()[i].idempotent_key
                != self.records_view()[j].idempotent_key by {
                if i < before.len() {
                    assert(self.records_view()[i] == self.records@[i]@);
                }
                if j < before.len() {
                    assert(self.records_view()[j] == self.records@[j]@);
                }
            }
        }
        Ok(stored)
    }

    /// Takes a batch: locks up to `limit` partitions that hold a ready record,
    /// in the order of their oldest one, each with a lock owned by `lock_id`
    /// until `now + in_flight`, and returns the oldest eligible record of each
    /// locked partition. Lock taking and record selection see one state.
    pub fn list(
        &mut self,
        limit: u32,
        fail_limit: u32,
        in_flight: u64,
        lock_id: u128,
        now: u64,
    ) -> (batch: Vec<Outbox>)
        requires
            old(self).wf(),
        ensures
            final(self).wf(),
            final(self).records@ == old(self).records@,
            final(self).cleaner_schedule == old(self).cleaner_schedule,
            final(self).locks@ == old(self).locks@ + locks_for(
                outboxes_view(batch@),
                lock_id,
                sat_add(now, in_flight),
            ),
            is_batch_of(
                outboxes_view(batch@),
                old(self).records_view(),
                old(self).locks@,
                limit,
                fail_limit,
                now,
            ),
    {
        let ghost old_locks = self.locks@;
        let ghost rs = self.records_view();
        let until = now.saturating_add(in_flight);
        let mut batch: Vec<Outbox> = Vec::new();
        while batch.len() < limit as usize
            invariant
                self.wf(),
                rs == self.records_view(),
                self.records@ == old(self).records@,
                self.cleaner_schedule == old(self).cleaner_schedule,
                old_locks == old(self).locks@,
                until == sat_add(now, in_flight),
                self.locks@ == old_locks + locks_for(outboxes_view(batch@), lock_id, until),
                forall|pk: u128|
                    has_active_lock(self.locks@, pk) <==> (has_active_lock(old_locks, pk)
                        || in_partitions(outboxes_view(batch@), pk)),
                batch@.len() <= limit,
                batch_progress(outboxes_view(batch@), rs, old_locks, fail_limit, now),
            ensures
                batch@.len() < limit ==> forall|j: int|
                    0 <= j < rs.len() && is_ready(rs[j], old_locks, now, fail_limit)
                        ==> in_partitions(outboxes_view(batch@), rs[j].partition_key),
            decreases limit - batch@.len(),
        {
            let next = self.next_ready(now, fail_limit);
            match next {
                None => {
                    proof {
                        let bv = outboxes_view(batch@);
                        assert forall|j: int|
                            0 <= j < rs.len() && is_ready(
                                rs[j],
                                old_locks,
                                now,
                                fail_limit,
                            ) implies in_partitions(bv, rs[j].partition_key) by {
                            assert(!is_ready(rs[j], self.locks@, now, fail_limit));
                        }
                    }
                    break;
                },
                Some(b) => {
                    let ghost bv = outboxes_view(batch@);
                    let ghost cur_locks = self.locks@;
                    let rec = self.records[b].clone();
                    let pk = rec.partition_key;
                    proof {
                        assert(rs[b as int] == self.records@[b as int]@);
                        assert(rec@ == rs[b as int]);
                        assert(!has_active_lock(old_locks, pk));
                        assert(!in_partitions(bv, pk));
                    }
                    let lock = PartitionLock {
                        partition_key: pk,
                        lock_id,
                        processing_until: until,
                        processed_at: None,
                    };
                    self.locks.push(lock);
                    batch.push(rec);
                    proof {
                        let nbv = outboxes_view(batch@);
                        assert(nbv =~= bv.push(rs[b as int]));
                        assert(locks_for(nbv, lock_id, until) =~= locks_for(bv, lock_id, until).push(
                            lock,
                        ));
                        assert(self.locks@ =~= old_locks + locks_for(nbv, lock_id, until));
                        assert(self.locks@ =~= cur_locks.push(lock));
                        assert forall|p: u128|
                            has_active_lock(self.locks@, p) <==> (has_active_lock(old_locks, p)
                                || in_partitions(nbv, p)) by {
                            if has_active_lock(self.locks@, p) {
                                let i = choose|i: int|
                                    0 <= i < self.locks@.len() && self.locks@[i].partition_key == p
                                        && is_active(self.locks@[i]);
                                if i == cur_locks.len() {
                                    assert(nbv[bv.len() as int].partition_key == p);
                                } else {
                                    assert(cur_locks[i] == self.locks@[i]);
                                    assert(has_active_lock(cur_locks, p));
                                    if in_partitions(bv, p) {
                                        let k = choose|k: int| 0 <= k < bv.len() && bv[k].partition_key == p;
                                        assert(nbv[k] == bv[k]);
                                    }
                                }
                            }
                            if has_active_lock(old_locks, p) {
                                let i = choose|i: int|
                                    0 <= i < old_locks.len() && old_locks[i].partition_key == p
                                        && is_active(old_locks[i]);
                                assert(self.locks@[i] == old_locks[i]);
                            }
                            if in_partitions(nbv, p) {
                                let k = choose|k: int| 0 <= k < nbv.len() && nbv[k].partition_key == p;
                                if k == bv.len() {
                                    assert(self.locks@[cur_locks.len() as int] == lock);
                                } else {
                                    assert(nbv[k] == bv[k]);
                                    assert(in_partitions(bv, p));
                                    assert(has_active_lock(cur_locks, p));
                                    let i = choose|i: int|
                                        0 <= i < cur_locks.len() && cur_locks[i].partition_key == p
                                            && is_active(cur_locks[i]);
                                    assert(self.locks@[i] == cur_locks[i]);
                                }
                            }
                        }
                        assert(locks_wf(self.locks@)) by {
                            assert forall|i: int, j: int|
                                0 <= i < self.locks@.len() && 0 <= j < self.locks@.len() && i != j
                                    && is_active(self.locks@[i]) && is_active(self.locks@[j])
                                    implies self.locks@[i].partition_key
                                    != self.locks@[j].partition_key by {
                                if i == cur_locks.len() {
                                    assert(self.locks@[j] == cur_locks[j]);
                                } else if j == cur_locks.len() {
                                    assert(self.locks@[i] == cur_locks[i]);
                                } else {
                                    assert(self.locks@[i] == cur_locks[i]);
                                    assert(self.locks@[j] == cur_locks[j]);
                                }
                            }
                        }
                        assert forall|k: int|
                            0 <= k < nbv.len() implies rs.contains(#[trigger] nbv[k]) by {
                            if k < bv.len() {
                                assert(nbv[k] == bv[k]);
                            } else {
                                assert(rs[b as int] == nbv[k]);
                            }
                            assert(rs.contains(nbv[k]));
                        }
                        assert forall|k: int|
                            0 <= k < nbv.len() implies is_ready(#[trigger] nbv[k], old_locks, now, fail_limit) by {
                            if k < bv.len() {
                                assert(nbv[k] == bv[k]);
                            }
                        }
                        assert forall|k: int, j: int|
                            0 <= k < nbv.len() && 0 <= j < rs.len() && is_eligible(rs[j], now, fail_limit)
                                && rs[j].partition_key == nbv[k].partition_key implies nbv[k].process_after
                                <= rs[j].process_after by {
                            if k < bv.len() {
                                assert(nbv[k] == bv[k]);
                            } else {
                                assert(!has_active_lock(cur_locks, pk));
                                assert(is_ready(rs[j], cur_locks, now, fail_limit));
                                assert(precedes(rs, b as int, j));
                            }
                        }
                        assert forall|i: int, j: int|
                            0 <= i < rs.len() && 0 <= j < rs.len() && nbv.contains(rs[i]) && is_eligible(
                                rs[j],
                                now,
                                fail_limit,
                            ) && rs[j].partition_key == rs[i].partition_key implies #[trigger] precedes(rs, i, j) by {
                            let k = choose|k: int| 0 <= k < nbv.len() && nbv[k] == rs[i];
                            if k < bv.len() {
                                assert(nbv[k] == bv[k]);
                                assert(bv.contains(rs[i]));
                            } else {
                                assert(rs[i].idempotent_key == rs[b as int].idempotent_key);
                                assert(i == b);
                                assert(!has_active_lock(cur_locks, pk));
                                assert(is_ready(rs[j], cur_locks, now, fail_limit));
                            }
                        }
                        assert forall|k1: int, k2: int|
                            0 <= k1 < nbv.len() && 0 <= k2 < nbv.len() && k1 != k2
                                implies nbv[k1].partition_key != nbv[k2].partition_key by {
                            if k1 < bv.len() && k2 < bv.len() {
                                assert(nbv[k1] == bv[k1]);
                                assert(nbv[k2] == bv[k2]);
                            } else if k1 < bv.len() {
                                assert(nbv[k1] == bv[k1]);
                            } else {
                                assert(nbv[k2] == bv[k2]);
                            }
                        }
                        assert forall|k: int, j: int|
                            0 <= k < nbv.len() && 0 <= j < rs.len() && is_ready(
                                rs[j],
                                old_locks,
                                now,
                                fail_limit,
                            ) && !in_partitions(nbv, rs[j].partition_key) implies nbv[k].process_after
                                <= rs[j].process_after by {
                            if !in_partitions(bv, rs[j].partition_key) {
                                if k < bv.len() {
                                    assert(nbv[k] == bv[k]);
                                } else {
                                    assert(!has_active_lock(cur_locks, rs[j].partition_key));
                                    assert(is_ready(rs[j], cur_locks, now, fail_limit));
                                    assert(precedes(rs, b as int, j));
                                }
                            } else {
                                let kk = choose|kk: int| 0 <= kk < bv.len() && bv[kk].partition_key == rs[j].partition_key;
                                assert(nbv[kk] == bv[kk]);
                            }
                        }
                    }
                },
            }
        }
        batch
    }
}

} // verus!
