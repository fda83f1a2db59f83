use vstd::prelude::*;
use crate::outbox::{keys_of, partitions_of, OutboxView};
use crate::processor::{settled_locks, settled_records, success_set};
use crate::repository::{
    advanced_from, fail_record, is_active, is_batch_of, is_eligible, is_ready, keys_unique,
    kept_records, lemma_failed_records, lemma_kept_records, lemma_marked_records,
    lemma_released_locks, lock_released, locks_wf, mark_record, marked_records, record_advanced,
    records_evolve, released_locks, sat_inc, PartitionLock,
};
use crate::resources::{millis_of, Settings};

verus! {

proof fn lemma_kept_none(rs: Seq<OutboxView>)
    ensures
        kept_records(rs, Seq::empty()) == rs,
    decreases rs.len(),
{
    if rs.len() > 0 {
        lemma_kept_none(rs.drop_last());
        assert(rs.drop_last().push(rs.last()) =~= rs);
    }
}

proof fn lemma_released_none(ls: Seq<PartitionLock>, now: u64, sp: bool)
    requires
        forall|i: int| 0 <= i < ls.len() ==> now <= ls[i].processing_until,
    ensures
        released_locks(ls, Seq::empty(), now, sp) == ls,
    decreases ls.len(),
{
    if ls.len() > 0 {
        lemma_released_none(ls.drop_last(), now, sp);
        assert(ls.drop_last().push(ls.last()) =~= ls);
    }
}

proof fn lemma_active_after_release(
    ls: Seq<PartitionLock>,
    spks: Seq<u128>,
    fpks: Seq<u128>,
    two: bool,
    now: u64,
    sp: bool,
    res: Seq<PartitionLock>,
)
    requires
        res == (if two {
            released_locks(released_locks(ls, spks, now, sp), fpks, now, sp)
        } else {
            released_locks(ls, spks, now, sp)
        }),
    ensures
        forall|j: int|
            0 <= j < res.len() && is_active(#[trigger] res[j]) ==> !lock_released(res[j], spks, now)
                && (two ==> !lock_released(res[j], fpks, now)),
{
    let first = released_locks(ls, spks, now, sp);
    lemma_released_locks(ls, spks, now, sp);
    if two {
        lemma_released_locks(first, fpks, now, sp);
        assert forall|j: int| 0 <= j < res.len() && is_active(#[trigger] res[j]) implies !lock_released(
            res[j],
            spks,
            now,
        ) && !lock_released(res[j], fpks, now) by {
            let i = choose|i: int| 0 <= i < first.len() && first[i] == res[j];
            assert(is_active(first[i]));
        }
    }
}

/// Running a tick on a store where nothing is ready and no lock has expired
/// changes nothing: the batch is empty, no record changes, no lock changes.
pub proof fn lemma_idle_tick(
    rs: Seq<OutboxView>,
    ls: Seq<PartitionLock>,
    batch: Seq<OutboxView>,
    s: Settings,
    now: u64,
)
    requires
        locks_wf(ls),
        forall|j: int| 0 <= j < rs.len() ==> !is_ready(rs[j], ls, now, s.outbox_failure_limit),
        forall|i: int| 0 <= i < ls.len() ==> now <= ls[i].processing_until,
        is_batch_of(batch, rs, ls, s.outbox_query_limit, s.outbox_failure_limit, now),
    ensures
        batch.len() == 0,
        settled_records(rs, batch, Seq::empty(), s, now) == rs,
        settled_locks(ls, batch, Seq::empty(), s, now) == ls,
{
    if batch.len() > 0 {
        assert(rs.contains(batch[0]));
        assert(is_ready(batch[0], ls, now, s.outbox_failure_limit));
    }
    let failed: Seq<OutboxView> = Seq::empty();
    lemma_kept_none(batch);
    assert(keys_of(failed) =~= Seq::empty());
    let ok = keys_of(success_set(batch, failed));
    assert(ok =~= Seq::empty());
    assert(partitions_of(success_set(batch, failed)) =~= Seq::empty());
    lemma_kept_none(rs);
    lemma_marked_records(rs, ok, now);
    assert(marked_records(rs, ok, now) =~= rs);
    lemma_released_none(ls, now, s.scheduled_clear_locked_partition);
}

/// Per-partition order: while an older record of a partition is eligible, a
/// batch never takes a younger one of the same partition.
pub proof fn lemma_partition_order(
    batch: Seq<OutboxView>,
    rs: Seq<OutboxView>,
    ls: Seq<PartitionLock>,
    limit: u32,
    fail_limit: u32,
    now: u64,
    older: int,
    younger: int,
)
    requires
        is_batch_of(batch, rs, ls, limit, fail_limit, now),
        0 <= older < rs.len(),
        0 <= younger < rs.len(),
        rs[older].partition_key == rs[younger].partition_key,
        rs[older].process_after < rs[younger].process_after,
        is_eligible(rs[older], now, fail_limit),
    ensures
        !batch.contains(rs[younger]),
{
    if batch.contains(rs[younger]) {
        let k = choose|k: int| 0 <= k < batch.len() && batch[k] == rs[younger];
        assert(batch[k].process_after <= rs[older].process_after);
    }
}

/// What a tick's bookkeeping is handed: a batch taken from the store (each
/// record a stored one, keys unique) and failures drawn from that batch.
pub open spec fn tick_inputs(
    rs: Seq<OutboxView>,
    batch: Seq<OutboxView>,
    failed: Seq<OutboxView>,
) -> bool {
    &&& keys_unique(rs)
    &&& keys_unique(batch)
    &&& forall|k: int| 0 <= k < batch.len() ==> rs.contains(#[trigger] batch[k])
    &&& forall|k: int| 0 <= k < failed.len() ==> batch.contains(#[trigger] failed[k])
}

proof fn lemma_success_facts(batch: Seq<OutboxView>, failed: Seq<OutboxView>)
    requires
        keys_unique(batch),
        forall|k: int| 0 <= k < failed.len() ==> batch.contains(#[trigger] failed[k]),
    ensures
        forall|j: int|
            0 <= j < success_set(batch, failed).len() ==> !keys_of(failed).contains(
                #[trigger] success_set(batch, failed)[j].idempotent_key,
            ) && batch.contains(success_set(batch, failed)[j]),
        forall|i: int|
            0 <= i < batch.len() && !keys_of(failed).contains(batch[i].idempotent_key)
                ==> success_set(batch, failed).contains(#[trigger] batch[i]),
        forall|i: int|
            0 <= i < batch.len() && keys_of(failed).contains(batch[i].idempotent_key)
                ==> partitions_of(failed).contains(#[trigger] batch[i].partition_key),
{
    lemma_kept_records(batch, keys_of(failed));
    assert forall|i: int|
        0 <= i < batch.len() && keys_of(failed).contains(batch[i].idempotent_key) implies partitions_of(
        failed,
    ).contains(#[trigger] batch[i].partition_key) by {
        let m = choose|m: int| 0 <= m < keys_of(failed).len() && keys_of(failed)[m] == batch[i].idempotent_key;
        assert(batch.contains(failed[m]));
        let n = choose|n: int| 0 <= n < batch.len() && batch[n] == failed[m];
        assert(n == i);
        assert(partitions_of(failed)[m] == batch[i].partition_key);
    }
}

/// The bookkeeping of a tick commits its three parts together: every
/// record that failed in no sink is marked processed (or, in delete mode,
/// is gone); every failed record counts one more attempt; and no active lock
/// is left on any partition of the batch, nor any whose time is up.
pub proof fn lemma_bookkeeping_all_three(
    rs: Seq<OutboxView>,
    ls: Seq<PartitionLock>,
    batch: Seq<OutboxView>,
    failed: Seq<OutboxView>,
    s: Settings,
    now: u64,
)
    requires
        tick_inputs(rs, batch, failed),
    ensures
        ({
            let res = settled_records(rs, batch, failed, s, now);
            let locks = settled_locks(ls, batch, failed, s, now);
            let ok = success_set(batch, failed);
            &&& forall|k: int|
                0 <= k < ok.len() ==> if s.delete_after_process_successfully {
                    forall|j: int| 0 <= j < res.len() ==> res[j].idempotent_key != (#[trigger] ok[k]).idempotent_key
                } else {
                    exists|j: int|
                        0 <= j < res.len() && res[j].idempotent_key == (#[trigger] ok[k]).idempotent_key
                            && res[j].processed_at == Some(now)
                }
            &&& forall|i: int|
                0 <= i < rs.len() && keys_of(failed).contains(#[trigger] rs[i].idempotent_key)
                    ==> exists|j: int|
                    0 <= j < res.len() && res[j].idempotent_key == rs[i].idempotent_key
                        && res[j].attempts == sat_inc(rs[i].attempts) && res[j].processed_at
                        == rs[i].processed_at
            &&& forall|j: int, k: int|
                0 <= j < locks.len() && 0 <= k < batch.len() && is_active(#[trigger] locks[j])
                    ==> locks[j].partition_key != (#[trigger] batch[k]).partition_key
            &&& forall|j: int|
                0 <= j < locks.len() && is_active(#[trigger] locks[j]) ==> now
                    <= locks[j].processing_until
        }),
{
    let res = settled_records(rs, batch, failed, s, now);
    let locks = settled_locks(ls, batch, failed, s, now);
    let ok = success_set(batch, failed);
    let okk = keys_of(ok);
    let fk = keys_of(failed);
    let fpk = partitions_of(failed);
    let delay = millis_of(s.delay_for_failure_attempt_in_seconds);
    let first = if s.delete_after_process_successfully {
        kept_records(rs, okk)
    } else {
        marked_records(rs, okk, now)
    };
    lemma_success_facts(batch, failed);
    lemma_kept_records(rs, okk);
    lemma_marked_records(rs, okk, now);
    lemma_failed_records(first, fk, fpk, delay, now);
    assert(res.len() == first.len());
    assert forall|j: int| 0 <= j < res.len() implies res[j].idempotent_key == first[j].idempotent_key
        && res[j].processed_at == first[j].processed_at by {}
    // successes
    assert forall|k: int| 0 <= k < ok.len() implies if s.delete_after_process_successfully {
        forall|j: int| 0 <= j < res.len() ==> res[j].idempotent_key != (#[trigger] ok[k]).idempotent_key
    } else {
        exists|j: int|
            0 <= j < res.len() && res[j].idempotent_key == (#[trigger] ok[k]).idempotent_key
                && res[j].processed_at == Some(now)
    } by {
        assert(okk[k] == ok[k].idempotent_key);
        assert(okk.contains(ok[k].idempotent_key));
        if s.delete_after_process_successfully {
            assert forall|j: int| 0 <= j < res.len() implies res[j].idempotent_key
                != ok[k].idempotent_key by {
                assert(!okk.contains(first[j].idempotent_key));
            }
        } else {
            assert(batch.contains(ok[k]));
            assert(rs.contains(ok[k]));
            let i = choose|i: int| 0 <= i < rs.len() && rs[i] == ok[k];
            assert(first[i] == mark_record(rs[i], okk, now));
            assert(res[i].idempotent_key == ok[k].idempotent_key);
        }
    }
    // failures
    assert forall|i: int|
        0 <= i < rs.len() && fk.contains(#[trigger] rs[i].idempotent_key) implies exists|j: int|
        0 <= j < res.len() && res[j].idempotent_key == rs[i].idempotent_key && res[j].attempts
            == sat_inc(rs[i].attempts) && res[j].processed_at == rs[i].processed_at by {
        assert(failed.len() > 0);
        assert(!okk.contains(rs[i].idempotent_key)) by {
            if okk.contains(rs[i].idempotent_key) {
                let m = choose|m: int| 0 <= m < okk.len() && okk[m] == rs[i].idempotent_key;
                assert(okk[m] == ok[m].idempotent_key);
            }
        }
        if s.delete_after_process_successfully {
            assert(first.contains(rs[i]));
            let j = choose|j: int| 0 <= j < first.len() && first[j] == rs[i];
            assert(res[j] == fail_record(first[j], fk, fpk, delay, now));
        } else {
            assert(first[i] == rs[i]);
            assert(res[i] == fail_record(first[i], fk, fpk, delay, now));
        }
    }
    // locks
    let spk = partitions_of(ok);
    lemma_active_after_release(ls, spk, fpk, failed.len() > 0, now, s.scheduled_clear_locked_partition, locks);
    assert forall|j: int| 0 <= j < locks.len() && is_active(#[trigger] locks[j]) implies now
        <= locks[j].processing_until by {
        assert(!lock_released(locks[j], spk, now));
    }
    assert forall|j: int, k: int|
        0 <= j < locks.len() && 0 <= k < batch.len() && is_active(#[trigger] locks[j])
            implies locks[j].partition_key != (#[trigger] batch[k]).partition_key by {
        assert(!lock_released(locks[j], spk, now));
        if failed.len() > 0 {
            assert(!lock_released(locks[j], fpk, now));
        }
        if fk.contains(batch[k].idempotent_key) {
            assert(fpk.contains(batch[k].partition_key));
            assert(failed.len() > 0);
        } else {
            assert(ok.contains(batch[k]));
            let m = choose|m: int| 0 <= m < ok.len() && ok[m] == batch[k];
            assert(spk[m] == batch[k].partition_key);
            assert(spk.contains(batch[k].partition_key));
        }
    }
}

/// Delete-mode equivalence: after a tick's bookkeeping each record of the
/// success set is marked processed when records are kept, and is absent
/// when they are deleted.
pub proof fn lemma_delete_mode(
    rs: Seq<OutboxView>,
    batch: Seq<OutboxView>,
    failed: Seq<OutboxView>,
    s: Settings,
    now: u64,
)
    requires
        tick_inputs(rs, batch, failed),
    ensures
        forall|k: int|
            0 <= k < success_set(batch, failed).len() ==> {
                let res = settled_records(rs, batch, failed, s, now);
                let key = (#[trigger] success_set(batch, failed)[k]).idempotent_key;
                &&& !s.delete_after_process_successfully ==> exists|j: int|
                    0 <= j < res.len() && res[j].idempotent_key == key && res[j].processed_at is Some
                &&& s.delete_after_process_successfully ==> forall|j: int|
                    0 <= j < res.len() ==> res[j].idempotent_key != key
            },
{
    lemma_bookkeeping_all_three(rs, Seq::empty(), batch, failed, s, now);
}

/// A tick's bookkeeping never takes back progress: each record left is one
/// that was there, with no fewer attempts, and still processed if it was.
pub proof fn lemma_tick_records_advance(
    rs: Seq<OutboxView>,
    batch: Seq<OutboxView>,
    failed: Seq<OutboxView>,
    s: Settings,
    now: u64,
)
    ensures
        records_evolve(rs, settled_records(rs, batch, failed, s, now)),
{
    let res = settled_records(rs, batch, failed, s, now);
    let okk = keys_of(success_set(batch, failed));
    let fk = keys_of(failed);
    let fpk = partitions_of(failed);
    let delay = millis_of(s.delay_for_failure_attempt_in_seconds);
    let first = if s.delete_after_process_successfully {
        kept_records(rs, okk)
    } else {
        marked_records(rs, okk, now)
    };
    lemma_kept_records(rs, okk);
    lemma_marked_records(rs, okk, now);
    lemma_failed_records(first, fk, fpk, delay, now);
    assert forall|j: int| 0 <= j < res.len() implies #[trigger] advanced_from(rs, res[j]) by {
        let i = if s.delete_after_process_successfully {
            choose|i: int| 0 <= i < rs.len() && rs[i] == first[j]
        } else {
            j
        };
        assert(record_advanced(first[j], res[j]));
        assert(record_advanced(rs[i], first[j]));
        assert(record_advanced(rs[i], res[j]));
    }
}

} // verus!
