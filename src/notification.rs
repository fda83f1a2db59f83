use vstd::prelude::*;
use crate::outbox::{clone_outboxes, contains_id, idempotent_keys, keys_of, outboxes_view, Outbox, OutboxView};

verus! {

/// What one sink adapter reports: the records it delivered and those it
/// could not. No record is in both.
#[derive(Debug)]
pub struct NotificationResult {
    pub sent: Vec<Outbox>,
    pub failed: Vec<Outbox>,
}

/// The records of the sends that failed, in order.
pub open spec fn failed_sends(rs: Seq<OutboxView>, ok: Seq<bool>) -> Seq<OutboxView>
    decreases rs.len(),
{
    if rs.len() == 0 || ok.len() != rs.len() {
        Seq::empty()
    } else {
        let rest = failed_sends(rs.drop_last(), ok.drop_last());
        if ok.last() {
            rest
        } else {
            rest.push(rs.last())
        }
    }
}

/// The records of the sends that succeeded and whose record failed in no
/// other send, in order.
pub open spec fn sent_sends(rs: Seq<OutboxView>, ok: Seq<bool>, failed: Seq<u128>) -> Seq<OutboxView>
    decreases rs.len(),
{
    if rs.len() == 0 || ok.len() != rs.len() {
        Seq::empty()
    } else {
        let rest = sent_sends(rs.drop_last(), ok.drop_last(), failed);
        if ok.last() && !failed.contains(rs.last().idempotent_key) {
            rest.push(rs.last())
        } else {
            rest
        }
    }
}

/// No record reported sent has a key among the listed failures.
pub proof fn lemma_sent_sends(rs: Seq<OutboxView>, ok: Seq<bool>, failed: Seq<u128>)
    ensures
        forall|j: int|
            0 <= j < sent_sends(rs, ok, failed).len() ==> !failed.contains(
                #[trigger] sent_sends(rs, ok, failed)[j].idempotent_key,
            ),
    decreases rs.len(),
{
    if rs.len() > 0 && ok.len() == rs.len() {
        lemma_sent_sends(rs.drop_last(), ok.drop_last(), failed);
    }
}

impl NotificationResult {
    /// An empty report.
    pub fn new() -> (r: Self)
        ensures
            r.sent@.len() == 0,
            r.failed@.len() == 0,
    {
        NotificationResult { sent: Vec::new(), failed: Vec::new() }
    }

    /// The report on a run of sends: `records[i]` was sent by send `i`, which
    /// succeeded iff `ok[i]`. A record fails if any of its sends failed, and
    /// is sent otherwise.
    pub fn from_sends(records: &Vec<Outbox>, ok: &Vec<bool>) -> (r: Self)
        requires
            records@.len() == ok@.len(),
        ensures
            outboxes_view(r.failed@) == failed_sends(outboxes_view(records@), ok@),
            outboxes_view(r.sent@) == sent_sends(
                outboxes_view(records@),
                ok@,
                keys_of(failed_sends(outboxes_view(records@), ok@)),
            ),
            forall|j: int|
                0 <= j < r.sent@.len() ==> !keys_of(outboxes_view(r.failed@)).contains(
                    #[trigger] r.sent@[j].idempotent_key,
                ),
    {
        let ghost rs = outboxes_view(records@);
        let mut failed: Vec<Outbox> = Vec::new();
        let mut i: usize = 0;
        while i < records.len()
            invariant
                rs == outboxes_view(records@),
                records@.len() == ok@.len(),
                0 <= i <= rs.len(),
                outboxes_view(failed@) == failed_sends(rs.subrange(0, i as int), ok@.subrange(0, i as int)),
            decreases rs.len() - i,
        {
            proof {
                assert(rs.subrange(0, i + 1).drop_last() =~= rs.subrange(0, i as int));
                assert(ok@.subrange(0, i + 1).drop_last() =~= ok@.subrange(0, i as int));
                assert(rs[i as int] == records@[i as int]@);
            }
            if !ok[i] {
                let x = records[i].clone();
                let ghost before = outboxes_view(failed@);
                failed.push(x);
                assert(outboxes_view(failed@) =~= before.push(x@));
            }
            i = i + 1;
        }
        proof {
            assert(rs.subrange(0, rs.len() as int) =~= rs);
            assert(ok@.subrange(0, rs.len() as int) =~= ok@);
        }
        let failed_keys = idempotent_keys(&failed);
        let mut sent: Vec<Outbox> = Vec::new();
        let mut i: usize = 0;
        while i < records.len()
            invariant
                rs == outboxes_view(records@),
                records@.len() == ok@.len(),
                0 <= i <= rs.len(),
                failed_keys@ == keys_of(outboxes_view(failed@)),
                outboxes_view(sent@) == sent_sends(
                    rs.subrange(0, i as int),
                    ok@.subrange(0, i as int),
                    failed_keys@,
                ),
            decreases rs.len() - i,
        {
            proof {
                assert(rs.subrange(0, i + 1).drop_last() =~= rs.subrange(0, i as int));
                assert(ok@.subrange(0, i + 1).drop_last() =~= ok@.subrange(0, i as int));
                assert(rs[i as int] == records@[i as int]@);
            }
            if ok[i] && !contains_id(&failed_keys, records[i].idempotent_key) {
                let x = records[i].clone();
                let ghost before = outboxes_view(sent@);
                sent.push(x);
                assert(outboxes_view(sent@) =~= before.push(x@));
            }
            i = i + 1;
        }
        proof {
            assert(rs.subrange(0, rs.len() as int) =~= rs);
            assert(ok@.subrange(0, rs.len() as int) =~= ok@);
            lemma_sent_sends(rs, ok@, failed_keys@);
            assert forall|j: int| 0 <= j < sent@.len() implies !keys_of(outboxes_view(failed@)).contains(
                #[trigger] sent@[j].idempotent_key,
            ) by {
                assert(outboxes_view(sent@)[j] == sent@[j]@);
                assert(outboxes_view(sent@) == sent_sends(rs, ok@, failed_keys@));
                assert(!failed_keys@.contains(sent_sends(rs, ok@, failed_keys@)[j].idempotent_key));
            }
        }
        NotificationResult { sent, failed }
    }
}

/// The records of several reports' failures, in order.
pub fn union_failed(a: &NotificationResult, b: &NotificationResult, c: &NotificationResult) -> (r: Vec<Outbox>)
    ensures
        outboxes_view(r@) == outboxes_view(a.failed@) + outboxes_view(b.failed@) + outboxes_view(
            c.failed@,
        ),
{
    let mut r = clone_outboxes(&a.failed);
    let mut more = clone_outboxes(&b.failed);
    let mut last = clone_outboxes(&c.failed);
    let ghost va = outboxes_view(r@);
    let ghost vb = outboxes_view(more@);
    let ghost vc = outboxes_view(last@);
    r.append(&mut more);
    assert(outboxes_view(r@) =~= va + vb);
    let ghost vab = outboxes_view(r@);
    r.append(&mut last);
    assert(outboxes_view(r@) =~= vab + vc);
    r
}

} // verus!
