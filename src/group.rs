use vstd::prelude::*;
use crate::destination::{DestinationView, OutboxDestination};
use crate::outbox::{outboxes_view, Outbox, OutboxView};

verus! {

/// The records bound for one queue or topic, once per destination naming it.
#[derive(Debug)]
pub struct TargetGroup {
    pub target: String,
    pub outboxes: Vec<Outbox>,
}

/// A batch grouped by destination kind: per queue URL, per topic ARN, and
/// the records with an HTTP destination. A record with several destinations
/// appears once for each of them.
#[derive(Debug)]
pub struct GroupedOutboxed {
    pub sqs: Vec<TargetGroup>,
    pub sns: Vec<TargetGroup>,
    pub http: Vec<Outbox>,
}

/// The queue URL (or, for `topic`, the topic ARN) that a destination names.
pub open spec fn dest_target(d: DestinationView, topic: bool) -> Option<Seq<char>> {
    match d {
        DestinationView::Queue { queue_url } => if topic {
            None
        } else {
            Some(queue_url)
        },
        DestinationView::Topic { topic_arn } => if topic {
            Some(topic_arn)
        } else {
            None
        },
        DestinationView::Http { .. } => None,
    }
}

/// How many of the destinations name target `t`.
pub open spec fn count_target(ds: Seq<DestinationView>, topic: bool, t: Seq<char>) -> nat
    decreases ds.len(),
{
    if ds.len() == 0 {
        0
    } else {
        count_target(ds.drop_last(), topic, t) + if dest_target(ds.last(), topic) == Some(t) {
            1nat
        } else {
            0nat
        }
    }
}

/// How many of the destinations are HTTP endpoints.
pub open spec fn count_http(ds: Seq<DestinationView>) -> nat
    decreases ds.len(),
{
    if ds.len() == 0 {
        0
    } else {
        count_http(ds.drop_last()) + if ds.last() is Http {
            1nat
        } else {
            0nat
        }
    }
}

/// `n` copies of a record.
pub open spec fn copies(r: OutboxView, n: nat) -> Seq<OutboxView> {
    Seq::new(n, |_i: int| r)
}

/// The bucket of target `t`: each record once per destination naming `t`,
/// in record order.
pub open spec fn target_bucket(rs: Seq<OutboxView>, topic: bool, t: Seq<char>) -> Seq<OutboxView>
    decreases rs.len(),
{
    if rs.len() == 0 {
        rs
    } else {
        target_bucket(rs.drop_last(), topic, t) + copies(
            rs.last(),
            count_target(rs.last().destinations, topic, t),
        )
    }
}

/// The HTTP bucket: each record once per HTTP destination, in record order.
pub open spec fn http_bucket(rs: Seq<OutboxView>) -> Seq<OutboxView>
    decreases rs.len(),
{
    if rs.len() == 0 {
        rs
    } else {
        http_bucket(rs.drop_last()) + copies(rs.last(), count_http(rs.last().destinations))
    }
}

/// Some record has a destination naming `t`.
pub open spec fn is_target_of(rs: Seq<OutboxView>, topic: bool, t: Seq<char>) -> bool {
    exists|i: int, k: int|
        0 <= i < rs.len() && 0 <= k < rs[i].destinations.len() && dest_target(
            rs[i].destinations[k],
            topic,
        ) == Some(t)
}

/// The groups are exactly the targets of `rs`, each once, each with its
/// bucket.
pub open spec fn groups_of(groups: Seq<TargetGroup>, rs: Seq<OutboxView>, topic: bool) -> bool {
    &&& forall|a: int, b: int|
        0 <= a < groups.len() && 0 <= b < groups.len() && a != b ==> groups[a].target@
            != groups[b].target@
    &&& forall|a: int|
        0 <= a < groups.len() ==> is_target_of(rs, topic, #[trigger] groups[a].target@)
            && outboxes_view(groups[a].outboxes@) == target_bucket(rs, topic, groups[a].target@)
    &&& forall|t: Seq<char>|
        is_target_of(rs, topic, t) ==> exists|a: int|
            0 <= a < groups.len() && #[trigger] groups[a].target@ == t
}

/// The target that a destination names, as text.
fn target_text(d: &OutboxDestination, topic: bool) -> (r: Option<&String>)
    ensures
        match r {
            None => dest_target(d@, topic) is None,
            Some(t) => dest_target(d@, topic) == Some(t@),
        },
{
    match d {
        OutboxDestination::SqsDestination(q) => if topic {
            None
        } else {
            Some(&q.queue_url)
        },
        OutboxDestination::SnsDestination(s) => if topic {
            Some(&s.topic_arn)
        } else {
            None
        },
        OutboxDestination::HttpDestination(_) => None,
    }
}

/// Whether some group has this target.
fn has_group(groups: &Vec<TargetGroup>, t: &String) -> (r: bool)
    ensures
        r == exists|a: int| 0 <= a < groups@.len() && #[trigger] groups@[a].target@ == t@,
{
    let mut a: usize = 0;
    while a < groups.len()
        invariant
            0 <= a <= groups@.len(),
            forall|b: int| 0 <= b < a ==> groups@[b].target@ != t@,
        decreases groups@.len() - a,
    {
        if groups[a].target == *t {
            return true;
        }
        a = a + 1;
    }
    false
}

/// How many destinations of a record name target `t`.
fn count_target_exec(ds: &Vec<OutboxDestination>, topic: bool, t: &String) -> (r: usize)
    ensures
        r == count_target(crate::destination::destinations_view(ds@), topic, t@),
{
    let ghost dv = crate::destination::destinations_view(ds@);
    let mut n: usize = 0;
    let mut k: usize = 0;
    while k < ds.len()
        invariant
            dv == crate::destination::destinations_view(ds@),
            0 <= k <= ds@.len(),
            n == count_target(dv.subrange(0, k as int), topic, t@),
            n <= k,
        decreases ds@.len() - k,
    {
        proof {
            assert(dv.subrange(0, k + 1).drop_last() =~= dv.subrange(0, k as int));
            assert(dv[k as int] == ds@[k as int]@);
        }
        match target_text(&ds[k], topic) {
            Some(x) => {
                if *x == *t {
                    n = n + 1;
                }
            },
            None => {},
        }
        k = k + 1;
    }
    assert(dv.subrange(0, ds@.len() as int) =~= dv);
    n
}

/// How many destinations of a record are HTTP endpoints.
fn count_http_exec(ds: &Vec<OutboxDestination>) -> (r: usize)
    ensures
        r == count_http(crate::destination::destinations_view(ds@)),
{
    let ghost dv = crate::destination::destinations_view(ds@);
    let mut n: usize = 0;
    let mut k: usize = 0;
    while k < ds.len()
        invariant
            dv == crate::destination::destinations_view(ds@),
            0 <= k <= ds@.len(),
            n == count_http(dv.subrange(0, k as int)),
            n <= k,
        decreases ds@.len() - k,
    {
        proof {
            assert(dv.subrange(0, k + 1).drop_last() =~= dv.subrange(0, k as int));
            assert(dv[k as int] == ds@[k as int]@);
        }
        if let OutboxDestination::HttpDestination(_) = &ds[k] {
            n = n + 1;
        }
        k = k + 1;
    }
    assert(dv.subrange(0, ds@.len() as int) =~= dv);
    n
}

/// Appends `n` copies of a record.
fn push_copies(out: &mut Vec<Outbox>, r: &Outbox, n: usize)
    ensures
        outboxes_view(final(out)@) == outboxes_view(old(out)@) + copies(r@, n as nat),
{
    let ghost start = outboxes_view(out@);
    let mut c: usize = 0;
    while c < n
        invariant
            0 <= c <= n,
            outboxes_view(out@) == start + copies(r@, c as nat),
        decreases n - c,
    {
        let x = r.clone();
        let ghost before = outboxes_view(out@);
        out.push(x);
        assert(outboxes_view(out@) =~= before.push(x@));
        c = c + 1;
        assert(start + copies(r@, c as nat) =~= (start + copies(r@, (c - 1) as nat)).push(r@));
    }
}

/// The bucket of one target.
fn bucket_of(outboxes: &Vec<Outbox>, topic: bool, t: &String) -> (r: Vec<Outbox>)
    ensures
        outboxes_view(r@) == target_bucket(outboxes_view(outboxes@), topic, t@),
{
    let ghost rs = outboxes_view(outboxes@);
    let mut out: Vec<Outbox> = Vec::new();
    let mut i: usize = 0;
    while i < outboxes.len()
        invariant
            rs == outboxes_view(outboxes@),
            0 <= i <= rs.len(),
            outboxes_view(out@) == target_bucket(rs.subrange(0, i as int), topic, t@),
        decreases rs.len() - i,
    {
        proof {
            assert(rs.subrange(0, i + 1).drop_last() =~= rs.subrange(0, i as int));
            assert(rs[i as int] == outboxes@[i as int]@);
        }
        let n = count_target_exec(&outboxes[i].destinations, topic, t);
        push_copies(&mut out, &outboxes[i], n);
        i = i + 1;
    }
    assert(rs.subrange(0, rs.len() as int) =~= rs);
    out
}

/// The HTTP bucket of a batch.
fn http_bucket_of(outboxes: &Vec<Outbox>) -> (r: Vec<Outbox>)
    ensures
        outboxes_view(r@) == http_bucket(outboxes_view(outboxes@)),
{
    let ghost rs = outboxes_view(outboxes@);
    let mut out: Vec<Outbox> = Vec::new();
    let mut i: usize = 0;
    while i < outboxes.len()
        invariant
            rs == outboxes_view(outboxes@),
            0 <= i <= rs.len(),
            outboxes_view(out@) == http_bucket(rs.subrange(0, i as int)),
        decreases rs.len() - i,
    {
        proof {
            assert(rs.subrange(0, i + 1).drop_last() =~= rs.subrange(0, i as int));
            assert(rs[i as int] == outboxes@[i as int]@);
        }
        let n = count_http_exec(&outboxes[i].destinations);
        push_copies(&mut out, &outboxes[i], n);
        i = i + 1;
    }
    assert(rs.subrange(0, rs.len() as int) =~= rs);
    out
}

/// The targets of a batch, each once, in order of first appearance.
fn targets_of(outboxes: &Vec<Outbox>, topic: bool) -> (r: Vec<String>)
    ensures
        forall|a: int, b: int|
            0 <= a < r@.len() && 0 <= b < r@.len() && a != b ==> r@[a]@ != r@[b]@,
        forall|a: int| 0 <= a < r@.len() ==> is_target_of(outboxes_view(outboxes@), topic, #[trigger] r@[a]@),
        forall|t: Seq<char>|
            is_target_of(outboxes_view(outboxes@), topic, t) ==> exists|a: int|
                0 <= a < r@.len() && #[trigger] r@[a]@ == t,
{
    let ghost rs = outboxes_view(outboxes@);
    let mut out: Vec<String> = Vec::new();
    let mut i: usize = 0;
    while i < outboxes.len()
        invariant
            rs == outboxes_view(outboxes@),
            0 <= i <= rs.len(),
            forall|a: int, b: int|
                0 <= a < out@.len() && 0 <= b < out@.len() && a != b ==> out@[a]@ != out@[b]@,
            forall|a: int| 0 <= a < out@.len() ==> is_target_of(rs, topic, #[trigger] out@[a]@),
            forall|i2: int, k: int|
                0 <= i2 < i && 0 <= k < rs[i2].destinations.len() && dest_target(
                    rs[i2].destinations[k],
                    topic,
                ) is Some ==> exists|a: int|
                    0 <= a < out@.len() && Some(#[trigger] out@[a]@) == dest_target(
                        rs[i2].destinations[k],
                        topic,
                    ),
        decreases rs.len() - i,
    {
        let ds = &outboxes[i].destinations;
        let ghost dv = rs[i as int].destinations;
        proof {
            assert(rs[i as int] == outboxes@[i as int]@);
        }
        let mut k: usize = 0;
        while k < ds.len()
            invariant
                rs == outboxes_view(outboxes@),
                0 <= i < rs.len(),
                ds == &outboxes@[i as int].destinations,
                dv == rs[i as int].destinations,
                dv == crate::destination::destinations_view(ds@),
                0 <= k <= ds@.len(),
                forall|a: int, b: int|
                    0 <= a < out@.len() && 0 <= b < out@.len() && a != b ==> out@[a]@ != out@[b]@,
                forall|a: int| 0 <= a < out@.len() ==> is_target_of(rs, topic, #[trigger] out@[a]@),
                forall|i2: int, k2: int|
                    ((0 <= i2 < i && 0 <= k2 < rs[i2].destinations.len()) || (i2 == i && 0 <= k2
                        < k)) && dest_target(rs[i2].destinations[k2], topic) is Some
                        ==> exists|a: int|
                        0 <= a < out@.len() && Some(#[trigger] out@[a]@) == dest_target(
                            rs[i2].destinations[k2],
                            topic,
                        ),
            decreases ds@.len() - k,
        {
            proof {
                assert(dv[k as int] == ds@[k as int]@);
            }
            match target_text(&ds[k], topic) {
                Some(t) => {
                    let mut found = false;
                    let mut a: usize = 0;
                    while a < out.len()
                        invariant
                            0 <= a <= out@.len(),
                            found ==> exists|b: int| 0 <= b < out@.len() && #[trigger] out@[b]@ == t@,
                            !found ==> forall|b: int| 0 <= b < a ==> out@[b]@ != t@,
                        decreases out@.len() - a,
                    {
                        if out[a] == *t {
                            found = true;
                            assert(out@[a as int]@ == t@);
                        }
                        a = a + 1;
                    }
                    if !found {
                        let ghost before = out@;
                        out.push(t.clone());
                        proof {
                            assert(is_target_of(rs, topic, t@)) by {
                                assert(0 <= k < rs[i as int].destinations.len());
                                assert(dest_target(rs[i as int].destinations[k as int], topic)
                                    == Some(t@));
                            }
                            assert forall|b: int| 0 <= b < before.len() implies out@[b] == before[b] by {}
                            assert(out@[before.len() as int]@ == t@);
                        }
                    }
                    proof {
                        let b = choose|b: int| 0 <= b < out@.len() && #[trigger] out@[b]@ == t@;
                        assert(Some(out@[b]@) == dest_target(rs[i as int].destinations[k as int], topic));
                    }
                },
                None => {},
            }
            k = k + 1;
        }
        i = i + 1;
    }
    out
}

/// Groups a batch by destination: a bucket per queue URL, one per topic
/// ARN, and the HTTP bucket. A record with several destinations lands once
/// per destination.
pub fn group_by_destination(outboxes: &Vec<Outbox>) -> (r: GroupedOutboxed)
    ensures
        groups_of(r.sqs@, outboxes_view(outboxes@), false),
        groups_of(r.sns@, outboxes_view(outboxes@), true),
        outboxes_view(r.http@) == http_bucket(outboxes_view(outboxes@)),
{
    let sqs = groups_for(outboxes, false);
    let sns = groups_for(outboxes, true);
    let http = http_bucket_of(outboxes);
    GroupedOutboxed { sqs, sns, http }
}

fn groups_for(outboxes: &Vec<Outbox>, topic: bool) -> (r: Vec<TargetGroup>)
    ensures
        groups_of(r@, outboxes_view(outboxes@), topic),
{
    let targets = targets_of(outboxes, topic);
    let mut groups: Vec<TargetGroup> = Vec::new();
    let mut a: usize = 0;
    while a < targets.len()
        invariant
            0 <= a <= targets@.len(),
            groups@.len() == a,
            forall|b: int| 0 <= b < a ==> (#[trigger] groups@[b]).target@ == targets@[b]@,
            forall|b: int|
                0 <= b < a ==> outboxes_view((#[trigger] groups@[b]).outboxes@) == target_bucket(
                    outboxes_view(outboxes@),
                    topic,
                    groups@[b].target@,
                ),
        decreases targets@.len() - a,
    {
        let t = targets[a].clone();
        let bucket = bucket_of(outboxes, topic, &t);
        groups.push(TargetGroup { target: t, outboxes: bucket });
        a = a + 1;
    }
    proof {
        let rs = outboxes_view(outboxes@);
        assert forall|t: Seq<char>| is_target_of(rs, topic, t) implies exists|b: int|
            0 <= b < groups@.len() && #[trigger] groups@[b].target@ == t by {
            let b = choose|b: int| 0 <= b < targets@.len() && #[trigger] targets@[b]@ == t;
            assert(groups@[b].target@ == targets@[b]@);
        }
        assert forall|b: int| 0 <= b < groups@.len() implies is_target_of(rs, topic, #[trigger] groups@[b].target@) by {
            assert(groups@[b].target@ == targets@[b]@);
        }
        assert forall|b1: int, b2: int| 0 <= b1 < groups@.len() && 0 <= b2 < groups@.len() && b1 != b2 implies groups@[b1].target@ != groups@[b2].target@ by {
            assert(groups@[b1].target@ == targets@[b1]@);
            assert(groups@[b2].target@ == targets@[b2]@);
        }
    }
    groups
}

} // verus!
