use vstd::prelude::*;
use crate::destination::{headers_view, opt_headers_view, DestinationView, Header, HttpMethod, OutboxDestination, method_of};
use crate::group::{GroupedOutboxed, TargetGroup};
use crate::headers::{compose_headers, composed_headers, or_empty};
use crate::notification::{failed_sends, sent_sends, NotificationResult};
use crate::outbox::{clone_outboxes, keys_of, outboxes_view, uuid_text, uuid_to_string, Outbox, OutboxView};

verus! {

/// The most entries that one queue or topic batch call takes.
pub const MAX_BATCH_ENTRIES: usize = 10;

/// One batch call to a queue or topic: its target and its records.
#[derive(Debug)]
pub struct PublishBatch {
    pub target: String,
    pub outboxes: Vec<Outbox>,
}

/// The model of a group or a batch: target and records.
pub open spec fn group_view(g: TargetGroup) -> (Seq<char>, Seq<OutboxView>) {
    (g.target@, outboxes_view(g.outboxes@))
}

pub open spec fn groups_view(gs: Seq<TargetGroup>) -> Seq<(Seq<char>, Seq<OutboxView>)> {
    gs.map_values(|g: TargetGroup| group_view(g))
}

pub open spec fn batch_view(b: PublishBatch) -> (Seq<char>, Seq<OutboxView>) {
    (b.target@, outboxes_view(b.outboxes@))
}

pub open spec fn batches_view(bs: Seq<PublishBatch>) -> Seq<(Seq<char>, Seq<OutboxView>)> {
    bs.map_values(|b: PublishBatch| batch_view(b))
}

/// A list cut, from the front, into runs of `MAX_BATCH_ENTRIES`, the last
/// run holding what is left.
pub open spec fn chunks(s: Seq<OutboxView>) -> Seq<Seq<OutboxView>>
    decreases s.len(),
{
    if s.len() == 0 {
        Seq::empty()
    } else if s.len() <= MAX_BATCH_ENTRIES {
        seq![s]
    } else {
        seq![s.take(MAX_BATCH_ENTRIES as int)] + chunks(s.skip(MAX_BATCH_ENTRIES as int))
    }
}

/// Each run tagged with its target.
pub open spec fn tagged(t: Seq<char>, cs: Seq<Seq<OutboxView>>) -> Seq<(Seq<char>, Seq<OutboxView>)> {
    cs.map_values(|c: Seq<OutboxView>| (t, c))
}

/// The batch calls for a list of groups: each group's records in runs of at
/// most `MAX_BATCH_ENTRIES`, group after group.
pub open spec fn publish_plan(gs: Seq<(Seq<char>, Seq<OutboxView>)>) -> Seq<(Seq<char>, Seq<OutboxView>)>
    decreases gs.len(),
{
    if gs.len() == 0 {
        Seq::empty()
    } else {
        tagged(gs[0].0, chunks(gs[0].1)) + publish_plan(gs.skip(1))
    }
}

/// The records of a run of batches, batch after batch.
pub open spec fn plan_records(bs: Seq<(Seq<char>, Seq<OutboxView>)>) -> Seq<OutboxView>
    decreases bs.len(),
{
    if bs.len() == 0 {
        Seq::empty()
    } else {
        plan_records(bs.drop_last()) + bs.last().1
    }
}

/// Each record of a run of batches paired with its batch's outcome.
pub open spec fn plan_outcomes(bs: Seq<(Seq<char>, Seq<OutboxView>)>, ok: Seq<bool>) -> Seq<bool>
    decreases bs.len(),
{
    if bs.len() == 0 || ok.len() != bs.len() {
        Seq::empty()
    } else {
        plan_outcomes(bs.drop_last(), ok.drop_last()) + Seq::new(bs.last().1.len(), |_i: int| ok.last())
    }
}

/// The records of all groups, group after group.
pub open spec fn group_records(gs: Seq<(Seq<char>, Seq<OutboxView>)>) -> Seq<OutboxView> {
    plan_records(gs)
}

/// Cuts a group's records into batch calls, appending them to `out`.
fn push_chunks(out: &mut Vec<PublishBatch>, g: &TargetGroup)
    ensures
        batches_view(final(out)@) == batches_view(old(out)@) + tagged(g.target@, chunks(outboxes_view(g.outboxes@))),
{
    let ghost s = outboxes_view(g.outboxes@);
    let ghost start = batches_view(out@);
    let n = g.outboxes.len();
    let mut i: usize = 0;
    proof {
        assert(s.skip(0) =~= s);
        assert(start =~= start + Seq::empty());
    }
    while i < n
        invariant
            n == s.len(),
            s == outboxes_view(g.outboxes@),
            0 <= i <= n,
            batches_view(out@) + tagged(g.target@, chunks(s.skip(i as int))) == start + tagged(
                g.target@,
                chunks(s),
            ),
        decreases n - i,
    {
        let end = if n - i <= MAX_BATCH_ENTRIES {
            n
        } else {
            i + MAX_BATCH_ENTRIES
        };
        let mut part: Vec<Outbox> = Vec::new();
        let mut j: usize = i;
        while j < end
            invariant
                s == outboxes_view(g.outboxes@),
                n == s.len(),
                i <= j <= end <= n,
                outboxes_view(part@) == s.subrange(i as int, j as int),
            decreases end - j,
        {
            let x = g.outboxes[j].clone();
            let ghost before = outboxes_view(part@);
            part.push(x);
            proof {
                assert(s[j as int] == g.outboxes@[j as int]@);
                assert(outboxes_view(part@) =~= before.push(x@));
                assert(s.subrange(i as int, j + 1) =~= s.subrange(i as int, j as int).push(s[j as int]));
            }
            j = j + 1;
        }
        let b = PublishBatch { target: g.target.clone(), outboxes: part };
        let ghost before = batches_view(out@);
        out.push(b);
        proof {
            assert(batches_view(out@) =~= before.push(batch_view(b)));
            let rest = s.skip(i as int);
            if n - i <= MAX_BATCH_ENTRIES {
                assert(rest =~= s.subrange(i as int, end as int));
                assert(chunks(rest) == seq![rest]);
                assert(s.skip(end as int) =~= Seq::<OutboxView>::empty());
                assert(chunks(s.skip(end as int)) =~= Seq::<Seq<OutboxView>>::empty());
                assert(tagged(g.target@, chunks(rest)) =~= seq![(g.target@, rest)]);
                assert(tagged(g.target@, chunks(s.skip(end as int))) =~= Seq::empty());
                assert(batches_view(out@) + tagged(g.target@, chunks(s.skip(end as int))) =~= before + tagged(g.target@, chunks(rest)));
            } else {
                assert(rest.take(MAX_BATCH_ENTRIES as int) =~= s.subrange(i as int, end as int));
                assert(rest.skip(MAX_BATCH_ENTRIES as int) =~= s.skip(end as int));
                assert(tagged(g.target@, chunks(rest)) =~= seq![(g.target@, s.subrange(i as int, end as int))] + tagged(g.target@, chunks(s.skip(end as int))));
                assert(batches_view(out@) + tagged(g.target@, chunks(s.skip(end as int))) =~= before + tagged(g.target@, chunks(rest)));
            }
        }
        i = end;
    }
    proof {
        assert(s.skip(n as int) =~= Seq::<OutboxView>::empty());
        assert(tagged(g.target@, chunks(s.skip(n as int))) =~= Seq::empty());
        assert(batches_view(out@) =~= batches_view(out@) + tagged(g.target@, chunks(s.skip(n as int))));
    }
}

/// The batch calls for a list of groups.
pub fn plan_batches(groups: &Vec<TargetGroup>) -> (r: Vec<PublishBatch>)
    ensures
        batches_view(r@) == publish_plan(groups_view(groups@)),
{
    let ghost gs = groups_view(groups@);
    let mut out: Vec<PublishBatch> = Vec::new();
    let mut a: usize = 0;
    proof {
        assert(gs.skip(0) =~= gs);
        assert(batches_view(out@) + publish_plan(gs) =~= publish_plan(gs));
    }
    while a < groups.len()
        invariant
            gs == groups_view(groups@),
            0 <= a <= gs.len(),
            batches_view(out@) + publish_plan(gs.skip(a as int)) == publish_plan(gs),
        decreases gs.len() - a,
    {
        let ghost before = batches_view(out@);
        push_chunks(&mut out, &groups[a]);
        proof {
            let rest = gs.skip(a as int);
            assert(rest[0] == group_view(groups@[a as int]));
            assert(rest.skip(1) =~= gs.skip(a + 1));
            assert(batches_view(out@) + publish_plan(gs.skip(a + 1)) =~= before + publish_plan(rest));
        }
        a = a + 1;
    }
    proof {
        assert(gs.skip(gs.len() as int) =~= Seq::<(Seq<char>, Seq<OutboxView>)>::empty());
        assert(batches_view(out@) =~= batches_view(out@) + publish_plan(gs.skip(gs.len() as int)));
    }
    out
}

/// The records of a run of batch calls with each call's outcome, record by
/// record.
fn flatten_outcomes(plan: &Vec<PublishBatch>, ok: &Vec<bool>) -> (r: (Vec<Outbox>, Vec<bool>))
    requires
        plan@.len() == ok@.len(),
    ensures
        outboxes_view(r.0@) == plan_records(batches_view(plan@)),
        r.1@ == plan_outcomes(batches_view(plan@), ok@),
        r.0@.len() == r.1@.len(),
{
    let ghost bs = batches_view(plan@);
    let mut records: Vec<Outbox> = Vec::new();
    let mut oks: Vec<bool> = Vec::new();
    let mut b: usize = 0;
    while b < plan.len()
        invariant
            bs == batches_view(plan@),
            plan@.len() == ok@.len(),
            0 <= b <= bs.len(),
            outboxes_view(records@) == plan_records(bs.subrange(0, b as int)),
            oks@ == plan_outcomes(bs.subrange(0, b as int), ok@.subrange(0, b as int)),
        decreases bs.len() - b,
    {
        let mut part = clone_outboxes(&plan[b].outboxes);
        let ghost pv = outboxes_view(part@);
        let ghost rv = outboxes_view(records@);
        let ghost ov = oks@;
        let m = part.len();
        let mut k: usize = 0;
        while k < m
            invariant
                0 <= k <= m,
                oks@ == ov + Seq::new(k as nat, |_i: int| ok@[b as int]),
                b < ok@.len(),
            decreases m - k,
        {
            oks.push(ok[b]);
            k = k + 1;
            assert(oks@ =~= ov + Seq::new(k as nat, |_i: int| ok@[b as int]));
        }
        records.append(&mut part);
        proof {
            assert(outboxes_view(records@) =~= rv + pv);
            assert(bs[b as int] == batch_view(plan@[b as int]));
            assert(bs.subrange(0, b + 1).drop_last() =~= bs.subrange(0, b as int));
            assert(ok@.subrange(0, b + 1).drop_last() =~= ok@.subrange(0, b as int));
        }
        b = b + 1;
    }
    proof {
        assert(bs.subrange(0, bs.len() as int) =~= bs);
        assert(ok@.subrange(0, bs.len() as int) =~= ok@);
        lemma_plan_lengths(bs, ok@);
    }
    (records, oks)
}

proof fn lemma_plan_lengths(bs: Seq<(Seq<char>, Seq<OutboxView>)>, ok: Seq<bool>)
    requires
        ok.len() == bs.len(),
    ensures
        plan_outcomes(bs, ok).len() == plan_records(bs).len(),
    decreases bs.len(),
{
    if bs.len() > 0 {
        lemma_plan_lengths(bs.drop_last(), ok.drop_last());
    }
}

/// The report on a run of batch calls: `ok[i]` tells whether call `i`
/// succeeded; a call's records all share its outcome.
pub fn collect_batches(plan: &Vec<PublishBatch>, ok: &Vec<bool>) -> (r: NotificationResult)
    requires
        plan@.len() == ok@.len(),
    ensures
        outboxes_view(r.failed@) == failed_sends(
            plan_records(batches_view(plan@)),
            plan_outcomes(batches_view(plan@), ok@),
        ),
        outboxes_view(r.sent@) == sent_sends(
            plan_records(batches_view(plan@)),
            plan_outcomes(batches_view(plan@), ok@),
            keys_of(
                failed_sends(
                    plan_records(batches_view(plan@)),
                    plan_outcomes(batches_view(plan@), ok@),
                ),
            ),
        ),
{
    let (records, oks) = flatten_outcomes(plan, ok);
    NotificationResult::from_sends(&records, &oks)
}

/// The report when no client is configured: every record of every group
/// fails.
pub fn fail_all(groups: &Vec<TargetGroup>) -> (r: NotificationResult)
    ensures
        r.sent@.len() == 0,
        outboxes_view(r.failed@) == group_records(groups_view(groups@)),
{
    let ghost gs = groups_view(groups@);
    let mut failed: Vec<Outbox> = Vec::new();
    let mut a: usize = 0;
    while a < groups.len()
        invariant
            gs == groups_view(groups@),
            0 <= a <= gs.len(),
            outboxes_view(failed@) == plan_records(gs.subrange(0, a as int)),
        decreases gs.len() - a,
    {
        let mut part = clone_outboxes(&groups[a].outboxes);
        let ghost pv = outboxes_view(part@);
        let ghost fv = outboxes_view(failed@);
        failed.append(&mut part);
        proof {
            assert(outboxes_view(failed@) =~= fv + pv);
            assert(gs[a as int] == group_view(groups@[a as int]));
            assert(gs.subrange(0, a + 1).drop_last() =~= gs.subrange(0, a as int));
        }
        a = a + 1;
    }
    assert(gs.subrange(0, gs.len() as int) =~= gs);
    NotificationResult { sent: Vec::new(), failed }
}

/// Delivery to queues: one batch call per run of at most ten records bound
/// for the same queue URL.
pub struct SqsNotificationService;

/// Delivery to topics: one batch call per run of at most ten records bound
/// for the same topic ARN.
pub struct SnsNotificationService;

impl SqsNotificationService {
    /// The batch calls for the queue buckets of a grouped batch.
    pub fn plan(grouped: &GroupedOutboxed) -> (r: Vec<PublishBatch>)
        ensures
            batches_view(r@) == publish_plan(groups_view(grouped.sqs@)),
    {
        plan_batches(&grouped.sqs)
    }

    /// The report when no queue client is configured: every queue record
    /// fails.
    pub fn without_client(grouped: &GroupedOutboxed) -> (r: NotificationResult)
        ensures
            r.sent@.len() == 0,
            outboxes_view(r.failed@) == group_records(groups_view(grouped.sqs@)),
    {
        fail_all(&grouped.sqs)
    }
}

impl SnsNotificationService {
    /// The batch calls for the topic buckets of a grouped batch.
    pub fn plan(grouped: &GroupedOutboxed) -> (r: Vec<PublishBatch>)
        ensures
            batches_view(r@) == publish_plan(groups_view(grouped.sns@)),
    {
        plan_batches(&grouped.sns)
    }

    /// The report when no topic client is configured: every topic record
    /// fails.
    pub fn without_client(grouped: &GroupedOutboxed) -> (r: NotificationResult)
        ensures
            r.sent@.len() == 0,
            outboxes_view(r.failed@) == group_records(groups_view(grouped.sns@)),
    {
        fail_all(&grouped.sns)
    }
}


/// One HTTP delivery: the record, the method, the URL, the headers in the
/// order applied, and the body (the record's payload).
#[derive(Debug)]
pub struct HttpRequest {
    pub outbox: Outbox,
    pub method: HttpMethod,
    pub url: String,
    pub headers: Vec<Header>,
    pub body: String,
}

/// The model of an HTTP delivery.
pub ghost struct HttpRequestView {
    pub outbox: OutboxView,
    pub method: HttpMethod,
    pub url: Seq<char>,
    pub headers: Seq<(Seq<char>, Seq<char>)>,
    pub body: Seq<char>,
}

pub open spec fn request_view(q: HttpRequest) -> HttpRequestView {
    HttpRequestView {
        outbox: q.outbox@,
        method: q.method,
        url: q.url@,
        headers: headers_view(q.headers@),
        body: q.body@,
    }
}

pub open spec fn requests_view(qs: Seq<HttpRequest>) -> Seq<HttpRequestView> {
    qs.map_values(|q: HttpRequest| request_view(q))
}

/// The deliveries of one record to the HTTP destinations among `ds`, in
/// order.
pub open spec fn record_requests(
    r: OutboxView,
    ds: Seq<DestinationView>,
    env: Seq<(Seq<char>, Seq<char>)>,
) -> Seq<HttpRequestView>
    decreases ds.len(),
{
    if ds.len() == 0 {
        Seq::empty()
    } else {
        let rest = record_requests(r, ds.drop_last(), env);
        match ds.last() {
            DestinationView::Http { url, headers, method } => rest.push(
                HttpRequestView {
                    outbox: r,
                    method: method_of(method),
                    url,
                    headers: composed_headers(
                        or_empty(headers),
                        or_empty(r.headers),
                        uuid_text(r.idempotent_key),
                        env,
                    ),
                    body: r.payload,
                },
            ),
            _ => rest,
        }
    }
}

/// The deliveries of the HTTP bucket: for each record, one per HTTP
/// destination.
pub open spec fn http_requests(rs: Seq<OutboxView>, env: Seq<(Seq<char>, Seq<char>)>) -> Seq<HttpRequestView>
    decreases rs.len(),
{
    if rs.len() == 0 {
        Seq::empty()
    } else {
        http_requests(rs.drop_last(), env) + record_requests(rs.last(), rs.last().destinations, env)
    }
}

/// A response status that counts as delivered: 2xx.
pub open spec fn is_success_status(status: Option<u16>) -> bool {
    status matches Some(s) && 200 <= s && s < 300
}

/// Delivery to HTTP endpoints: one request per record and HTTP destination.
pub struct HttpNotificationService;

impl HttpNotificationService {
    /// The deliveries for the HTTP bucket of a grouped batch. `env` lists
    /// the environment's variables, for placeholders in destination headers.
    pub fn plan(grouped: &GroupedOutboxed, env: &Vec<Header>) -> (r: Vec<HttpRequest>)
        ensures
            requests_view(r@) == http_requests(outboxes_view(grouped.http@), headers_view(env@)),
    {
        let ghost rs = outboxes_view(grouped.http@);
        let ghost ev = headers_view(env@);
        let mut out: Vec<HttpRequest> = Vec::new();
        let mut i: usize = 0;
        while i < grouped.http.len()
            invariant
                rs == outboxes_view(grouped.http@),
                ev == headers_view(env@),
                0 <= i <= rs.len(),
                requests_view(out@) == http_requests(rs.subrange(0, i as int), ev),
            decreases rs.len() - i,
        {
            let r = &grouped.http[i];
            let key_text = uuid_to_string(r.idempotent_key);
            let ghost base = requests_view(out@);
            let ghost dv = r@.destinations;
            let mut k: usize = 0;
            proof {
                assert(rs[i as int] == r@);
                assert(dv.subrange(0, 0) =~= Seq::<DestinationView>::empty());
                assert(base =~= base + record_requests(r@, dv.subrange(0, 0), ev));
            }
            while k < r.destinations.len()
                invariant
                    r == &grouped.http@[i as int],
                    ev == headers_view(env@),
                    dv == r@.destinations,
                    key_text@ == uuid_text(r.idempotent_key),
                    0 <= k <= dv.len(),
                    requests_view(out@) == base + record_requests(r@, dv.subrange(0, k as int), ev),
                decreases dv.len() - k,
            {
                proof {
                    assert(dv[k as int] == r.destinations@[k as int]@);
                    assert(dv.subrange(0, k + 1).drop_last() =~= dv.subrange(0, k as int));
                }
                if let OutboxDestination::HttpDestination(d) = &r.destinations[k] {
                    let q = HttpRequest {
                        outbox: r.clone(),
                        method: HttpMethod::resolve(&d.method),
                        url: d.url.clone(),
                        headers: compose_headers(&d.headers, &r.headers, &key_text, env),
                        body: r.payload.clone(),
                    };
                    let ghost before = requests_view(out@);
                    out.push(q);
                    proof {
                        assert(requests_view(out@) =~= before.push(request_view(q)));
                        assert(crate::destination::opt_text_view(d.method) == match d.method {
                            None => None::<Seq<char>>,
                            Some(m) => Some(m@),
                        });
                    }
                }
                k = k + 1;
            }
            proof {
                assert(dv.subrange(0, dv.len() as int) =~= dv);
                assert(rs.subrange(0, i + 1).drop_last() =~= rs.subrange(0, i as int));
            }
            i = i + 1;
        }
        assert(rs.subrange(0, rs.len() as int) =~= rs);
        out
    }

    /// The report on the HTTP deliveries: `statuses[i]` is the response
    /// status of request `i`, or `None` where the request failed in
    /// transport. A record fails if any of its requests did not get a 2xx.
    pub fn collect(requests: &Vec<HttpRequest>, statuses: &Vec<Option<u16>>) -> (r: NotificationResult)
        requires
            requests@.len() == statuses@.len(),
        ensures
            outboxes_view(r.failed@) == failed_sends(
                requests_view(requests@).map_values(|q: HttpRequestView| q.outbox),
                statuses@.map_values(|s: Option<u16>| is_success_status(s)),
            ),
            outboxes_view(r.sent@) == sent_sends(
                requests_view(requests@).map_values(|q: HttpRequestView| q.outbox),
                statuses@.map_values(|s: Option<u16>| is_success_status(s)),
                keys_of(outboxes_view(r.failed@)),
            ),
    {
        let mut records: Vec<Outbox> = Vec::new();
        let mut oks: Vec<bool> = Vec::new();
        let mut i: usize = 0;
        while i < requests.len()
            invariant
                requests@.len() == statuses@.len(),
                0 <= i <= requests@.len(),
                records@.len() == i,
                oks@.len() == i,
                forall|j: int| 0 <= j < i ==> records@[j]@ == requests@[j].outbox@,
                forall|j: int| 0 <= j < i ==> oks@[j] == is_success_status(statuses@[j]),
            decreases requests@.len() - i,
        {
            records.push(requests[i].outbox.clone());
            let ok = match statuses[i] {
                Some(s) => 200 <= s && s < 300,
                None => false,
            };
            oks.push(ok);
            i = i + 1;
        }
        proof {
            assert(outboxes_view(records@) =~= requests_view(requests@).map_values(
                |q: HttpRequestView| q.outbox,
            ));
            assert(oks@ =~= statuses@.map_values(|s: Option<u16>| is_success_status(s)));
        }
        NotificationResult::from_sends(&records, &oks)
    }
}

/// The message attributes of a queue or topic entry: the record's headers,
/// then the idempotent key.
pub fn message_attributes(outbox: &Outbox) -> (r: Vec<Header>)
    ensures
        headers_view(r@) == or_empty(opt_headers_view(outbox.headers)) + seq![
            (crate::headers::IDEMPOTENT_KEY_HEADER@, uuid_text(outbox.idempotent_key)),
        ],
{
    let mut out: Vec<Header> = match &outbox.headers {
        Some(hs) => crate::destination::clone_headers(hs),
        None => Vec::new(),
    };
    let ghost first = headers_view(out@);
    assert(first == or_empty(opt_headers_view(outbox.headers))) by {
        if outbox.headers is None {
            assert(first =~= Seq::empty());
        }
    }
    let key = Header {
        name: String::from_str(crate::headers::IDEMPOTENT_KEY_HEADER),
        value: uuid_to_string(outbox.idempotent_key),
    };
    out.push(key);
    assert(headers_view(out@) =~= first.push(key@));
    out
}

} // verus!
