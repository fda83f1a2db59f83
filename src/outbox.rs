use vstd::prelude::*;
use crate::destination::{
    clone_destinations, clone_opt_headers, destinations_view, opt_headers_view, DestinationView,
    Header, OutboxDestination,
};

verus! {

/// An outbox record: an event waiting to be delivered to its destinations.
/// Identifiers are 128-bit UUID values; times are milliseconds since the Unix
/// epoch.
#[derive(Debug)]
pub struct Outbox {
    pub idempotent_key: u128,
    pub partition_key: u128,
    pub destinations: Vec<OutboxDestination>,
    pub headers: Option<Vec<Header>>,
    pub payload: String,
    pub attempts: u32,
    pub created_at: u64,
    pub process_after: u64,
    pub processed_at: Option<u64>,
}

/// The model of an outbox record.
pub ghost struct OutboxView {
    pub idempotent_key: u128,
    pub partition_key: u128,
    pub destinations: Seq<DestinationView>,
    pub headers: Option<Seq<(Seq<char>, Seq<char>)>>,
    pub payload: Seq<char>,
    pub attempts: u32,
    pub created_at: u64,
    pub process_after: u64,
    pub processed_at: Option<u64>,
}

impl View for Outbox {
    type V = OutboxView;

    open spec fn view(&self) -> OutboxView {
        OutboxView {
            idempotent_key: self.idempotent_key,
            partition_key: self.partition_key,
            destinations: destinations_view(self.destinations@),
            headers: opt_headers_view(self.headers),
            payload: self.payload@,
            attempts: self.attempts,
            created_at: self.created_at,
            process_after: self.process_after,
            processed_at: self.processed_at,
        }
    }
}

impl Clone for Outbox {
    fn clone(&self) -> (r: Self)
        ensures
            r@ == self@,
    {
        Outbox {
            idempotent_key: self.idempotent_key,
            partition_key: self.partition_key,
            destinations: clone_destinations(&self.destinations),
            headers: clone_opt_headers(&self.headers),
            payload: self.payload.clone(),
            attempts: self.attempts,
            created_at: self.created_at,
            process_after: self.process_after,
            processed_at: self.processed_at,
        }
    }
}

/// The models of a list of records.
pub open spec fn outboxes_view(s: Seq<Outbox>) -> Seq<OutboxView> {
    s.map_values(|o: Outbox| o@)
}

/// The idempotent keys of a list of records, in order.
pub open spec fn keys_of(s: Seq<OutboxView>) -> Seq<u128> {
    s.map_values(|o: OutboxView| o.idempotent_key)
}

/// The partition keys of a list of records, in order.
pub open spec fn partitions_of(s: Seq<OutboxView>) -> Seq<u128> {
    s.map_values(|o: OutboxView| o.partition_key)
}

/// A lower-case hexadecimal digit.
pub open spec fn hex_digit(n: u128) -> char {
    seq!['0', '1', '2', '3', '4', '5', '6', '7', '8', '9', 'a', 'b', 'c', 'd', 'e', 'f'][n as int]
}

/// Hex digit `p` (0 the most significant) of a 128-bit value.
pub open spec fn nibble(k: u128, p: int) -> u128 {
    (k >> ((4 * (31 - p)) as u128)) & 15
}

/// The hyphenated lower-case form of a UUID: 32 hex digits, most
/// significant first, in groups of 8, 4, 4, 4 and 12 joined by `-`.
pub open spec fn uuid_text(k: u128) -> Seq<char> {
    Seq::new(
        36,
        |i: int|
            if i == 8 || i == 13 || i == 18 || i == 23 {
                '-'
            } else {
                let p = if i < 8 {
                    i
                } else if i < 13 {
                    i - 1
                } else if i < 18 {
                    i - 2
                } else if i < 23 {
                    i - 3
                } else {
                    i - 4
                };
                hex_digit(nibble(k, p))
            },
    )
}

/// A version-7 UUID: version field 7 and the RFC 9562 variant bits `10`.
pub open spec fn is_uuid_v7(k: u128) -> bool {
    (k >> 76u128) & 15 == 7 && (k >> 62u128) & 3 == 2
}

/// Relies on `uuid::Uuid::from_u128` and `Uuid`'s `Display`, which prints
/// the hyphenated lower-case form.
#[verifier::external_body]
pub(crate) fn uuid_to_string(k: u128) -> (r: String)
    ensures
        r@ == uuid_text(k),
{
    uuid::Uuid::from_u128(k).to_string()
}

/// Relies on `uuid::Uuid::now_v7` (through `Uuid::new_v7`, which sets the
/// version and variant bits) and `Uuid::as_u128` (big-endian): a fresh
/// time-ordered UUID. Beyond its version and variant nothing is promised.
#[verifier::external_body]
fn new_uuid_v7() -> (r: u128)
    ensures
        is_uuid_v7(r),
{
    uuid::Uuid::now_v7().as_u128()
}

/// Relies on `chrono::Utc::now`: the wall clock in milliseconds since the
/// Unix epoch, clamped at zero. Nothing is promised of the value.
#[verifier::external_body]
fn now_millis() -> (r: u64) {
    u64::try_from(chrono::Utc::now().timestamp_millis()).unwrap_or(0)
}

impl Outbox {
    /// A new record as a producer writes it, from a key, a creation time
    /// and its contents: no attempts yet, due at creation, not processed.
    pub fn with_key(
        idempotent_key: u128,
        created_at: u64,
        partition_key: u128,
        destinations: Vec<OutboxDestination>,
        headers: Option<Vec<Header>>,
        payload: &str,
    ) -> (r: Self)
        ensures
            r.idempotent_key == idempotent_key,
            r.partition_key == partition_key,
            r.destinations@ == destinations@,
            r.headers == headers,
            r.payload@ == payload@,
            r.attempts == 0,
            r.created_at == created_at,
            r.process_after == created_at,
            r.processed_at is None,
    {
        Outbox {
            idempotent_key,
            partition_key,
            destinations,
            headers,
            payload: String::from_str(payload),
            attempts: 0,
            created_at,
            process_after: created_at,
            processed_at: None,
        }
    }

    /// A new record with a fresh time-ordered key, created now.
    pub fn new(
        partition_key: u128,
        destinations: Vec<OutboxDestination>,
        headers: Option<Vec<Header>>,
        payload: &str,
    ) -> (r: Self)
        ensures
            is_uuid_v7(r.idempotent_key),
            r.partition_key == partition_key,
            r.destinations@ == destinations@,
            r.headers == headers,
            r.payload@ == payload@,
            r.attempts == 0,
            r.process_after == r.created_at,
            r.processed_at is None,
    {
        let key = new_uuid_v7();
        let now = now_millis();
        Outbox::with_key(key, now, partition_key, destinations, headers, payload)
    }

    /// The same record, held back until `process_after`.
    pub fn start_delay(&self, process_after: u64) -> (r: Self)
        ensures
            r@ == (OutboxView { process_after, ..self@ }),
    {
        let mut r = self.clone();
        r.process_after = process_after;
        r
    }

    /// A record for one HTTP destination (with `Content-Type:
    /// application/json` added to the destination headers) after the given
    /// other destinations.
    fn http(
        partition_key: u128,
        url: &str,
        headers: Option<Vec<Header>>,
        destinations: Vec<OutboxDestination>,
        payload: &str,
        method: Option<String>,
    ) -> (r: Self)
        ensures
            r.partition_key == partition_key,
            r.payload@ == payload@,
            r.headers is None,
            r.destinations@.len() == destinations@.len() + 1,
            forall|i: int| 0 <= i < destinations@.len() ==> r.destinations@[i] == destinations@[i],
            r.destinations@[destinations@.len() as int] matches OutboxDestination::HttpDestination(d)
                && d.url@ == url@ && d.method == method,
    {
        let mut extended = match headers {
            Some(h) => h,
            None => Vec::new(),
        };
        extended.push(Header {
            name: String::from_str("Content-Type"),
            value: String::from_str("application/json"),
        });
        let mut all = destinations;
        all.push(OutboxDestination::HttpDestination(crate::destination::HttpDestination {
            url: String::from_str(url),
            headers: Some(extended),
            method,
        }));
        Outbox::new(partition_key, all, None, payload)
    }

    /// A JSON record delivered by POST to `url`.
    pub fn http_post_json(partition_key: u128, url: &str, headers: Option<Vec<Header>>, payload: &str) -> (r: Self)
        ensures
            r.partition_key == partition_key,
            r.payload@ == payload@,
            r.destinations@.len() == 1,
            r.destinations@[0] matches OutboxDestination::HttpDestination(d) && d.url@ == url@ && d.method is None,
    {
        Outbox::http(partition_key, url, headers, Vec::new(), payload, None)
    }

    /// A JSON record delivered by PUT to `url`.
    pub fn http_put_json(partition_key: u128, url: &str, headers: Option<Vec<Header>>, payload: &str) -> (r: Self)
        ensures
            r.partition_key == partition_key,
            r.payload@ == payload@,
            r.destinations@.len() == 1,
            r.destinations@[0] matches OutboxDestination::HttpDestination(d) && d.url@ == url@
                && (d.method matches Some(m) && m@ == "put"@),
    {
        Outbox::http(partition_key, url, headers, Vec::new(), payload, Some(String::from_str("put")))
    }

    /// A JSON record delivered by PATCH to `url`.
    pub fn http_patch_json(partition_key: u128, url: &str, headers: Option<Vec<Header>>, payload: &str) -> (r: Self)
        ensures
            r.partition_key == partition_key,
            r.payload@ == payload@,
            r.destinations@.len() == 1,
            r.destinations@[0] matches OutboxDestination::HttpDestination(d) && d.url@ == url@
                && (d.method matches Some(m) && m@ == "patch"@),
    {
        Outbox::http(partition_key, url, headers, Vec::new(), payload, Some(String::from_str("patch")))
    }

    /// A record delivered to one queue.
    pub fn sqs(partition_key: u128, queue_url: &str, headers: Option<Vec<Header>>, payload: &str) -> (r: Self)
        ensures
            r.partition_key == partition_key,
            r.payload@ == payload@,
            r.headers == headers,
            r.destinations@.len() == 1,
            r.destinations@[0] matches OutboxDestination::SqsDestination(d) && d.queue_url@ == queue_url@,
    {
        let mut ds: Vec<OutboxDestination> = Vec::new();
        ds.push(OutboxDestination::SqsDestination(crate::destination::SqsDestination {
            queue_url: String::from_str(queue_url),
        }));
        Outbox::new(partition_key, ds, headers, payload)
    }

    /// A record published to one topic.
    pub fn sns(partition_key: u128, topic_arn: &str, headers: Option<Vec<Header>>, payload: &str) -> (r: Self)
        ensures
            r.partition_key == partition_key,
            r.payload@ == payload@,
            r.headers == headers,
            r.destinations@.len() == 1,
            r.destinations@[0] matches OutboxDestination::SnsDestination(d) && d.topic_arn@ == topic_arn@,
    {
        let mut ds: Vec<OutboxDestination> = Vec::new();
        ds.push(OutboxDestination::SnsDestination(crate::destination::SnsDestination {
            topic_arn: String::from_str(topic_arn),
        }));
        Outbox::new(partition_key, ds, headers, payload)
    }

    /// A JSON record published to a topic and delivered by POST to `url`.
    pub fn http_and_sns(partition_key: u128, url: &str, topic_arn: &str, headers: Option<Vec<Header>>, payload: &str) -> (r: Self)
        ensures
            r.partition_key == partition_key,
            r.payload@ == payload@,
            r.destinations@.len() == 2,
            r.destinations@[0] matches OutboxDestination::SnsDestination(d) && d.topic_arn@ == topic_arn@,
            r.destinations@[1] matches OutboxDestination::HttpDestination(d) && d.url@ == url@ && d.method is None,
    {
        let mut ds: Vec<OutboxDestination> = Vec::new();
        ds.push(OutboxDestination::SnsDestination(crate::destination::SnsDestination {
            topic_arn: String::from_str(topic_arn),
        }));
        assert(ds@[0] matches OutboxDestination::SnsDestination(d) && d.topic_arn@ == topic_arn@);
        Outbox::http(partition_key, url, headers, ds, payload, None)
    }

    /// A JSON record sent to a queue and delivered by POST to `url`.
    pub fn http_and_sqs(partition_key: u128, url: &str, queue_url: &str, headers: Option<Vec<Header>>, payload: &str) -> (r: Self)
        ensures
            r.partition_key == partition_key,
            r.payload@ == payload@,
            r.destinations@.len() == 2,
            r.destinations@[0] matches OutboxDestination::SqsDestination(d) && d.queue_url@ == queue_url@,
            r.destinations@[1] matches OutboxDestination::HttpDestination(d) && d.url@ == url@ && d.method is None,
    {
        let mut ds: Vec<OutboxDestination> = Vec::new();
        ds.push(OutboxDestination::SqsDestination(crate::destination::SqsDestination {
            queue_url: String::from_str(queue_url),
        }));
        assert(ds@[0] matches OutboxDestination::SqsDestination(d) && d.queue_url@ == queue_url@);
        Outbox::http(partition_key, url, headers, ds, payload, None)
    }
}

/// A copy of a list of records.
pub fn clone_outboxes(v: &Vec<Outbox>) -> (r: Vec<Outbox>)
    ensures
        outboxes_view(r@) == outboxes_view(v@),
{
    let r = v.clone();
    assert(outboxes_view(r@) =~= outboxes_view(v@));
    r
}

/// The idempotent keys of a list of records.
pub fn idempotent_keys(v: &Vec<Outbox>) -> (r: Vec<u128>)
    ensures
        r@ == keys_of(outboxes_view(v@)),
{
    let mut r: Vec<u128> = Vec::new();
    let mut i: usize = 0;
    while i < v.len()
        invariant
            0 <= i <= v@.len(),
            r@ == keys_of(outboxes_view(v@.subrange(0, i as int))),
        decreases v@.len() - i,
    {
        r.push(v[i].idempotent_key);
        i = i + 1;
        assert(keys_of(outboxes_view(v@.subrange(0, i as int))) =~= keys_of(
            outboxes_view(v@.subrange(0, i - 1 as int)),
        ).push(v@[i - 1].idempotent_key));
    }
    assert(v@.subrange(0, v@.len() as int) =~= v@);
    r
}

/// The partition keys of a list of records.
pub fn partition_keys(v: &Vec<Outbox>) -> (r: Vec<u128>)
    ensures
        r@ == partitions_of(outboxes_view(v@)),
{
    let mut r: Vec<u128> = Vec::new();
    let mut i: usize = 0;
    while i < v.len()
        invariant
            0 <= i <= v@.len(),
            r@ == partitions_of(outboxes_view(v@.subrange(0, i as int))),
        decreases v@.len() - i,
    {
        r.push(v[i].partition_key);
        i = i + 1;
        assert(partitions_of(outboxes_view(v@.subrange(0, i as int))) =~= partitions_of(
            outboxes_view(v@.subrange(0, i - 1 as int)),
        ).push(v@[i - 1].partition_key));
    }
    assert(v@.subrange(0, v@.len() as int) =~= v@);
    r
}

/// Whether a list of identifiers holds one.
pub fn contains_id(v: &Vec<u128>, k: u128) -> (r: bool)
    ensures
        r == v@.contains(k),
{
    let mut i: usize = 0;
    while i < v.len()
        invariant
            0 <= i <= v@.len(),
            forall|j: int| 0 <= j < i ==> v@[j] != k,
        decreases v@.len() - i,
    {
        if v[i] == k {
            assert(v@[i as int] == k);
            return true;
        }
        i = i + 1;
    }
    false
}

} // verus!
