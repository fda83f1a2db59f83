use outbox_pattern_processor::destination::{Header, HttpDestination, HttpMethod, OutboxDestination, SnsDestination, SqsDestination};
use outbox_pattern_processor::group::group_by_destination;
use outbox_pattern_processor::notification::{union_failed, NotificationResult};
use outbox_pattern_processor::outbox::Outbox;
use outbox_pattern_processor::processor::OutboxProcessor;
use outbox_pattern_processor::repository::{OutboxCleanerSchedule, OutboxRepository, PartitionLock};
use outbox_pattern_processor::resources::{OutboxProcessorResources, Settings};
use outbox_pattern_processor::sinks::{collect_batches, HttpNotificationService, SnsNotificationService, SqsNotificationService};

const NOW: u64 = 1_700_000_000_000;
const GATEWAY: &str = "http://gateway.local";
const QUEUE_URL: &str = "http://queue.local/000000000000/outbox";
const TOPIC_ARN: &str = "arn:aws:sns:us-east-1:000000000000:outbox";

struct Sinks {
    sqs_client: bool,
    sns_client: bool,
    env: Vec<Header>,
}

impl Sinks {
    fn all() -> Self {
        Sinks { sqs_client: true, sns_client: true, env: vec![] }
    }
}

fn http_status(url: &str) -> Option<u16> {
    if url.ends_with("/failed") {
        Some(500)
    } else {
        Some(200)
    }
}

fn target_ok(target: &str) -> bool {
    target == QUEUE_URL || target == TOPIC_ARN
}

fn tick(store: &mut OutboxRepository, settings: &Settings, lock_id: u128, now: u64, sinks: &Sinks) -> usize {
    let batch = OutboxProcessor::acquire(store, settings, lock_id, now);
    let grouped = group_by_destination(&batch);
    let sqs = if sinks.sqs_client {
        let plan = SqsNotificationService::plan(&grouped);
        let ok: Vec<bool> = plan.iter().map(|b| target_ok(&b.target)).collect();
        collect_batches(&plan, &ok)
    } else {
        SqsNotificationService::without_client(&grouped)
    };
    let sns = if sinks.sns_client {
        let plan = SnsNotificationService::plan(&grouped);
        let ok: Vec<bool> = plan.iter().map(|b| target_ok(&b.target)).collect();
        collect_batches(&plan, &ok)
    } else {
        SnsNotificationService::without_client(&grouped)
    };
    let requests = HttpNotificationService::plan(&grouped, &sinks.env);
    let statuses: Vec<Option<u16>> = requests.iter().map(|q| http_status(&q.url)).collect();
    let http: NotificationResult = HttpNotificationService::collect(&requests, &statuses);
    let failed = union_failed(&sqs, &sns, &http);
    OutboxProcessor::complete(store, &batch, &failed, settings, now)
}

fn record(key: u128, partition: u128, destinations: Vec<OutboxDestination>, created_at: u64) -> Outbox {
    Outbox::with_key(key, created_at, partition, destinations, None, "{\"foo\":\"bar\"}")
}

fn http_to(path: &str) -> OutboxDestination {
    OutboxDestination::HttpDestination(HttpDestination { url: format!("{}{}", GATEWAY, path), headers: None, method: None })
}

fn queue(url: &str) -> OutboxDestination {
    OutboxDestination::SqsDestination(SqsDestination { queue_url: url.to_string() })
}

fn topic(arn: &str) -> OutboxDestination {
    OutboxDestination::SnsDestination(SnsDestination { topic_arn: arn.to_string() })
}

fn find(store: &OutboxRepository, key: u128) -> Option<&Outbox> {
    store.records.iter().find(|r| r.idempotent_key == key)
}

fn processed(store: &OutboxRepository) -> usize {
    store.records.iter().filter(|r| r.processed_at.is_some()).count()
}

fn settings(r: OutboxProcessorResources) -> Settings {
    r.settings()
}

#[test]
fn switch_case_should_process_batch_limit() {
    let mut store = OutboxRepository::new();
    for k in 1..=3u128 {
        store.insert(record(k, 100 + k, vec![http_to("/success")], NOW - 1000)).unwrap();
    }
    let s = settings(OutboxProcessorResources::new().with_outbox_query_limit(2));
    assert_eq!(tick(&mut store, &s, 9001, NOW, &Sinks::all()), 2);
    assert_eq!(processed(&store), 2);
    assert_eq!(store.records.len(), 3);
    assert!(store.locks.is_empty());
}

#[test]
fn should_process_all_with_batch_limit() {
    let mut store = OutboxRepository::new();
    for k in 1..=3u128 {
        store.insert(record(k, 100 + k, vec![http_to("/success")], NOW - 1000)).unwrap();
    }
    let s = settings(OutboxProcessorResources::new().with_outbox_query_limit(2));
    tick(&mut store, &s, 9001, NOW, &Sinks::all());
    tick(&mut store, &s, 9002, NOW + 1, &Sinks::all());
    assert_eq!(processed(&store), 3);
    assert!(store.locks.is_empty());
}

#[test]
fn switch_case_should_process_all_one_shot() {
    let mut store = OutboxRepository::new();
    for k in 1..=3u128 {
        store.insert(record(k, 100 + k, vec![http_to("/success")], NOW - 1000)).unwrap();
    }
    let s = settings(OutboxProcessorResources::new());
    assert_eq!(tick(&mut store, &s, 9001, NOW, &Sinks::all()), 3);
    assert_eq!(processed(&store), 3);
    assert!(store.records.iter().all(|r| r.attempts == 1));
    assert!(store.locks.is_empty());
}

#[test]
fn switch_case_should_process_ignoring_fails() {
    let mut store = OutboxRepository::new();
    store.insert(record(1, 101, vec![http_to("/failed")], NOW - 1000)).unwrap();
    store.insert(record(2, 102, vec![http_to("/success")], NOW - 1000)).unwrap();
    let s = settings(OutboxProcessorResources::new());
    tick(&mut store, &s, 9001, NOW, &Sinks::all());
    let failed = find(&store, 1).unwrap();
    assert!(failed.processed_at.is_none());
    assert_eq!(failed.attempts, 1);
    assert!(find(&store, 2).unwrap().processed_at.is_some());
    assert!(store.locks.is_empty());
}

#[test]
fn should_process_respect_attempts_when_is_less_than_threshold() {
    let mut store = OutboxRepository::new();
    store.insert(record(1, 101, vec![http_to("/failed")], NOW - 1000)).unwrap();
    store.insert(record(2, 102, vec![http_to("/success")], NOW - 1000)).unwrap();
    let s = settings(OutboxProcessorResources::new().with_outbox_failure_limit(2));
    assert_eq!(tick(&mut store, &s, 9001, NOW, &Sinks::all()), 2);
    assert_eq!(tick(&mut store, &s, 9002, NOW + 1, &Sinks::all()), 1);
    let failed = find(&store, 1).unwrap();
    assert_eq!(failed.attempts, 2);
    assert!(failed.processed_at.is_none());
    assert!(store.locks.is_empty());
}

#[test]
fn should_process_respect_attempts_when_is_greater_than_threshold() {
    let mut store = OutboxRepository::new();
    store.insert(record(1, 101, vec![http_to("/failed")], NOW - 1000)).unwrap();
    store.insert(record(2, 102, vec![http_to("/success")], NOW - 1000)).unwrap();
    store.insert(record(3, 102, vec![http_to("/success")], NOW - 900)).unwrap();
    let s = settings(OutboxProcessorResources::new().with_outbox_failure_limit(2));
    tick(&mut store, &s, 9001, NOW, &Sinks::all());
    tick(&mut store, &s, 9002, NOW + 1, &Sinks::all());
    // the failing record has used up its attempts: the third tick skips it
    // while its partner partition still progresses
    assert_eq!(tick(&mut store, &s, 9003, NOW + 2, &Sinks::all()), 0);
    let failed = find(&store, 1).unwrap();
    assert_eq!(failed.attempts, 2);
    assert!(failed.processed_at.is_none());
    assert!(find(&store, 2).unwrap().processed_at.is_some());
    assert!(find(&store, 3).unwrap().processed_at.is_some());
}

#[test]
fn switch_case_should_process_partition_with_one_shot() {
    let mut store = OutboxRepository::new();
    store.insert(record(1, 100, vec![http_to("/success")], NOW - 2000)).unwrap();
    store.insert(record(2, 100, vec![http_to("/success")], NOW - 1000)).unwrap();
    let s = settings(OutboxProcessorResources::new());
    assert_eq!(tick(&mut store, &s, 9001, NOW, &Sinks::all()), 1);
    assert!(find(&store, 1).unwrap().processed_at.is_some());
    assert!(find(&store, 2).unwrap().processed_at.is_none());
    assert!(store.locks.is_empty());
}

#[test]
fn should_process_partition_with_one_shot_and_scheduled_lock_delete() {
    let mut store = OutboxRepository::new();
    store.insert(record(1, 100, vec![http_to("/success")], NOW - 2000)).unwrap();
    store.insert(record(2, 100, vec![http_to("/success")], NOW - 1000)).unwrap();
    let s = settings(OutboxProcessorResources::new().with_scheduled_clear_locked_partition(true));
    tick(&mut store, &s, 9001, NOW, &Sinks::all());
    assert!(find(&store, 1).unwrap().processed_at.is_some());
    assert!(find(&store, 2).unwrap().processed_at.is_none());
    assert_eq!(store.locks.len(), 1);
    assert_eq!(store.locks[0].processed_at, Some(NOW));
}

fn concurrent_store() -> OutboxRepository {
    let mut store = OutboxRepository::new();
    let mut key = 1u128;
    for _ in 0..11 {
        store.insert(record(key, 500, vec![http_to("/success")], NOW - 5000 + key as u64)).unwrap();
        key += 1;
    }
    for p in 0..10u128 {
        store.insert(record(key, 600 + p, vec![http_to("/success")], NOW - 1000)).unwrap();
        key += 1;
    }
    store
}

// The store applies each operation whole, as the database applies each
// statement; two workers' ticks interleave between operations. Both
// interleavings of two overlapping ticks are run.
#[test]
fn switch_case_should_process_partition_concurrent_shots() {
    let s = settings(OutboxProcessorResources::new());
    for a_completes_first in [true, false] {
        let mut store = concurrent_store();
        assert_eq!(store.records.len(), 21);
        let a = OutboxProcessor::acquire(&mut store, &s, 7001, NOW);
        let b = OutboxProcessor::acquire(&mut store, &s, 7002, NOW);
        assert_eq!(a.len() + b.len(), 11);
        assert!(a.iter().all(|x| b.iter().all(|y| x.partition_key != y.partition_key)));
        if a_completes_first {
            OutboxProcessor::complete(&mut store, &a, &vec![], &s, NOW);
            OutboxProcessor::complete(&mut store, &b, &vec![], &s, NOW);
        } else {
            OutboxProcessor::complete(&mut store, &b, &vec![], &s, NOW);
            OutboxProcessor::complete(&mut store, &a, &vec![], &s, NOW);
        }
        assert_eq!(store.records.len(), 21);
        assert_eq!(processed(&store), 11);
        assert!(store.locks.is_empty());
        assert!(find(&store, 1).unwrap().processed_at.is_some());
    }
}

#[test]
fn concurrent_shots_with_small_batches() {
    let mut store = concurrent_store();
    let s = settings(OutboxProcessorResources::new().with_outbox_query_limit(10));
    let a = OutboxProcessor::acquire(&mut store, &s, 7001, NOW);
    let b = OutboxProcessor::acquire(&mut store, &s, 7002, NOW);
    assert_eq!((a.len(), b.len()), (10, 1));
    OutboxProcessor::complete(&mut store, &b, &vec![], &s, NOW);
    OutboxProcessor::complete(&mut store, &a, &vec![], &s, NOW);
    assert_eq!(processed(&store), 11);
    assert!(store.locks.is_empty());
}

#[test]
fn switch_case_should_process_partition_with_two_shots() {
    let mut store = OutboxRepository::new();
    store.insert(record(1, 100, vec![http_to("/success")], NOW - 2000)).unwrap();
    store.insert(record(2, 100, vec![http_to("/success")], NOW - 1000)).unwrap();
    let s = settings(OutboxProcessorResources::new());
    tick(&mut store, &s, 9001, NOW, &Sinks::all());
    tick(&mut store, &s, 9002, NOW + 1, &Sinks::all());
    assert_eq!(processed(&store), 2);
    assert!(store.locks.is_empty());
}

#[test]
fn should_process_partition_with_two_shots_and_scheduled_lock_delete() {
    let mut store = OutboxRepository::new();
    store.insert(record(1, 100, vec![http_to("/success")], NOW - 2000)).unwrap();
    store.insert(record(2, 100, vec![http_to("/success")], NOW - 1000)).unwrap();
    let s = settings(OutboxProcessorResources::new().with_scheduled_clear_locked_partition(true));
    tick(&mut store, &s, 9001, NOW, &Sinks::all());
    tick(&mut store, &s, 9002, NOW + 1, &Sinks::all());
    assert_eq!(processed(&store), 2);
    assert_eq!(store.locks.len(), 2);
    assert!(store.locks.iter().all(|l| l.processed_at.is_some()));
}

fn http_method_of(method: &str) -> HttpMethod {
    let d = HttpDestination { url: format!("{}/success", GATEWAY), headers: None, method: Some(method.to_string()) };
    let mut store = OutboxRepository::new();
    store.insert(record(1, 100, vec![OutboxDestination::HttpDestination(d)], NOW - 1000)).unwrap();
    let batch = store.list(10, 10, 30_000, 9001, NOW);
    let grouped = group_by_destination(&batch);
    let requests = HttpNotificationService::plan(&grouped, &vec![]);
    assert_eq!(requests.len(), 1);
    requests[0].method
}

#[test]
fn switch_case_should_process_http_put() {
    assert_eq!(http_method_of("PUT"), HttpMethod::Put);
    assert_eq!(http_method_of("put"), HttpMethod::Put);
}

#[test]
fn switch_case_should_process_http_patch() {
    assert_eq!(http_method_of("PATCH"), HttpMethod::Patch);
    assert_eq!(http_method_of("patch"), HttpMethod::Patch);
}

#[test]
fn switch_case_should_process_http_with_headers() {
    let d = HttpDestination {
        url: format!("{}/success", GATEWAY),
        headers: Some(vec![
            Header { name: "X-ENV-HEADER".to_string(), value: "{{X_ENV_HEADER_VALUE}}".to_string() },
            Header { name: "X-HTTP-HEADER".to_string(), value: "my-http-value".to_string() },
        ]),
        method: None,
    };
    let r = Outbox::with_key(
        0x0190_0000_0000_7000_8000_0000_0000_0001,
        NOW - 1000,
        100,
        vec![OutboxDestination::HttpDestination(d)],
        Some(vec![Header { name: "X-OUTBOX-HEADER".to_string(), value: "my-outbox-value".to_string() }]),
        "{}",
    );
    let mut store = OutboxRepository::new();
    store.insert(r).unwrap();
    let batch = store.list(10, 10, 30_000, 9001, NOW);
    let grouped = group_by_destination(&batch);
    let env = vec![Header { name: "X_ENV_HEADER_VALUE".to_string(), value: "my-env-value".to_string() }];
    let requests = HttpNotificationService::plan(&grouped, &env);
    assert_eq!(requests.len(), 1);
    let headers: Vec<(String, String)> = requests[0].headers.iter().map(|h| (h.name.clone(), h.value.clone())).collect();
    assert_eq!(
        headers,
        vec![
            ("X-ENV-HEADER".to_string(), "my-env-value".to_string()),
            ("X-HTTP-HEADER".to_string(), "my-http-value".to_string()),
            ("X-OUTBOX-HEADER".to_string(), "my-outbox-value".to_string()),
            ("x-idempotent-key".to_string(), "01900000-0000-7000-8000-000000000001".to_string()),
        ]
    );
}

#[test]
fn switch_case_should_process_sns() {
    let mut store = OutboxRepository::new();
    store.insert(record(1, 100, vec![topic(TOPIC_ARN)], NOW - 1000)).unwrap();
    let s = settings(OutboxProcessorResources::new());
    assert_eq!(tick(&mut store, &s, 9001, NOW, &Sinks::all()), 1);
    assert!(find(&store, 1).unwrap().processed_at.is_some());
    assert!(store.locks.is_empty());
}

#[test]
fn switch_case_should_process_sqs() {
    let mut store = OutboxRepository::new();
    store.insert(record(1, 100, vec![queue(QUEUE_URL)], NOW - 1000)).unwrap();
    let s = settings(OutboxProcessorResources::new());
    assert_eq!(tick(&mut store, &s, 9001, NOW, &Sinks::all()), 1);
    assert!(find(&store, 1).unwrap().processed_at.is_some());
    assert!(store.locks.is_empty());
}

#[test]
fn switch_case_should_process_for_all_destination_successfully() {
    let mut store = OutboxRepository::new();
    store.insert(record(1, 100, vec![http_to("/success"), queue(QUEUE_URL), topic(TOPIC_ARN)], NOW - 1000)).unwrap();
    let s = settings(OutboxProcessorResources::new());
    tick(&mut store, &s, 9001, NOW, &Sinks::all());
    assert!(find(&store, 1).unwrap().processed_at.is_some());
    assert!(store.locks.is_empty());
}

#[test]
fn switch_case_should_process_ignoring_http_fail() {
    let mut store = OutboxRepository::new();
    store.insert(record(1, 100, vec![http_to("/failed"), queue(QUEUE_URL), topic(TOPIC_ARN)], NOW - 1000)).unwrap();
    let s = settings(OutboxProcessorResources::new());
    tick(&mut store, &s, 9001, NOW, &Sinks::all());
    let r = find(&store, 1).unwrap();
    assert!(r.processed_at.is_none());
    assert_eq!(r.attempts, 1);
    assert!(store.locks.is_empty());
}

#[test]
fn switch_case_should_process_ignoring_sqs_fail() {
    let mut store = OutboxRepository::new();
    store.insert(record(1, 100, vec![http_to("/success"), queue("https://invalid.queue.com"), topic(TOPIC_ARN)], NOW - 1000)).unwrap();
    let s = settings(OutboxProcessorResources::new());
    tick(&mut store, &s, 9001, NOW, &Sinks::all());
    let r = find(&store, 1).unwrap();
    assert!(r.processed_at.is_none());
    assert_eq!(r.attempts, 1);
    assert!(store.locks.is_empty());
}

#[test]
fn switch_case_should_process_ignoring_sns_fail() {
    let mut store = OutboxRepository::new();
    store.insert(record(1, 100, vec![http_to("/success"), queue(QUEUE_URL), topic("invalid::arn")], NOW - 1000)).unwrap();
    let s = settings(OutboxProcessorResources::new());
    tick(&mut store, &s, 9001, NOW, &Sinks::all());
    let r = find(&store, 1).unwrap();
    assert!(r.processed_at.is_none());
    assert_eq!(r.attempts, 1);
    assert!(store.locks.is_empty());
}

#[test]
fn should_process_deleting_for_each_one_that_result_is_success() {
    let mut store = OutboxRepository::new();
    store.insert(record(1, 101, vec![http_to("/success")], NOW - 1000)).unwrap();
    store.insert(record(2, 102, vec![http_to("/failed")], NOW - 1000)).unwrap();
    let s = settings(OutboxProcessorResources::new().with_delete_after_process_successfully(true));
    tick(&mut store, &s, 9001, NOW, &Sinks::all());
    assert!(find(&store, 1).is_none());
    assert_eq!(find(&store, 2).unwrap().attempts, 1);
    assert!(store.locks.is_empty());
}

#[test]
fn should_process_fail_when_destination_is_sqs_but_client_is_none() {
    let mut store = OutboxRepository::new();
    store.insert(record(1, 100, vec![queue(QUEUE_URL)], NOW - 1000)).unwrap();
    let s = settings(OutboxProcessorResources::new());
    let sinks = Sinks { sqs_client: false, sns_client: true, env: vec![] };
    tick(&mut store, &s, 9001, NOW, &sinks);
    let r = find(&store, 1).unwrap();
    assert!(r.processed_at.is_none());
    assert_eq!(r.attempts, 1);
    assert!(store.locks.is_empty());
}

#[test]
fn should_process_fail_when_destination_is_sns_but_client_is_none() {
    let mut store = OutboxRepository::new();
    store.insert(record(1, 100, vec![topic(TOPIC_ARN)], NOW - 1000)).unwrap();
    let s = settings(OutboxProcessorResources::new());
    let sinks = Sinks { sqs_client: true, sns_client: false, env: vec![] };
    tick(&mut store, &s, 9001, NOW, &sinks);
    let r = find(&store, 1).unwrap();
    assert!(r.processed_at.is_none());
    assert_eq!(r.attempts, 1);
    assert!(store.locks.is_empty());
}

#[test]
fn should_process_successfully_when_destination_is_http_and_sqs_and_sns_clients_are_none() {
    let mut store = OutboxRepository::new();
    store.insert(record(1, 100, vec![http_to("/success")], NOW - 1000)).unwrap();
    let s = settings(OutboxProcessorResources::new());
    let sinks = Sinks { sqs_client: false, sns_client: false, env: vec![] };
    tick(&mut store, &s, 9001, NOW, &sinks);
    assert!(find(&store, 1).unwrap().processed_at.is_some());
    assert!(store.locks.is_empty());
}

#[test]
fn should_process_ignoring_scheduled_processes() {
    let mut store = OutboxRepository::new();
    let r = record(1, 100, vec![http_to("/success")], NOW - 1000).start_delay(NOW + 10_000);
    store.insert(r).unwrap();
    let s = settings(OutboxProcessorResources::new());
    assert_eq!(tick(&mut store, &s, 9001, NOW, &Sinks::all()), 0);
    assert!(find(&store, 1).unwrap().processed_at.is_none());
    assert_eq!(tick(&mut store, &s, 9002, NOW + 10_001, &Sinks::all()), 1);
    assert!(find(&store, 1).unwrap().processed_at.is_some());
}

#[test]
fn should_process_when_persisted_by_repository() {
    let mut store = OutboxRepository::new();
    let r = Outbox::http_post_json(100, &format!("{}/success", GATEWAY), Some(vec![Header { name: "foo".to_string(), value: "bar".to_string() }]), "{}");
    let key = r.idempotent_key;
    let r = Outbox { created_at: NOW - 1000, process_after: NOW - 1000, ..r };
    store.insert(r).unwrap();
    let s = settings(OutboxProcessorResources::new());
    assert_eq!(tick(&mut store, &s, 9001, NOW, &Sinks::all()), 1);
    assert!(find(&store, key).unwrap().processed_at.is_some());
}

fn lock(pk: u128, until: u64, processed_at: Option<u64>) -> PartitionLock {
    PartitionLock { partition_key: pk, lock_id: 1, processing_until: until, processed_at }
}

fn store_with_locks(cron: &str, now: u64) -> OutboxRepository {
    let mut store = OutboxRepository::new();
    store.locks = vec![
        lock(1, now + 30_000, Some(now - 1000)),
        lock(2, now + 30_000, Some(now - 1000)),
        lock(3, now + 30_000, None),
    ];
    store.set_cleaner_schedule(OutboxCleanerSchedule { cron_expression: cron.to_string(), last_execution: now - 2000 });
    store
}

#[test]
fn should_clear_outbox_lock() {
    let mut store = store_with_locks("* * * * * *", NOW);
    assert_eq!(store.one_shot_processed_locked_cleaner(NOW).unwrap(), true);
    assert_eq!(store.locks, vec![lock(3, NOW + 30_000, None)]);
    assert_eq!(store.cleaner_schedule.as_ref().unwrap().last_execution, NOW);
}

#[test]
fn should_ignore_clear_outbox_lock_when_resource_is_locked() {
    // no schedule row is visible (another worker holds it): nothing happens
    let mut store = store_with_locks("* * * * * *", NOW);
    store.cleaner_schedule = None;
    assert_eq!(store.one_shot_processed_locked_cleaner(NOW).unwrap(), false);
    assert_eq!(store.locks.len(), 3);
}

#[test]
fn should_ignore_clear_outbox_lock_when_is_schedule_is_not_on_time() {
    let mut store = store_with_locks("0 */2 * * * *", NOW);
    assert_eq!(store.one_shot_processed_locked_cleaner(NOW).unwrap(), false);
    assert_eq!(store.locks.len(), 3);
    assert_eq!(store.cleaner_schedule.as_ref().unwrap().last_execution, NOW - 2000);
}
