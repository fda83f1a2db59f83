use outbox_pattern_processor::cleaner::{cleaner_due, next_cleaner_run};
use outbox_pattern_processor::destination::{Header, HttpDestination, HttpMethod, OutboxDestination, SqsDestination};
use outbox_pattern_processor::environment::{parse_i32, parse_unsigned, Database, Environment};
use outbox_pattern_processor::error::{AppError, ErrorKind, OutboxPatternProcessorError};
use outbox_pattern_processor::group::group_by_destination;
use outbox_pattern_processor::headers::{is_env_placeholder, resolve_value};
use outbox_pattern_processor::notification::NotificationResult;
use outbox_pattern_processor::outbox::Outbox;
use outbox_pattern_processor::processor::{BookkeepingStep, OutboxProcessor};
use outbox_pattern_processor::repository::{OutboxCleanerSchedule, OutboxRepository, PartitionLock};
use outbox_pattern_processor::resources::OutboxProcessorResources;
use outbox_pattern_processor::sinks::{collect_batches, message_attributes, SqsNotificationService};

const NOW: u64 = 1_700_000_000_000;

fn http_record(key: u128, partition: u128, at: u64) -> Outbox {
    let d = OutboxDestination::HttpDestination(HttpDestination { url: "http://h/success".to_string(), headers: None, method: None });
    Outbox::with_key(key, at, partition, vec![d], None, "{}")
}

fn queue_record(key: u128, partition: u128, url: &str) -> Outbox {
    let d = OutboxDestination::SqsDestination(SqsDestination { queue_url: url.to_string() });
    Outbox::with_key(key, NOW - 1000, partition, vec![d], None, "{}")
}

fn snapshot(store: &OutboxRepository) -> (Vec<(u128, u32, u64, Option<u64>)>, Vec<PartitionLock>) {
    (
        store.records.iter().map(|r| (r.idempotent_key, r.attempts, r.process_after, r.processed_at)).collect(),
        store.locks.clone(),
    )
}

#[test]
fn idle_tick_changes_nothing() {
    let mut store = OutboxRepository::new();
    store.insert(http_record(1, 10, NOW + 5000)).unwrap();
    let mut done = http_record(2, 11, NOW - 5000);
    done.processed_at = Some(NOW - 100);
    store.insert(done).unwrap();
    store.locks.push(PartitionLock { partition_key: 12, lock_id: 5, processing_until: NOW + 1000, processed_at: None });
    let before = snapshot(&store);
    let s = OutboxProcessorResources::new().settings();
    let batch = OutboxProcessor::acquire(&mut store, &s, 77, NOW);
    assert!(batch.is_empty());
    assert_eq!(OutboxProcessor::complete(&mut store, &batch, &vec![], &s, NOW), 0);
    assert_eq!(snapshot(&store), before);
}

#[test]
fn at_most_one_active_lock_per_partition() {
    let mut store = OutboxRepository::new();
    store.insert(http_record(1, 10, NOW - 3000)).unwrap();
    store.insert(http_record(2, 10, NOW - 2000)).unwrap();
    store.insert(http_record(3, 20, NOW - 1000)).unwrap();
    let a = store.list(50, 10, 30_000, 1, NOW);
    let b = store.list(50, 10, 30_000, 2, NOW);
    assert_eq!(a.len(), 2);
    assert!(b.is_empty());
    assert_eq!(store.locks.len(), 2);
    assert!(store.locks.iter().all(|l| l.lock_id == 1 && l.processing_until == NOW + 30_000));
}

#[test]
fn acquired_records_are_eligible_and_oldest_first() {
    let mut store = OutboxRepository::new();
    store.insert(http_record(1, 10, NOW - 1000)).unwrap();
    store.insert(http_record(2, 10, NOW - 3000)).unwrap();
    let mut exhausted = http_record(3, 20, NOW - 9000);
    exhausted.attempts = 10;
    store.insert(exhausted).unwrap();
    store.insert(http_record(4, 30, NOW)).unwrap();
    let batch = store.list(50, 10, 30_000, 1, NOW);
    let keys: Vec<u128> = batch.iter().map(|r| r.idempotent_key).collect();
    assert_eq!(keys, vec![2]);
}

#[test]
fn partitions_are_taken_in_order_of_their_oldest_record() {
    let mut store = OutboxRepository::new();
    store.insert(http_record(1, 10, NOW - 1000)).unwrap();
    store.insert(http_record(2, 20, NOW - 3000)).unwrap();
    store.insert(http_record(3, 30, NOW - 2000)).unwrap();
    let batch = store.list(2, 10, 30_000, 1, NOW);
    let keys: Vec<u128> = batch.iter().map(|r| r.idempotent_key).collect();
    assert_eq!(keys, vec![2, 3]);
}

#[test]
fn equal_process_after_is_broken_by_store_order() {
    let mut store = OutboxRepository::new();
    store.insert(http_record(7, 10, NOW - 1000)).unwrap();
    store.insert(http_record(3, 10, NOW - 1000)).unwrap();
    let batch = store.list(5, 10, 30_000, 1, NOW);
    assert_eq!(batch.len(), 1);
    assert_eq!(batch[0].idempotent_key, 7);
}

#[test]
fn stuck_worker_locks_are_reclaimed_by_the_next_tick() {
    let mut store = OutboxRepository::new();
    store.insert(http_record(1, 10, NOW - 1000)).unwrap();
    let stuck = store.list(5, 10, 30_000, 1, NOW);
    assert_eq!(stuck.len(), 1);
    let s = OutboxProcessorResources::new().settings();
    // another worker, before the lock expires, finds nothing to do and leaves the lock
    let later = NOW + 10_000;
    let batch = OutboxProcessor::acquire(&mut store, &s, 2, later);
    OutboxProcessor::complete(&mut store, &batch, &vec![], &s, later);
    assert_eq!(store.locks.len(), 1);
    // after the in-flight time the next tick reclaims it and the record is retried
    let expired = NOW + 30_001;
    let batch = OutboxProcessor::acquire(&mut store, &s, 3, expired);
    assert!(batch.is_empty());
    OutboxProcessor::complete(&mut store, &batch, &vec![], &s, expired);
    assert!(store.locks.is_empty());
    let batch = OutboxProcessor::acquire(&mut store, &s, 4, expired + 1);
    assert_eq!(batch.len(), 1);
}

#[test]
fn expired_locks_are_tombstoned_under_scheduled_purge() {
    let mut store = OutboxRepository::new();
    store.locks.push(PartitionLock { partition_key: 1, lock_id: 1, processing_until: NOW - 1, processed_at: None });
    store.release_locks(&vec![], NOW, true);
    assert_eq!(store.locks[0].processed_at, Some(NOW));
    store.clear_processed_locked_partition_key(NOW + 1);
    assert!(store.locks.is_empty());
}

#[test]
fn attempts_and_processed_never_go_back() {
    let mut store = OutboxRepository::new();
    store.insert(http_record(1, 10, NOW - 1000)).unwrap();
    store.insert(http_record(2, 20, NOW - 1000)).unwrap();
    let s = OutboxProcessorResources::new().settings();
    let batch = OutboxProcessor::acquire(&mut store, &s, 1, NOW);
    let failed = vec![batch[0].clone()];
    OutboxProcessor::complete(&mut store, &batch, &failed, &s, NOW);
    let after_first = snapshot(&store).0;
    assert_eq!(after_first, vec![(1, 1, NOW - 1000, None), (2, 1, NOW - 1000, Some(NOW))]);
    let batch = OutboxProcessor::acquire(&mut store, &s, 2, NOW + 1);
    OutboxProcessor::complete(&mut store, &batch, &vec![], &s, NOW + 1);
    assert_eq!(snapshot(&store).0, vec![(1, 2, NOW - 1000, Some(NOW + 1)), (2, 1, NOW - 1000, Some(NOW))]);
}

#[test]
fn delete_mode_removes_only_successes() {
    let mut store = OutboxRepository::new();
    store.insert(http_record(1, 10, NOW - 1000)).unwrap();
    store.insert(http_record(2, 20, NOW - 1000)).unwrap();
    let s = OutboxProcessorResources::new().with_delete_after_process_successfully(true).settings();
    let batch = OutboxProcessor::acquire(&mut store, &s, 1, NOW);
    let failed = vec![batch[1].clone()];
    OutboxProcessor::complete(&mut store, &batch, &failed, &s, NOW);
    assert_eq!(snapshot(&store).0, vec![(2, 1, NOW - 1000, None)]);
    assert!(store.locks.is_empty());
}

#[test]
fn failure_delay_pushes_back_the_whole_partition() {
    let mut store = OutboxRepository::new();
    store.insert(http_record(1, 10, NOW - 2000)).unwrap();
    store.insert(http_record(2, 10, NOW - 1000)).unwrap();
    store.insert(http_record(3, 20, NOW - 1000)).unwrap();
    let s = OutboxProcessorResources::new().with_delay_for_failure_attempt_in_seconds(60).settings();
    let batch = OutboxProcessor::acquire(&mut store, &s, 1, NOW);
    assert_eq!(batch.len(), 2);
    let failed = vec![batch[0].clone()];
    OutboxProcessor::complete(&mut store, &batch, &failed, &s, NOW);
    assert_eq!(
        snapshot(&store).0,
        vec![(1, 1, NOW + 60_000, None), (2, 0, NOW + 60_000, None), (3, 1, NOW - 1000, Some(NOW))]
    );
}

#[test]
fn successful_outboxes_drop_every_failed_key() {
    let batch = vec![http_record(1, 10, NOW), http_record(2, 20, NOW), http_record(3, 30, NOW)];
    let failed = vec![http_record(2, 20, NOW), http_record(2, 20, NOW)];
    let ok = OutboxProcessor::successful_outboxes(&batch, &failed);
    let keys: Vec<u128> = ok.iter().map(|r| r.idempotent_key).collect();
    assert_eq!(keys, vec![1, 3]);
}

#[test]
fn queue_records_go_in_batches_of_ten() {
    let batch: Vec<Outbox> = (0..23u128).map(|k| queue_record(k, 100 + k, "q1")).chain(std::iter::once(queue_record(99, 999, "q2"))).collect();
    let grouped = group_by_destination(&batch);
    assert_eq!(grouped.sqs.len(), 2);
    assert!(grouped.http.is_empty());
    let plan = SqsNotificationService::plan(&grouped);
    let sizes: Vec<(String, usize)> = plan.iter().map(|b| (b.target.clone(), b.outboxes.len())).collect();
    assert_eq!(
        sizes,
        vec![("q1".to_string(), 10), ("q1".to_string(), 10), ("q1".to_string(), 3), ("q2".to_string(), 1)]
    );
    let result = collect_batches(&plan, &vec![true, false, true, true]);
    assert_eq!(result.failed.len(), 10);
    assert_eq!(result.sent.len(), 14);
    assert_eq!(result.failed[0].idempotent_key, 10);
}

#[test]
fn record_in_both_sent_and_failed_is_reported_failed_only() {
    let r = queue_record(1, 10, "q");
    let result = NotificationResult::from_sends(&vec![r.clone(), r.clone()], &vec![true, false]);
    assert_eq!(result.failed.len(), 1);
    assert!(result.sent.is_empty());
}

#[test]
fn no_client_fails_every_queue_record() {
    let r = Outbox::with_key(
        1,
        NOW,
        10,
        vec![
            OutboxDestination::SqsDestination(SqsDestination { queue_url: "a".to_string() }),
            OutboxDestination::SqsDestination(SqsDestination { queue_url: "b".to_string() }),
        ],
        None,
        "{}",
    );
    let grouped = group_by_destination(&vec![r]);
    let result = SqsNotificationService::without_client(&grouped);
    assert_eq!(result.failed.len(), 2);
    assert!(result.sent.is_empty());
}

#[test]
fn message_attributes_end_with_the_idempotent_key() {
    let mut r = queue_record(0x0123_4567_89ab_cdef_0123_4567_89ab_cdef, 10, "q");
    r.headers = Some(vec![Header { name: "a".to_string(), value: "b".to_string() }]);
    let attrs: Vec<(String, String)> = message_attributes(&r).into_iter().map(|h| (h.name, h.value)).collect();
    assert_eq!(
        attrs,
        vec![
            ("a".to_string(), "b".to_string()),
            ("x-idempotent-key".to_string(), "01234567-89ab-cdef-0123-456789abcdef".to_string()),
        ]
    );
}

#[test]
fn placeholders_have_the_braced_capital_shape() {
    assert!(is_env_placeholder("{{X_ENV_HEADER_VALUE}}"));
    assert!(is_env_placeholder("{{A}}"));
    assert!(!is_env_placeholder("{{a}}"));
    assert!(!is_env_placeholder("{{}}"));
    assert!(!is_env_placeholder("x{{A}}"));
    assert!(!is_env_placeholder("{{A}}x"));
    assert!(!is_env_placeholder("my-value"));
}

#[test]
fn unset_placeholder_is_sent_as_is() {
    let env = vec![Header { name: "OTHER".to_string(), value: "x".to_string() }];
    assert_eq!(resolve_value(&"{{MISSING}}".to_string(), &env), "{{MISSING}}");
    assert_eq!(resolve_value(&"{{OTHER}}".to_string(), &env), "x");
    assert_eq!(resolve_value(&"OTHER".to_string(), &env), "OTHER");
}

#[test]
fn http_method_is_upper_cased_with_post_by_default() {
    assert_eq!(HttpMethod::resolve(&None), HttpMethod::Post);
    assert_eq!(HttpMethod::resolve(&Some("Put".to_string())), HttpMethod::Put);
    assert_eq!(HttpMethod::resolve(&Some("pAtCh".to_string())), HttpMethod::Patch);
    assert_eq!(HttpMethod::resolve(&Some("get".to_string())), HttpMethod::Post);
}

#[test]
fn cleaner_is_due_only_when_next_run_has_come() {
    assert!(cleaner_due(Some(NOW), NOW));
    assert!(cleaner_due(Some(NOW - 1), NOW));
    assert!(!cleaner_due(Some(NOW + 1), NOW));
    assert!(!cleaner_due(None, NOW));
}

#[test]
fn insert_refuses_a_taken_key() {
    let mut store = OutboxRepository::new();
    store.insert(http_record(1, 10, NOW)).unwrap();
    assert!(store.insert(http_record(1, 11, NOW)).is_err());
    assert_eq!(store.records.len(), 1);
    assert!(store.insert_all(vec![http_record(2, 10, NOW), http_record(2, 10, NOW)]).is_err());
    assert!(store.insert_all(vec![http_record(3, 10, NOW), http_record(1, 10, NOW)]).is_err());
    assert_eq!(store.records.len(), 1);
    assert!(store.insert_all(vec![http_record(2, 10, NOW), http_record(3, 10, NOW)]).is_ok());
    assert_eq!(store.records.len(), 3);
}

#[test]
fn settings_fill_in_defaults() {
    let s = OutboxProcessorResources::new().settings();
    assert_eq!(s.outbox_query_limit, 50);
    assert_eq!(s.outbox_execution_interval_in_seconds, 5);
    assert_eq!(s.http_timeout_in_millis, 3000);
    assert!(!s.delete_after_process_successfully);
    assert_eq!(s.max_in_flight_interval_in_seconds, 30);
    assert_eq!(s.outbox_failure_limit, 10);
    assert!(!s.scheduled_clear_locked_partition);
    assert_eq!(s.outbox_cleaner_execution_interval_in_seconds, 5);
    assert_eq!(s.delay_for_failure_attempt_in_seconds, 0);
    let t = OutboxProcessorResources::new().with_http_timeout_in_millis(10).with_outbox_cleaner_execution_interval_in_seconds(7).settings();
    assert_eq!(t.http_timeout_in_millis, 10);
    assert_eq!(t.outbox_cleaner_execution_interval_in_seconds, 7);
}

#[test]
fn numbers_parse_as_std_does() {
    assert_eq!(parse_unsigned("8080", 65535), Some(8080));
    assert_eq!(parse_unsigned("+7", 65535), Some(7));
    assert_eq!(parse_unsigned("65536", 65535), None);
    assert_eq!(parse_unsigned("", 65535), None);
    assert_eq!(parse_unsigned("+", 65535), None);
    assert_eq!(parse_unsigned("1a", 65535), None);
    assert_eq!(parse_unsigned("18446744073709551615", u64::MAX), Some(u64::MAX));
    assert_eq!(parse_unsigned("18446744073709551616", u64::MAX), None);
    assert_eq!(parse_i32("-2147483648"), Some(i32::MIN));
    assert_eq!(parse_i32("2147483647"), Some(i32::MAX));
    assert_eq!(parse_i32("2147483648"), None);
    assert_eq!(parse_i32("-+1"), None);
    assert_eq!(parse_i32("-12"), Some(-12));
}

#[test]
fn environment_reads_with_defaults_and_errors() {
    let env = Environment {
        vars: vec![
            Header { name: "PORT".to_string(), value: "8080".to_string() },
            Header { name: "BAD".to_string(), value: "x".to_string() },
            Header { name: "FLAG".to_string(), value: "true".to_string() },
            Header { name: "NEG".to_string(), value: "-5".to_string() },
        ],
    };
    assert_eq!(env.u16("PORT", 1).unwrap(), 8080);
    assert_eq!(env.u16("NONE", 1).unwrap(), 1);
    assert!(env.u32("BAD", 1).is_err());
    assert!(env.boolean("FLAG", false).unwrap());
    assert!(env.boolean("BAD", false).is_err());
    assert_eq!(env.i32("NEG", 0).unwrap(), -5);
    assert_eq!(env.u64("NONE", 9).unwrap(), 9);
    assert_eq!(env.string("BAD", "d"), "x");
    assert_eq!(env.string("NONE", "d"), "d");
}

#[test]
fn database_settings_default_and_fail_on_bad_port() {
    let d = Database::from_env(&Environment { vars: vec![] }).unwrap();
    assert_eq!(d.host, "localhost");
    assert_eq!(d.name, "local");
    assert_eq!(d.port, 5432);
    assert_eq!(d.app_name, "outbox-pattern-processor");
    assert_eq!((d.min_pool_size, d.max_pool_size), (1, 10));
    let bad = Environment { vars: vec![Header { name: "DB_PORT".to_string(), value: "99999".to_string() }] };
    assert!(Database::from_env(&bad).is_err());
}

#[test]
fn errors_carry_cause_and_message() {
    let e = OutboxPatternProcessorError::new("boom", "while listing");
    assert_eq!(e.status_code, 500);
    assert_eq!(e.to_string(), "boom");
    assert_eq!(e.message.as_deref(), Some("while listing"));
    let a = AppError::new("c", "m");
    assert_eq!((a.status_code, a.cause.as_str(), a.message.as_deref()), (500, "c", Some("m")));
}

#[test]
fn run_loop_pauses_only_when_idle_or_failed() {
    assert!(OutboxProcessor::should_pause(&Ok(0)));
    assert!(!OutboxProcessor::should_pause(&Ok(3)));
    assert!(OutboxProcessor::should_pause(&Err(OutboxPatternProcessorError::new("x", "y"))));
}

#[test]
fn unparsable_cron_is_a_configuration_error() {
    let mut store = OutboxRepository::new();
    store.locks.push(PartitionLock { partition_key: 1, lock_id: 1, processing_until: NOW, processed_at: Some(NOW - 10) });
    store.set_cleaner_schedule(OutboxCleanerSchedule { cron_expression: "not a cron".to_string(), last_execution: NOW - 2000 });
    let e = store.one_shot_processed_locked_cleaner(NOW).unwrap_err();
    assert_eq!(e.kind, ErrorKind::Configuration);
    assert_eq!(store.locks.len(), 1);
    assert_eq!(store.cleaner_schedule.as_ref().unwrap().last_execution, NOW - 2000);
}

#[test]
fn cron_start_beyond_its_last_year_never_fires() {
    let late = OutboxCleanerSchedule { cron_expression: "* * * * * *".to_string(), last_execution: u64::MAX - 5 };
    assert!(next_cleaner_run(&late).unwrap().is_none());
    let edge = OutboxCleanerSchedule { cron_expression: "* * * * * *".to_string(), last_execution: 4_102_444_800_000 };
    assert!(next_cleaner_run(&edge).unwrap().is_none());
    let now = OutboxCleanerSchedule { cron_expression: "* * * * * *".to_string(), last_execution: NOW };
    assert_eq!(next_cleaner_run(&now).unwrap(), Some(NOW + 1000));
}

#[test]
fn new_records_get_version_seven_keys() {
    let r = Outbox::new(1, vec![], None, "{}");
    assert_eq!((r.idempotent_key >> 76) & 0xf, 7);
    assert_eq!((r.idempotent_key >> 62) & 0x3, 2);
    assert_eq!(r.process_after, r.created_at);
}

#[test]
fn inserts_return_what_was_stored() {
    let mut store = OutboxRepository::new();
    let stored = store.insert(http_record(1, 10, NOW)).unwrap();
    assert_eq!(stored.idempotent_key, 1);
    let all = store.insert_all(vec![http_record(2, 10, NOW), http_record(3, 11, NOW)]).unwrap();
    assert_eq!(all.iter().map(|r| r.idempotent_key).collect::<Vec<_>>(), vec![2, 3]);
    assert!(store.insert_all(vec![]).unwrap().is_empty());
}

#[test]
fn bookkeeping_plan_lists_the_steps_in_order() {
    let batch = vec![http_record(1, 10, NOW), http_record(2, 20, NOW)];
    let failed = vec![http_record(2, 20, NOW)];
    let s = OutboxProcessorResources::new().with_delay_for_failure_attempt_in_seconds(3).settings();
    let plan = OutboxProcessor::bookkeeping_plan(&batch, &failed, &s);
    assert!(!plan.scheduled_purge);
    assert_eq!(plan.steps.len(), 2);
    match &plan.steps[0] {
        BookkeepingStep::MarkProcessed { keys, partitions } => assert_eq!((keys.clone(), partitions.clone()), (vec![1], vec![10])),
        other => panic!("unexpected step {:?}", other),
    }
    match &plan.steps[1] {
        BookkeepingStep::IncreaseAttempts { keys, partitions, delay } => {
            assert_eq!((keys.clone(), partitions.clone(), *delay), (vec![2], vec![20], Some(3000)))
        },
        other => panic!("unexpected step {:?}", other),
    }
    let d = OutboxProcessorResources::new().with_delete_after_process_successfully(true).settings();
    let plan = OutboxProcessor::bookkeeping_plan(&batch, &vec![], &d);
    assert_eq!(plan.steps.len(), 1);
    assert!(matches!(&plan.steps[0], BookkeepingStep::DeleteProcessed { keys, .. } if keys == &vec![1, 2]));
}
