use anycms_event::clock::now_nanos;
use anycms_event::execution_log::{
    ExecutionLog, ExecutionLogQuery, ExecutionLogStorage, ExecutionLogTelemetry, ExecutionRecord, ExecutionStatus,
    ExecutionType, InMemoryExecutionLog,
};
use anycms_event::telemetry::Telemetry;

const MS: u128 = 1_000_000;

fn publish_record(id: u64, name: &str, timestamp: u128, receivers: Option<usize>) -> ExecutionRecord {
    ExecutionRecord {
        id,
        event_name: name.to_string(),
        timestamp,
        execution_type: ExecutionType::Publish,
        status: ExecutionStatus::Success,
        duration: None,
        error: None,
        subscriber_id: None,
        receiver_count: receivers,
        lagged_count: None,
    }
}

fn handler_record(
    id: u64,
    name: &str,
    status: ExecutionStatus,
    duration: u128,
    error: Option<&str>,
    sub: usize,
) -> ExecutionRecord {
    ExecutionRecord {
        id,
        event_name: name.to_string(),
        timestamp: now_nanos(),
        execution_type: ExecutionType::HandlerExecution,
        status,
        duration: Some(duration),
        error: error.map(|e| e.to_string()),
        subscriber_id: Some(sub),
        receiver_count: None,
        lagged_count: None,
    }
}

#[test]
fn test_in_memory_log_record_and_query() {
    let mut log = InMemoryExecutionLog::new();
    log.record(publish_record(1, "user.created", now_nanos(), Some(2)));
    log.record(handler_record(2, "user.created", ExecutionStatus::Success, 5 * MS, None, 1));
    let all = log.query(&ExecutionLogQuery::default());
    assert_eq!(all.len(), 2);
}

#[test]
fn test_query_by_event_name() {
    let mut log = InMemoryExecutionLog::new();
    log.record(publish_record(1, "user.created", now_nanos(), Some(1)));
    log.record(publish_record(2, "order.placed", now_nanos(), Some(1)));
    let results = log.query(&ExecutionLogQuery { event_name: Some("user.created".to_string()), ..Default::default() });
    assert_eq!(results.len(), 1);
    assert_eq!(results[0].event_name, "user.created");
}

#[test]
fn test_query_by_status() {
    let mut log = InMemoryExecutionLog::new();
    log.record(handler_record(1, "user.created", ExecutionStatus::Success, 5 * MS, None, 1));
    log.record(handler_record(2, "user.created", ExecutionStatus::Failed, 10 * MS, Some("something went wrong"), 2));
    let failed = log.query(&ExecutionLogQuery { status: Some(ExecutionStatus::Failed), ..Default::default() });
    assert_eq!(failed.len(), 1);
    assert_eq!(failed[0].error.as_ref().unwrap(), "something went wrong");
}

#[test]
fn test_query_by_execution_type() {
    let mut log = InMemoryExecutionLog::new();
    log.record(publish_record(1, "user.created", now_nanos(), Some(1)));
    log.record(handler_record(2, "user.created", ExecutionStatus::Success, 3 * MS, None, 1));
    let handlers = log.query(&ExecutionLogQuery {
        execution_type: Some(ExecutionType::HandlerExecution),
        ..Default::default()
    });
    assert_eq!(handlers.len(), 1);
    assert_eq!(handlers[0].subscriber_id, Some(1));
}

#[test]
fn execution_log_test_query_pagination() {
    let mut log = InMemoryExecutionLog::new();
    for i in 0..20 {
        log.record(publish_record(i, "test.event", now_nanos(), Some(1)));
    }
    let page1 = log.query(&ExecutionLogQuery { limit: Some(5), offset: Some(0), ..Default::default() });
    assert_eq!(page1.len(), 5);
    let page2 = log.query(&ExecutionLogQuery { limit: Some(5), offset: Some(5), ..Default::default() });
    assert_eq!(page2.len(), 5);
}

#[test]
fn test_count() {
    let mut log = InMemoryExecutionLog::new();
    log.record(publish_record(1, "user.created", now_nanos(), Some(1)));
    log.record(handler_record(2, "user.created", ExecutionStatus::Failed, 5 * MS, Some("err"), 1));
    assert_eq!(log.count(&ExecutionLogQuery::default()), 2);
    let failed = log.count(&ExecutionLogQuery { status: Some(ExecutionStatus::Failed), ..Default::default() });
    assert_eq!(failed, 1);
}

#[test]
fn test_max_capacity_eviction() {
    let mut log = InMemoryExecutionLog::with_capacity(3);
    for i in 0..5 {
        log.record(publish_record(i, &format!("event.{}", i), now_nanos(), None));
    }
    let all = log.query(&ExecutionLogQuery::default());
    assert_eq!(all.len(), 3);
    let names: Vec<&str> = all.iter().map(|r| r.event_name.as_str()).collect();
    assert!(!names.contains(&"event.0"));
    assert!(!names.contains(&"event.1"));
}

#[test]
fn test_clear() {
    let mut log = InMemoryExecutionLog::new();
    log.record(publish_record(1, "test", now_nanos(), None));
    assert_eq!(log.count(&ExecutionLogQuery::default()), 1);
    log.clear();
    assert_eq!(log.count(&ExecutionLogQuery::default()), 0);
}

#[test]
fn test_execution_log_wrapper() {
    let mut log = ExecutionLog::in_memory();
    log.record(publish_record(1, "test", now_nanos(), None));
    let results = log.query(ExecutionLogQuery::default());
    assert_eq!(results.len(), 1);
}

#[test]
fn test_execution_log_telemetry() {
    let log = ExecutionLog::new(InMemoryExecutionLog::new());
    let mut telemetry = ExecutionLogTelemetry::new(ExecutionLog::in_memory());
    telemetry.on_publish("test.event", 3);
    telemetry.on_handler_complete("test.event", 1, 5 * MS, None);
    telemetry.on_handler_complete("test.event", 2, 10 * MS, Some("error msg"));
    telemetry.on_handler_lagged("test.event", 1, 42);
    let results = log.query(ExecutionLogQuery::default());
    assert_eq!(results.len(), 0);
}

#[test]
fn test_time_range_query() {
    let mut log = InMemoryExecutionLog::new();
    let now = now_nanos();
    let one_hour_ago = now - 3600 * 1000 * MS;
    let two_hours_ago = now - 7200 * 1000 * MS;
    log.record(publish_record(1, "old.event", two_hours_ago, None));
    log.record(publish_record(2, "new.event", now, None));
    let recent = log.query(&ExecutionLogQuery { since: Some(one_hour_ago), ..Default::default() });
    assert_eq!(recent.len(), 1);
    assert_eq!(recent[0].event_name, "new.event");
    let old = log.query(&ExecutionLogQuery { until: Some(one_hour_ago), ..Default::default() });
    assert_eq!(old.len(), 1);
    assert_eq!(old[0].event_name, "old.event");
}

#[test]
fn query_answers_newest_first() {
    let mut log = InMemoryExecutionLog::new();
    log.record(publish_record(1, "a", 100, None));
    log.record(publish_record(2, "b", 300, None));
    log.record(publish_record(3, "c", 200, None));
    log.record(publish_record(4, "d", 300, None));
    let all = log.query(&ExecutionLogQuery::default());
    let ids: Vec<u64> = all.iter().map(|r| r.id).collect();
    assert_eq!(ids, vec![2, 4, 3, 1]);
}

#[test]
fn count_is_the_length_of_the_unpaged_query() {
    let mut log = InMemoryExecutionLog::new();
    for i in 0..7 {
        log.record(publish_record(i, if i % 2 == 0 { "even" } else { "odd" }, i as u128, None));
    }
    let q = ExecutionLogQuery { event_name: Some("even".to_string()), ..Default::default() };
    assert_eq!(log.count(&q), log.query(&q).len());
    assert_eq!(log.count(&q), 4);
    let paged = ExecutionLogQuery { event_name: Some("even".to_string()), offset: Some(3), limit: Some(10), ..Default::default() };
    assert_eq!(log.query(&paged).len(), 1);
    let past_end = ExecutionLogQuery { offset: Some(100), ..Default::default() };
    assert_eq!(log.query(&past_end).len(), 0);
}

#[test]
fn ring_keeps_the_newest_records() {
    let mut log = InMemoryExecutionLog::with_capacity(2);
    for i in 0..4 {
        log.record(publish_record(i, "e", i as u128, None));
    }
    let ids: Vec<u64> = log.query(&ExecutionLogQuery::default()).iter().map(|r| r.id).collect();
    assert_eq!(ids, vec![3, 2]);
}

#[test]
fn zero_capacity_keeps_no_record() {
    let mut log = InMemoryExecutionLog::with_capacity(0);
    log.record(publish_record(1, "e", 1, None));
    log.record(publish_record(2, "e", 2, None));
    assert!(log.query(&ExecutionLogQuery::default()).is_empty());
    assert_eq!(log.count(&ExecutionLogQuery::default()), 0);
}

#[test]
fn telemetry_writes_records_with_fresh_ids() {
    let mut telemetry = ExecutionLogTelemetry::new(ExecutionLog::in_memory());
    telemetry.on_publish("t.e", 3);
    telemetry.on_handler_complete("t.e", 9, 5 * MS, Some("boom"));
    telemetry.on_handler_complete("t.e", 9, 5 * MS, None);
    telemetry.on_handler_lagged("t.e", 9, 42);
    telemetry.on_subscribe("t.e", 9);
    telemetry.on_handler_start("t.e", 9);
    telemetry.on_publish_complete("t.e", 1);
    let log = telemetry.execution_log();
    assert_eq!(log.count(&ExecutionLogQuery::default()), 4);
    let failed = log.query(ExecutionLogQuery { status: Some(ExecutionStatus::Failed), ..Default::default() });
    assert_eq!(failed.len(), 1);
    assert_eq!(failed[0].error.as_deref(), Some("boom"));
    assert_eq!(failed[0].duration, Some(5 * MS));
    assert_eq!(failed[0].id, 1);
    let lagged = log.query(ExecutionLogQuery { status: Some(ExecutionStatus::Lagged), ..Default::default() });
    assert_eq!(lagged[0].lagged_count, Some(42));
    let published = log.query(ExecutionLogQuery { execution_type: Some(ExecutionType::Publish), ..Default::default() });
    assert_eq!(published[0].receiver_count, Some(3));
    assert_eq!(published[0].id, 0);
}

#[test]
fn ring_below_capacity_keeps_every_record() {
    let mut log = InMemoryExecutionLog::with_capacity(5);
    for i in 0..3 {
        log.record(publish_record(i, "e", i as u128, None));
    }
    assert_eq!(log.count(&ExecutionLogQuery::default()), 3);
}

#[test]
fn telemetry_over_a_log_without_room_keeps_nothing_but_moves_the_id_on() {
    let mut telemetry = ExecutionLogTelemetry::new(ExecutionLog::in_memory_with_capacity(0));
    telemetry.on_publish("e", 1);
    assert_eq!(telemetry.execution_log().count(&ExecutionLogQuery::default()), 0);
    assert_eq!(telemetry.next_id(), 1);
}
