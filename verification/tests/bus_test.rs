use anycms_event::bus::{pattern_step, PatternAction, Received};
use anycms_event::bus::{
    ensure_registered, record_publish, record_subscription, AttemptOutcome, HandlerRun, RetryBackoff, RetryPolicy,
    RetryStep,
};
use anycms_event::error::EventBusError;
use anycms_event::event::Event;
use anycms_event::handler::HandlerFn;
use anycms_event::registry::EventRegistry;
use anycms_event::transport::{TransportError, TransportMessage};

const MS: u128 = 1_000_000;

#[test]
fn default_policy_does_not_retry() {
    let p = RetryPolicy::default();
    assert_eq!(p.max_retries, 0);
    assert_eq!(p.timeout_per_attempt, 30_000 * MS);
    assert_eq!(p.backoff, RetryBackoff::Exponential { base: 100 * MS, max: 10_000 * MS });
}

#[test]
fn exponential_delays_double_up_to_the_max() {
    let p = RetryPolicy::default();
    assert_eq!(p.delay_for_attempt(0), 100 * MS);
    assert_eq!(p.delay_for_attempt(1), 200 * MS);
    assert_eq!(p.delay_for_attempt(3), 800 * MS);
    assert_eq!(p.delay_for_attempt(6), 6_400 * MS);
    assert_eq!(p.delay_for_attempt(7), 10_000 * MS);
    assert_eq!(p.delay_for_attempt(100), 10_000 * MS);
}

#[test]
fn exponential_keeps_doubling_up_to_the_max_and_fixed_is_fixed() {
    let p = RetryPolicy { max_retries: 3, backoff: RetryBackoff::Exponential { base: 1, max: u128::MAX }, timeout_per_attempt: 1 };
    assert_eq!(p.delay_for_attempt(16), 65_536);
    assert_eq!(p.delay_for_attempt(40), 1u128 << 40);
    assert_eq!(p.delay_for_attempt(127), 1u128 << 127);
    assert_eq!(p.delay_for_attempt(128), u128::MAX);
    assert_eq!(p.delay_for_attempt(usize::MAX), u128::MAX);
    let ms = RetryPolicy { max_retries: 3, backoff: RetryBackoff::Exponential { base: MS, max: 3_600_000 * MS }, timeout_per_attempt: 1 };
    assert_eq!(ms.delay_for_attempt(20), 1_048_576 * MS);
    assert_eq!(ms.delay_for_attempt(22), 3_600_000 * MS);
    let zero = RetryPolicy { max_retries: 0, backoff: RetryBackoff::Exponential { base: 0, max: 5 }, timeout_per_attempt: 1 };
    assert_eq!(zero.delay_for_attempt(usize::MAX), 0);
    let huge = RetryPolicy { max_retries: 0, backoff: RetryBackoff::Exponential { base: u128::MAX, max: 7 }, timeout_per_attempt: 1 };
    assert_eq!(huge.delay_for_attempt(3), 7);
    let fixed = RetryPolicy { max_retries: 1, backoff: RetryBackoff::Fixed(42), timeout_per_attempt: 1 };
    assert_eq!(fixed.delay_for_attempt(0), 42);
    assert_eq!(fixed.delay_for_attempt(9), 42);
}

#[test]
fn a_run_that_succeeds_at_once() {
    let p = RetryPolicy { max_retries: 2, ..RetryPolicy::default() };
    let mut run = HandlerRun::new();
    assert_eq!(run.next_step(&p), RetryStep::Attempt { delay: None });
    run.record(AttemptOutcome::Succeeded);
    assert_eq!(run.next_step(&p), RetryStep::Finish);
    let out = run.finish(&p);
    assert!(out.success);
    assert!(out.error.is_none());
    assert!(out.dead_letter.is_none());
}

#[test]
fn a_run_that_fails_every_attempt_becomes_a_dead_letter() {
    let p = RetryPolicy { max_retries: 2, ..RetryPolicy::default() };
    let mut run = HandlerRun::new();
    assert_eq!(run.next_step(&p), RetryStep::Attempt { delay: None });
    run.record(AttemptOutcome::Failed("boom".to_string()));
    assert_eq!(run.next_step(&p), RetryStep::Attempt { delay: Some(100 * MS) });
    run.record(AttemptOutcome::TimedOut);
    assert_eq!(run.next_step(&p), RetryStep::Attempt { delay: Some(200 * MS) });
    run.record(AttemptOutcome::Failed("again".to_string()));
    assert_eq!(run.next_step(&p), RetryStep::Finish);
    let out = run.finish(&p);
    assert!(!out.success);
    assert_eq!(out.error.as_deref(), Some("again"));
    let dl = out.dead_letter.unwrap();
    assert_eq!(dl.attempts, 3);
    assert_eq!(dl.error, "again");
}

#[test]
fn a_timeout_leaves_its_message() {
    let p = RetryPolicy::default();
    let mut run = HandlerRun::new();
    run.record(AttemptOutcome::TimedOut);
    assert_eq!(run.next_step(&p), RetryStep::Finish);
    let out = run.finish(&p);
    assert_eq!(out.error.as_deref(), Some("Handler timeout"));
    assert_eq!(out.dead_letter.unwrap().attempts, 1);
}

#[test]
fn a_dead_letter_without_an_error_says_unknown() {
    let p = RetryPolicy::default();
    let run = HandlerRun::new();
    let out = run.finish(&p);
    assert!(!out.success);
    assert!(out.error.is_none());
    assert_eq!(out.dead_letter.unwrap().error, "unknown");
}

#[test]
fn publishes_register_and_count() {
    let mut registry = EventRegistry::new();
    record_publish(&mut registry, "user.created", "user");
    record_publish(&mut registry, "user.created", "user");
    let d = registry.get("user.created").unwrap();
    assert_eq!(d.publish_count, 2);
    assert_eq!(d.topic, "user");
}

#[test]
fn subscriptions_register_new_channels_and_set_counts() {
    let mut registry = EventRegistry::new();
    record_subscription(&mut registry, "a.b", "a", true, 1);
    assert_eq!(registry.get("a.b").unwrap().subscriber_count, 1);
    record_subscription(&mut registry, "a.b", "a", false, 2);
    assert_eq!(registry.get("a.b").unwrap().subscriber_count, 2);
    record_subscription(&mut registry, "c.d", "c", false, 2);
    assert!(!registry.contains("c.d"));
    ensure_registered(&mut registry, "c.d", "c");
    ensure_registered(&mut registry, "c.d", "other");
    assert_eq!(registry.get("c.d").unwrap().topic, "c");
}

#[test]
fn bus_error_messages() {
    assert_eq!(EventBusError::PublishFailed("x".to_string()).message(), "Event publish failed: x");
    assert_eq!(EventBusError::SubscriberError("x".to_string()).message(), "Subscriber error: x");
    assert_eq!(EventBusError::TopicNotFound("x".to_string()).message(), "Topic not found: x");
    assert_eq!(EventBusError::ChannelClosed.message(), "Channel closed");
    assert_eq!(EventBusError::TransportError("x".to_string()).message(), "Transport error: x");
}

#[test]
fn transport_error_messages_and_message() {
    assert_eq!(TransportError::Connection("x".to_string()).message(), "Connection error: x");
    assert_eq!(TransportError::Publish("x".to_string()).message(), "Publish error: x");
    assert_eq!(TransportError::Subscribe("x".to_string()).message(), "Subscribe error: x");
    assert_eq!(TransportError::Serialization("x".to_string()).message(), "Serialization error: x");
    let m = TransportMessage { event_name: "a".to_string(), payload: "{}".to_string() };
    assert_eq!(m.clone().event_name, "a");
}

#[derive(Clone)]
struct UserCreated;

impl Event for UserCreated {
    fn event_name() -> &'static str {
        "user.created"
    }
}

#[derive(Clone)]
struct UserDeleted;

impl Event for UserDeleted {
    fn event_name() -> &'static str {
        "user.deleted"
    }

    fn topic() -> &'static str {
        "user"
    }
}

#[test]
fn event_topic_defaults_to_the_name() {
    assert_eq!(UserCreated::topic(), "user.created");
    assert_eq!(UserDeleted::topic(), "user");
}

#[test]
fn handler_fn_keeps_the_function() {
    let h: HandlerFn<UserCreated, fn(UserCreated) -> u32> = HandlerFn::new(|_e| 7);
    assert_eq!((h.handler())(UserCreated), 7);
}

#[test]
fn pattern_subscriber_handles_only_matching_events_of_its_type() {
    let ev = |name: &str, ty: bool| Received::Event { event_name: name.to_string(), of_subscribed_type: ty };
    assert_eq!(pattern_step("user.*", &ev("user.created", true)), PatternAction::Handle);
    assert_eq!(pattern_step("user.*", &ev("user.created", false)), PatternAction::Skip);
    assert_eq!(pattern_step("user.*", &ev("order.created", true)), PatternAction::Skip);
    assert_eq!(pattern_step("user.**", &ev("user.profile.updated", true)), PatternAction::Handle);
    assert_eq!(pattern_step("user.*", &Received::Lagged(7)), PatternAction::ReportLag(7));
    assert_eq!(pattern_step("user.*", &Received::Closed), PatternAction::Stop);
}
