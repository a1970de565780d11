use anycms_event::redis_bridge::{
    channel_name, default_channel_prefix, is_echo, next_reconnect_attempt, reconnect_delay, source_id_text,
    RedisMessage, RedisTransportError,
};

#[test]
fn test_redis_message_echo_prevention() {
    let my_source = "pid:1:1";
    let other_source = "pid:2:1";
    let msg_mine = RedisMessage { source_id: my_source.to_string(), payload: "{}".to_string() };
    let msg_other = RedisMessage { source_id: other_source.to_string(), payload: "{}".to_string() };
    assert_eq!(msg_mine.source_id, my_source);
    assert_ne!(msg_other.source_id, my_source);
    assert!(is_echo(&msg_mine, my_source));
    assert!(!is_echo(&msg_other, my_source));
}

#[test]
fn test_source_id_uniqueness() {
    let id1 = source_id_text(4242, 1);
    let id2 = source_id_text(4242, 2);
    assert_ne!(id1, id2);
    assert!(id1.contains(':'));
}

#[test]
fn test_source_id_format() {
    let id = source_id_text(4242, 17);
    let parts: Vec<&str> = id.split(':').collect();
    assert_eq!(parts.len(), 2);
    assert!(parts[0].parse::<u32>().is_ok());
    assert!(parts[1].parse::<u64>().is_ok());
}

#[test]
fn source_id_is_decimal() {
    assert_eq!(source_id_text(0, 0), "0:0");
    assert_eq!(source_id_text(4294967295, 18446744073709551615), "4294967295:18446744073709551615");
    assert_eq!(source_id_text(1001, 10), "1001:10");
}

#[test]
fn channel_names_have_the_prefix() {
    assert_eq!(default_channel_prefix(), "anycms:event:");
    assert_eq!(channel_name(default_channel_prefix(), "user.created"), "anycms:event:user.created");
    assert_eq!(channel_name("p:", "x"), "p:x");
}

#[test]
fn reconnect_backoff_doubles_from_100ms() {
    let ms = 1_000_000u128;
    assert_eq!(reconnect_delay(0), 100 * ms);
    assert_eq!(reconnect_delay(1), 200 * ms);
    assert_eq!(reconnect_delay(3), 800 * ms);
    assert_eq!(reconnect_delay(8), 25_600 * ms);
    assert_eq!(reconnect_delay(9), 25_600 * ms);
    assert_eq!(reconnect_delay(u32::MAX), 25_600 * ms);
}

#[test]
fn reconnect_attempts_reset_on_clean_exit() {
    assert_eq!(next_reconnect_attempt(5, true), 0);
    assert_eq!(next_reconnect_attempt(5, false), 6);
    assert_eq!(next_reconnect_attempt(0, false), 1);
}

#[test]
fn redis_error_messages() {
    assert_eq!(RedisTransportError::ConnectionError("x".to_string()).message(), "Redis connection error: x");
    assert_eq!(RedisTransportError::PublishError("x".to_string()).message(), "Redis publish error: x");
    assert_eq!(RedisTransportError::SubscribeError("x".to_string()).message(), "Redis subscribe error: x");
    assert_eq!(RedisTransportError::SerializationError("x".to_string()).message(), "Serialization error: x");
}
