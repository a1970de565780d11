use anycms_event::sse::{AllowFilter, DenyFilter, EventFilter, PatternFilter, SseError, SseEvent};

#[test]
fn test_allow_filter() {
    let filter = AllowFilter::new(vec!["user.created", "user.deleted"]);
    assert!(filter.matches("user.created"));
    assert!(filter.matches("user.deleted"));
    assert!(!filter.matches("order.placed"));
}

#[test]
fn test_deny_filter() {
    let filter = DenyFilter::new(vec!["internal.ping"]);
    assert!(!filter.matches("internal.ping"));
    assert!(filter.matches("user.created"));
}

#[test]
fn test_pattern_filter() {
    let filter = PatternFilter::new("user.*");
    assert!(filter.matches("user.created"));
    assert!(filter.matches("user.deleted"));
    assert!(!filter.matches("user.foo.bar"));
    assert!(!filter.matches("order.placed"));
}

#[test]
fn test_pattern_filter_double_wildcard() {
    let filter = PatternFilter::new("user.**");
    assert!(filter.matches("user.created"));
    assert!(filter.matches("user.foo.bar"));
    assert!(!filter.matches("order.placed"));
}

#[test]
fn deny_lets_through_what_allow_holds_back() {
    let names = vec!["a.b", "c"];
    let allow = AllowFilter::new(names.clone());
    let deny = DenyFilter::new(names);
    for name in ["a.b", "c", "d", "a"] {
        assert_eq!(deny.matches(name), !allow.matches(name));
    }
}

#[test]
fn sse_event_with_id_keeps_type_and_data() {
    let ev = SseEvent { event_type: "user.created".to_string(), data: "{\"id\":1}".to_string(), id: None };
    let ev = ev.with_id("42");
    assert_eq!(ev.event_type, "user.created");
    assert_eq!(ev.data, "{\"id\":1}");
    assert_eq!(ev.id.as_deref(), Some("42"));
}

#[test]
fn sse_frame_layout() {
    let ev = SseEvent { event_type: "user.created".to_string(), data: "{}".to_string(), id: Some("7".to_string()) };
    assert_eq!(ev.to_frame(), "event: user.created\nid: 7\ndata: {}\n\n");
    let bare = SseEvent { event_type: String::new(), data: "x".to_string(), id: None };
    assert_eq!(bare.to_frame(), "data: x\n\n");
}

#[test]
fn sse_error_messages() {
    assert_eq!(SseError::Serialization("bad".to_string()).message(), "serialization error: bad");
    assert_eq!(SseError::Stream("closed".to_string()).message(), "stream error: closed");
}
