use anycms_event::clock::now_nanos;
use anycms_event::json::{JsonNumber, JsonValue};
use anycms_event::registry::{name_filter, search_hit, tags_match, EventDescriptor, EventQuery, EventRegistry};

fn make_descriptor(name: &str, topic: &str, desc: &str) -> EventDescriptor {
    EventDescriptor {
        event_name: name.to_string(),
        topic: topic.to_string(),
        description: desc.to_string(),
        schema: None,
        source_module: None,
        tags: Vec::new(),
        registered_at: now_nanos(),
        publish_count: 0,
        subscriber_count: 0,
    }
}

#[test]
fn test_register_and_get() {
    let mut registry = EventRegistry::new();
    registry.register(make_descriptor("user.created", "user", "User created event"));
    let got = registry.get("user.created").unwrap();
    assert_eq!(got.event_name, "user.created");
    assert_eq!(got.topic, "user");
    assert_eq!(got.description, "User created event");
}

#[test]
fn test_register_simple() {
    let mut registry = EventRegistry::new();
    registry.register_simple("order.placed", "order");
    assert!(registry.contains("order.placed"));
    let got = registry.get("order.placed").unwrap();
    assert_eq!(got.topic, "order");
}

#[test]
fn test_unregister() {
    let mut registry = EventRegistry::new();
    registry.register_simple("user.deleted", "user");
    assert!(registry.unregister("user.deleted"));
    assert!(!registry.contains("user.deleted"));
}

#[test]
fn test_list_all() {
    let mut registry = EventRegistry::new();
    registry.register_simple("user.created", "user");
    registry.register_simple("order.placed", "order");
    assert_eq!(registry.list_all().len(), 2);
}

#[test]
fn test_list_names() {
    let mut registry = EventRegistry::new();
    registry.register_simple("user.created", "user");
    registry.register_simple("order.placed", "order");
    let names = registry.list_names();
    assert_eq!(names.len(), 2);
    assert!(names.contains(&"user.created".to_string()));
}

#[test]
fn test_query_by_topic() {
    let mut registry = EventRegistry::new();
    registry.register(make_descriptor("user.created", "user", ""));
    registry.register(make_descriptor("user.deleted", "user", ""));
    registry.register(make_descriptor("order.placed", "order", ""));
    let results = registry.query(EventQuery { topic: Some("user".to_string()), ..Default::default() });
    assert_eq!(results.len(), 2);
}

#[test]
fn test_query_by_name_prefix() {
    let mut registry = EventRegistry::new();
    registry.register_simple("user.created", "user");
    registry.register_simple("user.deleted", "user");
    registry.register_simple("order.placed", "order");
    let results = registry.query(EventQuery { name: Some("user.*".to_string()), ..Default::default() });
    assert_eq!(results.len(), 2);
}

#[test]
fn test_query_search() {
    let mut registry = EventRegistry::new();
    registry.register(make_descriptor("user.created", "user", "A new user account was created"));
    registry.register(make_descriptor("user.deleted", "user", "User account was deleted"));
    registry.register(make_descriptor("order.placed", "order", "A new order was placed"));
    let results = registry.query(EventQuery { search: Some("created".to_string()), ..Default::default() });
    assert_eq!(results.len(), 1);
    assert_eq!(results[0].event_name, "user.created");
}

#[test]
fn registry_test_query_pagination() {
    let mut registry = EventRegistry::new();
    for i in 0..10 {
        registry.register_simple(&format!("event.{}", i), "test");
    }
    let page1 = registry.query(EventQuery { limit: Some(3), offset: Some(0), ..Default::default() });
    assert_eq!(page1.len(), 3);
    let page2 = registry.query(EventQuery { limit: Some(3), offset: Some(3), ..Default::default() });
    assert_eq!(page2.len(), 3);
}

#[test]
fn test_increment_publish_count() {
    let mut registry = EventRegistry::new();
    registry.register_simple("user.created", "user");
    registry.increment_publish_count("user.created");
    registry.increment_publish_count("user.created");
    let desc = registry.get("user.created").unwrap();
    assert_eq!(desc.publish_count, 2);
}

#[test]
fn test_tags_filter() {
    let mut registry = EventRegistry::new();
    let mut desc1 = make_descriptor("user.created", "user", "");
    desc1.tags = vec!["auth".to_string(), "user".to_string()];
    let mut desc2 = make_descriptor("order.placed", "order", "");
    desc2.tags = vec!["commerce".to_string()];
    registry.register(desc1);
    registry.register(desc2);
    let results = registry.query(EventQuery { tags: vec!["auth".to_string()], ..Default::default() });
    assert_eq!(results.len(), 1);
    assert_eq!(results[0].event_name, "user.created");
}

#[test]
fn register_replaces_the_descriptor_of_the_same_name() {
    let mut registry = EventRegistry::new();
    registry.register(make_descriptor("a", "t1", "first"));
    registry.register(make_descriptor("b", "t", ""));
    let mut second = make_descriptor("a", "t2", "second");
    second.schema = Some(JsonValue::Number(JsonNumber::PosInt(1)));
    registry.register(second);
    assert_eq!(registry.count(), 2);
    let got = registry.get("a").unwrap();
    assert_eq!(got.topic, "t2");
    assert_eq!(got.description, "second");
    assert!(matches!(got.schema, Some(JsonValue::Number(JsonNumber::PosInt(1)))));
    assert_eq!(registry.get("b").unwrap().topic, "t");
}

#[test]
fn unregister_of_a_missing_name_changes_nothing() {
    let mut registry = EventRegistry::new();
    registry.register_simple("a", "t");
    assert!(!registry.unregister("zzz"));
    assert_eq!(registry.count(), 1);
    assert!(registry.get("zzz").is_none());
}

#[test]
fn query_orders_by_name_and_combines_filters() {
    let mut registry = EventRegistry::new();
    let mut c = make_descriptor("c.thing", "x", "Third");
    c.source_module = Some("mod".to_string());
    let mut a = make_descriptor("a.thing", "x", "first THING");
    a.source_module = Some("mod".to_string());
    let b = make_descriptor("b.thing", "x", "");
    registry.register(c);
    registry.register(a);
    registry.register(b);
    let names: Vec<String> = registry.query(EventQuery::default()).into_iter().map(|d| d.event_name).collect();
    assert_eq!(names, vec!["a.thing", "b.thing", "c.thing"]);
    let by_module = registry.query(EventQuery { source_module: Some("mod".to_string()), ..Default::default() });
    assert_eq!(by_module.len(), 2);
    assert_eq!(by_module[0].event_name, "a.thing");
    let search = registry.query(EventQuery { search: Some("Thing".to_string()), ..Default::default() });
    assert_eq!(search.len(), 3);
    let none = registry.query(EventQuery { search: Some("nothing".to_string()), ..Default::default() });
    assert_eq!(none.len(), 0);
    let exact = registry.query(EventQuery { name: Some("b.thing".to_string()), ..Default::default() });
    assert_eq!(exact.len(), 1);
}

#[test]
fn set_subscriber_count_and_clear() {
    let mut registry = EventRegistry::new();
    registry.register_simple("a", "t");
    registry.set_subscriber_count("a", 5);
    registry.set_subscriber_count("missing", 9);
    assert_eq!(registry.get("a").unwrap().subscriber_count, 5);
    assert!(!registry.contains("missing"));
    registry.clear();
    assert_eq!(registry.count(), 0);
}

#[test]
fn name_filters() {
    assert!(name_filter("user.*", "user.created"));
    assert!(name_filter("user*", "username"));
    assert!(!name_filter("user.*", "order.placed"));
    assert!(name_filter("*", "anything"));
    assert!(name_filter("exact", "exact"));
    assert!(!name_filter("exact", "exactly"));
}

#[test]
fn search_and_tag_helpers() {
    assert!(search_hit("new", "order.new", ""));
    assert!(search_hit("new", "order", "a new order"));
    assert!(!search_hit("new", "order", "old"));
    assert!(tags_match(&vec![], &vec![]));
    assert!(tags_match(&vec!["a".to_string(), "b".to_string()], &vec!["b".to_string()]));
    assert!(!tags_match(&vec!["a".to_string()], &vec!["b".to_string()]));
}

#[test]
fn search_ignores_case_through_lowercasing() {
    let mut registry = EventRegistry::new();
    registry.register(make_descriptor("User.Created", "user", "ÄBC"));
    let hits = registry.query(EventQuery { search: Some("user.c".to_string()), ..Default::default() });
    assert_eq!(hits.len(), 1);
    let hits = registry.query(EventQuery { search: Some("äb".to_string()), ..Default::default() });
    assert_eq!(hits.len(), 1);
}
