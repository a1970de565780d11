use anycms_event::naming::{camel_to_dotted, dotted_from_flags, event_attrs, event_name_and_topic, first_segment, EventAttrs};

#[test]
fn test_camel_to_dotted_simple() {
    assert_eq!(camel_to_dotted("UserCreated"), "user.created");
}

#[test]
fn test_camel_to_dotted_three_words() {
    assert_eq!(camel_to_dotted("UserProfileUpdated"), "user.profile.updated");
}

#[test]
fn test_camel_to_dotted_single_word() {
    assert_eq!(camel_to_dotted("Order"), "order");
}

#[test]
fn test_camel_to_dotted_acronym() {
    assert_eq!(camel_to_dotted("HTTPServer"), "http.server");
}

#[test]
fn test_camel_to_dotted_order_placed() {
    assert_eq!(camel_to_dotted("OrderPlaced"), "order.placed");
}

#[test]
fn test_first_segment_simple() {
    assert_eq!(first_segment("user.created"), "user");
}

#[test]
fn test_first_segment_single() {
    assert_eq!(first_segment("order"), "order");
}

#[test]
fn camel_to_dotted_keeps_digits_and_lowercase() {
    assert_eq!(camel_to_dotted("order2Placed"), "order2.placed");
    assert_eq!(camel_to_dotted("already"), "already");
    assert_eq!(camel_to_dotted(""), "");
}

#[test]
fn camel_to_dotted_acronym_at_end() {
    assert_eq!(camel_to_dotted("ParseURL"), "parse.url");
}

#[test]
fn first_segment_of_empty_and_leading_dot() {
    assert_eq!(first_segment(""), "");
    assert_eq!(first_segment(".hidden"), "");
    assert_eq!(first_segment("a.b.c"), "a");
}

#[test]
fn camel_to_dotted_with_non_ascii_capitals() {
    assert_eq!(camel_to_dotted("ÄpfelBirne"), "Äpfel.birne");
    assert_eq!(camel_to_dotted("ÉtéX"), "Été.x");
}

#[test]
fn event_attrs_take_the_last_name_and_topic() {
    let settings = vec![
        ("name".to_string(), "a.b".to_string()),
        ("other".to_string(), "x".to_string()),
        ("topic".to_string(), "t1".to_string()),
        ("name".to_string(), "c.d".to_string()),
    ];
    let attrs = event_attrs(&settings);
    assert_eq!(attrs.name.as_deref(), Some("c.d"));
    assert_eq!(attrs.topic.as_deref(), Some("t1"));
    let none = event_attrs(&vec![]);
    assert!(none.name.is_none() && none.topic.is_none());
}

#[test]
fn derived_names_and_topics() {
    let plain = EventAttrs { name: None, topic: None };
    assert_eq!(event_name_and_topic("UserCreated", &plain), ("user.created".to_string(), "user".to_string()));
    let named = EventAttrs { name: Some("order.placed".to_string()), topic: None };
    assert_eq!(event_name_and_topic("Whatever", &named), ("order.placed".to_string(), "order".to_string()));
    let topic = EventAttrs { name: None, topic: Some("custom".to_string()) };
    assert_eq!(event_name_and_topic("HTTPServer", &topic), ("http.server".to_string(), "custom".to_string()));
}

#[test]
fn dotted_form_follows_the_given_flags() {
    let chars = vec!['a', 'B', 'c'];
    assert_eq!(dotted_from_flags(&chars, &vec![false, true, false], &vec![true, false, true]), vec!['a', '.', 'b', 'c']);
    assert_eq!(dotted_from_flags(&chars, &vec![false, false, false], &vec![true, false, true]), vec!['a', 'B', 'c']);
    let xy = vec!['x', 'y'];
    assert_eq!(dotted_from_flags(&xy, &vec![false, true], &vec![true, false]), vec!['x', '.', 'y']);
}
