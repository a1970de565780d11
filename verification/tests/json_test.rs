use anycms_event::condition::{json_value_gt, json_value_lt};
use anycms_event::json::{json_equal, JsonNumber, JsonValue};

fn n(x: u64) -> JsonValue {
    JsonValue::Number(JsonNumber::PosInt(x))
}

fn obj(entries: Vec<(&str, JsonValue)>) -> JsonValue {
    JsonValue::Object(entries.into_iter().map(|(k, v)| (k.to_string(), v)).collect())
}

#[test]
fn objects_compare_as_maps_whatever_the_entry_order() {
    let a = obj(vec![("a", n(1)), ("b", n(2))]);
    let b = obj(vec![("b", n(2)), ("a", n(1))]);
    assert!(json_equal(&a, &b));
    assert!(json_equal(&b, &a));
}

#[test]
fn objects_differ_on_a_value_or_a_key() {
    let a = obj(vec![("a", n(1)), ("b", n(2))]);
    assert!(!json_equal(&a, &obj(vec![("a", n(1)), ("b", n(3))])));
    assert!(!json_equal(&a, &obj(vec![("a", n(1))])));
    assert!(!json_equal(&a, &obj(vec![("a", n(1)), ("b", n(2)), ("c", n(3))])));
    assert!(!json_equal(&a, &obj(vec![("a", n(1)), ("c", n(2))])));
}

#[test]
fn the_first_entry_of_a_key_counts() {
    let dup = obj(vec![("a", n(1)), ("a", n(9))]);
    assert!(json_equal(&dup, &obj(vec![("a", n(1))])));
    assert!(!json_equal(&dup, &obj(vec![("a", n(9))])));
}

#[test]
fn nested_objects_compare_as_maps() {
    let a = obj(vec![("x", obj(vec![("p", n(1)), ("q", n(2))])), ("y", JsonValue::Null)]);
    let b = obj(vec![("y", JsonValue::Null), ("x", obj(vec![("q", n(2)), ("p", n(1))]))]);
    assert!(json_equal(&a, &b));
}

#[test]
fn integers_compare_in_integer_order() {
    let neg = |i: i64| JsonValue::Number(JsonNumber::NegInt(i));
    assert!(json_value_gt(&n(500), &n(100)));
    assert!(!json_value_gt(&n(100), &n(500)));
    assert!(!json_value_gt(&n(7), &n(7)));
    assert!(json_value_lt(&neg(-5), &n(3)));
    assert!(json_value_gt(&neg(-5), &neg(-6)));
    assert!(json_value_lt(&n(9_007_199_254_740_991), &n(9_007_199_254_740_992)));
}
