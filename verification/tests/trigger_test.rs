use anycms_event::condition::matches_condition;
use anycms_event::json::{f64_bits_gt, JsonNumber, JsonValue};
use anycms_event::trigger::{
    ConditionLimits, InMemoryRuleStorage, RuleStorage, TriggerRule, TriggerRuleEngine,
};

fn s(x: &str) -> JsonValue {
    JsonValue::String(x.to_string())
}

fn n(x: u64) -> JsonValue {
    JsonValue::Number(JsonNumber::PosInt(x))
}

fn arr(xs: Vec<JsonValue>) -> JsonValue {
    JsonValue::Array(xs)
}

/// An object, with its keys in ascending order as `serde_json` keeps them.
fn obj(entries: Vec<(&str, JsonValue)>) -> JsonValue {
    let mut es: Vec<(String, JsonValue)> = entries.into_iter().map(|(k, v)| (k.to_string(), v)).collect();
    es.sort_by(|a, b| a.0.cmp(&b.0));
    JsonValue::Object(es)
}

fn make_rule(id: &str, pattern: &str, action_type: &str, action_config: JsonValue) -> TriggerRule {
    TriggerRule {
        id: id.to_string(),
        name: format!("Rule {}", id),
        event_pattern: pattern.to_string(),
        condition: None,
        action_type: action_type.to_string(),
        action_config,
        enabled: true,
        priority: 0,
    }
}

#[test]
fn test_add_and_list_rules() {
    let mut engine = TriggerRuleEngine::new();
    engine.add_rule(make_rule("r1", "user.*", "log", obj(vec![])));
    engine.add_rule(make_rule("r2", "order.**", "notify", obj(vec![])));
    assert_eq!(engine.rule_count(), 2);
    assert_eq!(engine.list_rules().len(), 2);
}

#[test]
fn test_remove_rule() {
    let mut engine = TriggerRuleEngine::new();
    engine.add_rule(make_rule("r1", "user.*", "log", obj(vec![])));
    engine.add_rule(make_rule("r2", "order.*", "log", obj(vec![])));
    let removed = engine.remove_rule("r1").unwrap();
    assert_eq!(removed.id, "r1");
    assert_eq!(engine.rule_count(), 1);
    assert!(engine.remove_rule("nonexistent").is_none());
}

#[test]
fn test_update_rule() {
    let mut engine = TriggerRuleEngine::new();
    engine.add_rule(make_rule("r1", "user.*", "log", obj(vec![])));
    let mut updated = make_rule("r1", "user.**", "notify", obj(vec![]));
    updated.name = "Updated Rule".to_string();
    assert!(engine.update_rule(updated));
    let rule = engine.get_rule("r1").unwrap();
    assert_eq!(rule.event_pattern, "user.**");
    assert_eq!(rule.action_type, "notify");
    assert_eq!(rule.name, "Updated Rule");
}

#[test]
fn test_enable_disable_rule() {
    let mut engine = TriggerRuleEngine::new();
    engine.add_rule(make_rule("r1", "user.*", "log", obj(vec![])));
    assert!(engine.disable_rule("r1"));
    assert!(!engine.get_rule("r1").unwrap().enabled);
    assert!(engine.enable_rule("r1"));
    assert!(engine.get_rule("r1").unwrap().enabled);
    assert!(!engine.disable_rule("nonexistent"));
}

#[test]
fn test_priority_sorting() {
    let mut engine = TriggerRuleEngine::new();
    let mut r1 = make_rule("r1", "a", "log", obj(vec![]));
    r1.priority = 10;
    let mut r2 = make_rule("r2", "b", "log", obj(vec![]));
    r2.priority = 1;
    let mut r3 = make_rule("r3", "c", "log", obj(vec![]));
    r3.priority = 5;
    engine.add_rules(vec![r1, r2, r3]);
    let rules = engine.list_rules();
    assert_eq!(rules[0].id, "r2");
    assert_eq!(rules[1].id, "r3");
    assert_eq!(rules[2].id, "r1");
}

#[test]
fn test_register_action() {
    let mut engine = TriggerRuleEngine::new();
    engine.register_action("log");
    engine.register_action("notify");
    let types = engine.list_action_types();
    assert_eq!(types.len(), 2);
    assert!(types.contains(&"log".to_string()));
}

#[test]
fn test_condition_eq() {
    let data = obj(vec![("status", s("published")), ("level", n(3))]);
    let condition = obj(vec![("status", obj(vec![("$eq", s("published"))]))]);
    assert!(matches_condition(&data, &condition, &ConditionLimits::default()));
    let condition = obj(vec![("status", obj(vec![("$eq", s("draft"))]))]);
    assert!(!matches_condition(&data, &condition, &ConditionLimits::default()));
}

#[test]
fn test_condition_ne() {
    let data = obj(vec![("status", s("published"))]);
    let condition = obj(vec![("status", obj(vec![("$ne", s("draft"))]))]);
    assert!(matches_condition(&data, &condition, &ConditionLimits::default()));
}

#[test]
fn test_condition_gt_lt() {
    let data = obj(vec![("amount", n(500))]);
    let condition = obj(vec![("amount", obj(vec![("$gt", n(100)), ("$lt", n(1000))]))]);
    assert!(matches_condition(&data, &condition, &ConditionLimits::default()));
    let data = obj(vec![("amount", n(50))]);
    assert!(!matches_condition(&data, &condition, &ConditionLimits::default()));
}

#[test]
fn test_condition_in() {
    let data = obj(vec![("category", s("books"))]);
    let condition = obj(vec![("category", obj(vec![("$in", arr(vec![s("books"), s("electronics")]))]))]);
    assert!(matches_condition(&data, &condition, &ConditionLimits::default()));
    let data = obj(vec![("category", s("clothing"))]);
    assert!(!matches_condition(&data, &condition, &ConditionLimits::default()));
}

#[test]
fn test_condition_contains() {
    let data = obj(vec![("title", s("Hello World Article"))]);
    let condition = obj(vec![("title", obj(vec![("$contains", s("World"))]))]);
    assert!(matches_condition(&data, &condition, &ConditionLimits::default()));
    let condition = obj(vec![("title", obj(vec![("$contains", s("Missing"))]))]);
    assert!(!matches_condition(&data, &condition, &ConditionLimits::default()));
}

#[test]
fn test_condition_nested_path() {
    let data = obj(vec![("user", obj(vec![("level", n(5))]))]);
    let condition = obj(vec![("user.level", obj(vec![("$gte", n(3))]))]);
    assert!(matches_condition(&data, &condition, &ConditionLimits::default()));
}

#[test]
fn test_condition_missing_field() {
    let data = obj(vec![("status", s("ok"))]);
    let condition = obj(vec![("missing_field", obj(vec![("$eq", s("value"))]))]);
    assert!(!matches_condition(&data, &condition, &ConditionLimits::default()));
}

#[test]
fn test_condition_no_condition() {
    let data = obj(vec![("status", s("ok"))]);
    assert!(matches_condition(&data, &JsonValue::Null, &ConditionLimits::default()));
}

#[test]
fn test_condition_limits_path_depth() {
    let data = obj(vec![("a", obj(vec![("b", obj(vec![("c", obj(vec![("d", obj(vec![("e", s("deep"))]))]))]))]))]);
    let condition = obj(vec![("a.b.c.d.e", obj(vec![("$eq", s("deep"))]))]);
    let limits = ConditionLimits::default();
    assert!(matches_condition(&data, &condition, &limits));
    let strict_limits = ConditionLimits { max_path_depth: 2, ..Default::default() };
    assert!(!matches_condition(&data, &condition, &strict_limits));
}

#[test]
fn test_condition_limits_operator_count() {
    let data = obj(vec![("value", n(42))]);
    let condition = obj(vec![("value", obj(vec![("$gt", n(0)), ("$lt", n(100)), ("$ne", n(50))]))]);
    let limits = ConditionLimits::default();
    assert!(matches_condition(&data, &condition, &limits));
    let strict_limits = ConditionLimits { max_operators: 2, ..Default::default() };
    assert!(!matches_condition(&data, &condition, &strict_limits));
}

#[test]
fn test_condition_limits_string_length() {
    let long_string = "a".repeat(20_000);
    let data = obj(vec![("text", JsonValue::String(long_string))]);
    let condition = obj(vec![("text", obj(vec![("$contains", s("a"))]))]);
    let limits = ConditionLimits::default();
    assert!(!matches_condition(&data, &condition, &limits));
    let relaxed_limits = ConditionLimits { max_string_length: 100_000, ..Default::default() };
    assert!(matches_condition(&data, &condition, &relaxed_limits));
}

#[test]
fn test_in_memory_rule_storage_basic() {
    let mut storage = InMemoryRuleStorage::new();
    storage.add(make_rule("r1", "user.*", "log", obj(vec![])));
    storage.add(make_rule("r2", "order.*", "notify", obj(vec![])));
    assert_eq!(storage.count(), 2);
    assert_eq!(storage.list().len(), 2);
    assert!(storage.get("r1").is_some());
    assert!(storage.get("nonexistent").is_none());
    let removed = storage.remove("r1").unwrap();
    assert_eq!(removed.id, "r1");
    assert_eq!(storage.count(), 1);
    assert!(storage.remove("nonexistent").is_none());
    let mut updated = make_rule("r2", "order.**", "email", obj(vec![]));
    updated.name = "Updated".to_string();
    assert!(storage.update(updated));
    assert_eq!(storage.get("r2").unwrap().name, "Updated");
    assert!(!storage.update(make_rule("r99", "x", "y", obj(vec![]))));
}

#[test]
fn test_with_custom_storage() {
    let storage = InMemoryRuleStorage::new();
    let mut engine = TriggerRuleEngine::with_storage(storage);
    engine.add_rule(make_rule("r1", "user.*", "log", obj(vec![])));
    assert_eq!(engine.storage().count(), 1);
    assert_eq!(engine.storage().get("r1").unwrap().event_pattern, "user.*");
    assert_eq!(engine.rule_count(), 1);
    assert_eq!(engine.list_rules()[0].id, "r1");
}

#[test]
fn matching_actions_follow_rules_in_priority_order() {
    let mut engine = TriggerRuleEngine::new();
    engine.register_action("collect");
    let mut late = make_rule("late", "user.*", "collect", obj(vec![("k", n(1))]));
    late.priority = 5;
    let early = make_rule("early", "user.**", "collect", obj(vec![]));
    let other = make_rule("other", "order.*", "collect", obj(vec![]));
    let unknown = make_rule("unknown", "user.*", "missing_action", obj(vec![]));
    let mut off = make_rule("off", "user.*", "collect", obj(vec![]));
    off.enabled = false;
    engine.add_rules(vec![late, early, other, unknown, off]);
    let actions = engine.matching_actions("user.created", &obj(vec![("x", n(1))]));
    let ids: Vec<&str> = actions.iter().map(|a| a.context.rule_id.as_str()).collect();
    assert_eq!(ids, vec!["early", "late"]);
    assert_eq!(actions[0].action_type, "collect");
    assert_eq!(actions[0].context.event_name, "user.created");
    assert_eq!(actions[1].context.rule_name, "Rule late");
    assert!(matches!(&actions[1].context.action_config, JsonValue::Object(es) if es.len() == 1));
    let deep = engine.matching_actions("user.profile.updated", &JsonValue::Null);
    assert_eq!(deep.len(), 1);
    assert_eq!(deep[0].context.rule_id, "early");
}

#[test]
fn matching_actions_check_conditions() {
    let mut engine = TriggerRuleEngine::new();
    engine.register_action("collect");
    let mut rule = make_rule("r1", "order.*", "collect", obj(vec![]));
    rule.condition = Some(obj(vec![("amount", obj(vec![("$gt", n(100))]))]));
    engine.add_rule(rule);
    assert_eq!(engine.matching_actions("order.created", &obj(vec![("amount", n(50))])).len(), 0);
    assert_eq!(engine.matching_actions("order.created", &obj(vec![("amount", n(200))])).len(), 1);
}

#[test]
fn start_and_stop() {
    let mut engine = TriggerRuleEngine::new();
    assert!(!engine.is_running());
    assert!(engine.start());
    assert!(engine.is_running());
    assert!(!engine.start());
    engine.stop();
    assert!(!engine.is_running());
    assert!(engine.start());
}

#[test]
fn register_action_twice_keeps_one() {
    let mut engine = TriggerRuleEngine::new();
    engine.register_action("log");
    engine.register_action("log");
    assert_eq!(engine.list_action_types(), vec!["log".to_string()]);
}

#[test]
fn equal_priorities_keep_their_order_and_updates_resort() {
    let mut storage = InMemoryRuleStorage::new();
    for id in ["a", "b", "c"] {
        storage.add(make_rule(id, "x", "log", obj(vec![])));
    }
    let ids: Vec<String> = storage.list().into_iter().map(|r| r.id).collect();
    assert_eq!(ids, vec!["a", "b", "c"]);
    let mut a = make_rule("a", "x", "log", obj(vec![]));
    a.priority = 1;
    assert!(storage.update(a));
    let ids: Vec<String> = storage.list().into_iter().map(|r| r.id).collect();
    assert_eq!(ids, vec!["b", "c", "a"]);
    let mut c = make_rule("c", "x", "log", obj(vec![]));
    c.priority = -1;
    storage.add(c);
    let ids: Vec<String> = storage.list().into_iter().map(|r| r.id).collect();
    assert_eq!(ids, vec!["c", "b", "c", "a"]);
    assert_eq!(storage.get("c").unwrap().priority, -1);
}

#[test]
fn disable_then_enable_restores_the_rules() {
    let mut engine = TriggerRuleEngine::new();
    let mut r = make_rule("r", "x", "log", obj(vec![]));
    r.priority = 3;
    engine.add_rule(make_rule("q", "y", "log", obj(vec![])));
    engine.add_rule(r);
    let before: Vec<(String, bool, i32)> = engine.list_rules().into_iter().map(|r| (r.id, r.enabled, r.priority)).collect();
    engine.disable_rule("r");
    engine.enable_rule("r");
    let after: Vec<(String, bool, i32)> = engine.list_rules().into_iter().map(|r| (r.id, r.enabled, r.priority)).collect();
    assert_eq!(before, after);
}

#[test]
fn engine_limits() {
    let engine = TriggerRuleEngine::new();
    assert_eq!(engine.limits().max_path_depth, 10);
    assert_eq!(engine.limits().max_operators, 20);
    assert_eq!(engine.limits().max_string_length, 10_000);
    let custom = TriggerRuleEngine::with_limits(ConditionLimits { max_path_depth: 1, max_operators: 2, max_string_length: 3 });
    assert_eq!(custom.limits().max_operators, 2);
    assert!(anycms_event::trigger::default_true());
}

#[test]
fn integers_compare_with_floats_by_value() {
    let half = JsonValue::Number(JsonNumber::Float(0.5f64.to_bits()));
    let one_and_half = JsonValue::Number(JsonNumber::Float(1.5f64.to_bits()));
    let limits = ConditionLimits::default();
    let data = obj(vec![("x", n(1))]);
    assert!(matches_condition(&data, &obj(vec![("x", obj(vec![("$gt", half.clone())]))]), &limits));
    assert!(matches_condition(&data, &obj(vec![("x", obj(vec![("$lt", one_and_half.clone())]))]), &limits));
    assert!(!matches_condition(&data, &obj(vec![("x", obj(vec![("$gt", one_and_half)]))]), &limits));
    let negative = obj(vec![("x", JsonValue::Number(JsonNumber::NegInt(-1)))]);
    assert!(matches_condition(&negative, &obj(vec![("x", obj(vec![("$lt", half.clone())]))]), &limits));
    assert!(!matches_condition(&negative, &obj(vec![("x", obj(vec![("$gte", half)]))]), &limits));
}

#[test]
fn equality_and_gte_between_number_kinds_and_strings() {
    let limits = ConditionLimits::default();
    let one_float = JsonValue::Number(JsonNumber::Float(1.0f64.to_bits()));
    let data = obj(vec![("x", n(1)), ("s", s("b"))]);
    // An integer and a float are never equal, so `$gte` of equal values fails.
    assert!(!matches_condition(&data, &obj(vec![("x", obj(vec![("$gte", one_float.clone())]))]), &limits));
    assert!(!matches_condition(&data, &obj(vec![("x", obj(vec![("$eq", one_float)]))]), &limits));
    assert!(matches_condition(&data, &obj(vec![("x", obj(vec![("$gte", n(1))]))]), &limits));
    assert!(matches_condition(&data, &obj(vec![("s", obj(vec![("$gt", s("a"))]))]), &limits));
    assert!(matches_condition(&data, &obj(vec![("s", obj(vec![("$lte", s("b"))]))]), &limits));
    assert!(!matches_condition(&data, &obj(vec![("s", obj(vec![("$gt", n(0))]))]), &limits));
    assert!(matches_condition(&data, &obj(vec![("s", s("b"))]), &limits));
    assert!(!matches_condition(&data, &obj(vec![("s", s("c"))]), &limits));
    assert!(matches_condition(&data, &obj(vec![("s", obj(vec![("$unknown", n(1))]))]), &limits));
}

#[test]
fn add_then_get_and_remove_then_get() {
    let mut engine = TriggerRuleEngine::new();
    engine.add_rule(make_rule("a", "x", "log", obj(vec![])));
    let mut b = make_rule("b", "y.*", "log", obj(vec![("k", s("v"))]));
    b.priority = -3;
    engine.add_rule(b);
    let got = engine.get_rule("b").unwrap();
    assert_eq!(got.event_pattern, "y.*");
    assert_eq!(got.priority, -3);
    assert_eq!(engine.list_rules()[0].id, "b");
    assert!(engine.remove_rule("b").is_some());
    assert!(engine.get_rule("b").is_none());
    assert_eq!(engine.rule_count(), 1);
}

#[test]
fn double_order_by_bits() {
    assert!(f64_bits_gt(1.0f64.to_bits(), 0.5f64.to_bits()));
    assert!(!f64_bits_gt(0.5f64.to_bits(), 1.0f64.to_bits()));
    assert!(f64_bits_gt(0.5f64.to_bits(), (-1.0f64).to_bits()));
    assert!(f64_bits_gt((-0.5f64).to_bits(), (-1.0f64).to_bits()));
    assert!(!f64_bits_gt(0.0f64.to_bits(), (-0.0f64).to_bits()));
    assert!(!f64_bits_gt((-0.0f64).to_bits(), 0.0f64.to_bits()));
}

#[test]
fn test_trigger_engine_with_custom_storage() {
    let mut engine = TriggerRuleEngine::with_storage(InMemoryRuleStorage::new());
    engine.add_rule(TriggerRule {
        id: "r1".to_string(),
        name: "Test Rule".to_string(),
        event_pattern: "user.*".to_string(),
        condition: None,
        action_type: "log".to_string(),
        action_config: obj(vec![]),
        enabled: true,
        priority: 0,
    });
    assert_eq!(engine.storage().count(), 1);
    assert_eq!(engine.storage().get("r1").unwrap().name, "Test Rule");
    assert_eq!(engine.rule_count(), 1);
    assert_eq!(engine.list_rules()[0].id, "r1");
    engine.remove_rule("r1");
    assert_eq!(engine.storage().count(), 0);
}
