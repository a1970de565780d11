use anycms_event::bus_def::{parse_event_bus, BusToken, Delimiter, EventBusDef};

fn id(s: &str) -> BusToken {
    BusToken::Ident(s.to_string())
}

fn p(c: char) -> BusToken {
    BusToken::Punct(c)
}

fn braces(ts: Vec<BusToken>) -> BusToken {
    BusToken::Group(Delimiter::Brace, ts)
}

fn brackets(ts: Vec<BusToken>) -> BusToken {
    BusToken::Group(Delimiter::Bracket, ts)
}

fn names(ts: &[BusToken]) -> Vec<String> {
    ts.iter()
        .map(|t| match t {
            BusToken::Ident(s) => s.clone(),
            BusToken::Punct(c) => c.to_string(),
            BusToken::Group(_, _) => "()".to_string(),
        })
        .collect()
}

fn err(r: Result<EventBusDef, String>) -> String {
    match r {
        Ok(_) => panic!("expected an error"),
        Err(e) => e,
    }
}

// bus AppBus {
//     event UserCreated { user_id: u64, name: String, tags: HashMap<String, u8> }
//     event UserDeleted { user_id: u64 }
//     topic user_events => [UserCreated, crate::events::UserDeleted]
// }
fn sample() -> Vec<BusToken> {
    let created_fields = vec![
        id("user_id"), p(':'), id("u64"), p(','),
        id("name"), p(':'), id("String"), p(','),
        id("tags"), p(':'), id("HashMap"), p('<'), id("String"), p(','), id("u8"), p('>'),
    ];
    let deleted_fields = vec![id("user_id"), p(':'), id("u64"), p(',')];
    let types = vec![
        id("UserCreated"), p(','),
        id("crate"), p(':'), p(':'), id("events"), p(':'), p(':'), id("UserDeleted"),
    ];
    vec![
        id("bus"),
        id("AppBus"),
        braces(vec![
            id("event"), id("UserCreated"), braces(created_fields),
            id("event"), id("UserDeleted"), braces(deleted_fields),
            id("topic"), id("user_events"), p('='), p('>'), brackets(types),
        ]),
    ]
}

#[test]
fn parses_events_and_topics_in_source_order() {
    let def = parse_event_bus(&sample()).unwrap();
    assert_eq!(def.bus_name, "AppBus");
    assert_eq!(def.events.len(), 2);
    assert_eq!(def.events[0].name, "UserCreated");
    assert_eq!(def.events[1].name, "UserDeleted");
    let fields = &def.events[0].fields;
    assert_eq!(fields.len(), 3);
    assert_eq!(fields[0].0, "user_id");
    assert_eq!(names(&fields[0].1), vec!["u64"]);
    assert_eq!(fields[1].0, "name");
    assert_eq!(names(&fields[1].1), vec!["String"]);
    assert_eq!(fields[2].0, "tags");
    assert_eq!(names(&fields[2].1), vec!["HashMap", "<", "String", ",", "u8", ">"]);
    assert_eq!(def.events[1].fields.len(), 1);
    assert_eq!(def.topics.len(), 1);
    assert_eq!(def.topics[0].method_name, "user_events");
    assert_eq!(def.topics[0].event_types, vec!["UserCreated", "UserDeleted"]);
}

#[test]
fn empty_bus_has_no_events_or_topics() {
    let def = parse_event_bus(&vec![id("bus"), id("Empty"), braces(vec![])]).unwrap();
    assert_eq!(def.bus_name, "Empty");
    assert!(def.events.is_empty());
    assert!(def.topics.is_empty());
}

#[test]
fn trailing_commas_are_optional() {
    let with = vec![
        id("bus"), id("B"),
        braces(vec![
            id("event"), id("E"), braces(vec![id("a"), p(':'), id("u8"), p(',')]),
            id("topic"), id("t"), p('='), p('>'), brackets(vec![id("E"), p(',')]),
        ]),
    ];
    let without = vec![
        id("bus"), id("B"),
        braces(vec![
            id("event"), id("E"), braces(vec![id("a"), p(':'), id("u8")]),
            id("topic"), id("t"), p('='), p('>'), brackets(vec![id("E")]),
        ]),
    ];
    let a = parse_event_bus(&with).unwrap();
    let b = parse_event_bus(&without).unwrap();
    assert_eq!(a.events[0].fields.len(), 1);
    assert_eq!(b.events[0].fields.len(), 1);
    assert_eq!(names(&a.events[0].fields[0].1), names(&b.events[0].fields[0].1));
    assert_eq!(a.topics[0].event_types, b.topics[0].event_types);
}

#[test]
fn first_word_must_be_bus() {
    let r = parse_event_bus(&vec![id("buss"), id("B"), braces(vec![])]);
    assert_eq!(err(r), "expected `bus`");
}

#[test]
fn unknown_item_is_refused() {
    let r = parse_event_bus(&vec![id("bus"), id("B"), braces(vec![id("command"), id("X"), braces(vec![])])]);
    assert_eq!(err(r), "expected `event` or `topic`");
}

#[test]
fn missing_pieces_are_reported() {
    assert_eq!(err(parse_event_bus(&vec![])), "expected identifier");
    assert_eq!(err(parse_event_bus(&vec![id("bus")])), "expected identifier");
    assert_eq!(err(parse_event_bus(&vec![id("bus"), id("B")])), "expected curly braces");
    assert_eq!(
        err(parse_event_bus(&vec![id("bus"), id("B"), brackets(vec![])])),
        "expected curly braces"
    );
    let no_colon = vec![id("bus"), id("B"), braces(vec![id("event"), id("E"), braces(vec![id("a"), id("u8")])])];
    assert_eq!(err(parse_event_bus(&no_colon)), "expected `:`");
    let no_type = vec![id("bus"), id("B"), braces(vec![id("event"), id("E"), braces(vec![id("a"), p(':'), p(',')])])];
    assert_eq!(err(parse_event_bus(&no_type)), "expected a type");
    let no_arrow = vec![id("bus"), id("B"), braces(vec![id("topic"), id("t"), brackets(vec![])])];
    assert_eq!(err(parse_event_bus(&no_arrow)), "expected `=>`");
    let no_brackets = vec![id("bus"), id("B"), braces(vec![id("topic"), id("t"), p('='), p('>'), braces(vec![])])];
    assert_eq!(err(parse_event_bus(&no_brackets)), "expected square brackets");
    let trailing = vec![id("bus"), id("B"), braces(vec![]), id("extra")];
    assert_eq!(err(parse_event_bus(&trailing)), "unexpected token");
}

#[test]
fn an_arrow_inside_a_type_closes_no_angle_bracket() {
    // event E { f: Result<fn() -> u8, E>, g: u8 }
    let fields = vec![
        id("f"), p(':'), id("Result"), p('<'), id("fn"), BusToken::Group(Delimiter::Parenthesis, vec![]),
        p('-'), p('>'), id("u8"), p(','), id("E"), p('>'), p(','),
        id("g"), p(':'), id("u8"),
    ];
    let def = parse_event_bus(&vec![id("bus"), id("B"), braces(vec![id("event"), id("E"), braces(fields)])]).unwrap();
    let fs = &def.events[0].fields;
    assert_eq!(fs.len(), 2);
    assert_eq!(names(&fs[0].1), vec!["Result", "<", "fn", "()", "-", ">", "u8", ",", "E", ">"]);
    assert_eq!(fs[1].0, "g");
}

#[test]
fn a_field_without_its_comma_ends_with_its_type() {
    // event E { a: u32 b: Vec<u8> c: &'a mut str d: fn(u8) -> u8 e: (u8, u8) }
    let fields = vec![
        id("a"), p(':'), id("u32"),
        id("b"), p(':'), id("Vec"), p('<'), id("u8"), p('>'),
        id("c"), p(':'), p('&'), p('\''), id("a"), id("mut"), id("str"),
        id("d"), p(':'), id("fn"), BusToken::Group(Delimiter::Parenthesis, vec![id("u8")]), p('-'), p('>'), id("u8"),
        id("e"), p(':'), BusToken::Group(Delimiter::Parenthesis, vec![id("u8"), p(','), id("u8")]),
    ];
    let def = parse_event_bus(&vec![id("bus"), id("B"), braces(vec![id("event"), id("E"), braces(fields)])]).unwrap();
    let fs = &def.events[0].fields;
    assert_eq!(fs.len(), 5);
    assert_eq!(fs[0].0, "a");
    assert_eq!(names(&fs[0].1), vec!["u32"]);
    assert_eq!(names(&fs[1].1), vec!["Vec", "<", "u8", ">"]);
    assert_eq!(names(&fs[2].1), vec!["&", "'", "a", "mut", "str"]);
    assert_eq!(names(&fs[3].1), vec!["fn", "()", "-", ">", "u8"]);
    assert_eq!(fs[4].0, "e");
}

#[test]
fn topic_types_take_leading_colons_and_generic_arguments() {
    // topic t => [::app::Created<u8>, Deleted::<u8> Other]
    let types = vec![
        p(':'), p(':'), id("app"), p(':'), p(':'), id("Created"), p('<'), id("u8"), p('>'), p(','),
        id("Deleted"), p(':'), p(':'), p('<'), id("u8"), p('>'),
        id("Other"),
    ];
    let def = parse_event_bus(&vec![
        id("bus"), id("B"),
        braces(vec![id("topic"), id("t"), p('='), p('>'), brackets(types)]),
    ])
    .unwrap();
    assert_eq!(def.topics[0].event_types, vec!["Created", "Deleted", "Other"]);
}

#[test]
fn an_unclosed_generic_argument_list_is_refused() {
    let types = vec![id("Created"), p('<'), id("u8")];
    let r = parse_event_bus(&vec![
        id("bus"), id("B"),
        braces(vec![id("topic"), id("t"), p('='), p('>'), brackets(types)]),
    ]);
    assert_eq!(err(r), "expected `>`");
}
