use basalytics::error::{IngestError, ParseError};
use basalytics::filter::Filter;
use basalytics::ingest::EventPayload;
use basalytics::json::{Json, Member};
use basalytics::query::QueryData;
use basalytics::store::Store;
use basalytics::value::EventValue;
use basalytics::wire::{find_member, QueryCommand};

fn member(name: &str, value: Json) -> Member {
    Member { name: name.to_string(), value }
}

fn text(s: &str) -> Json {
    Json::Text(s.to_string())
}

fn show(filter: &Filter) -> String {
    format!("{:?}", filter)
}

fn shape_of<T: std::fmt::Debug>(r: Result<T, ParseError>) -> Option<ParseError> {
    r.err()
}

#[test]
fn json_text_becomes_a_document() {
    let json = Json::parse(r#"{"b": [1, -2, 2.5, "x", true, null], "a": {"c": false}}"#).unwrap();
    match &json {
        Json::Object(members) => {
            assert_eq!(members.len(), 2);
            let a = find_member(members, "a").unwrap();
            assert_eq!(format!("{:?}", a), r#"Object([Member { name: "c", value: Boolean(false) }])"#);
            let b = find_member(members, "b").unwrap();
            assert_eq!(
                format!("{:?}", b),
                r#"Array([Integer(1), Integer(-2), Number, Text("x"), Boolean(true), Null])"#
            );
            assert!(find_member(members, "c").is_none());
        }
        other => panic!("not an object: {:?}", other),
    }
    assert!(Json::parse("{").is_none());
    assert!(Json::parse("").is_none());
    assert!(Json::parse("1 2").is_none());
    assert_eq!(format!("{:?}", Json::parse("18446744073709551615").unwrap()), "Number");
    assert_eq!(
        format!("{:?}", Json::parse("9223372036854775807").unwrap()),
        "Integer(9223372036854775807)"
    );
}

#[test]
fn find_member_takes_the_first_of_a_name() {
    let members = vec![member("a", Json::Integer(1)), member("b", Json::Null), member("a", Json::Integer(2))];
    assert_eq!(format!("{:?}", find_member(&members, "a")), "Some(Integer(1))");
    assert_eq!(format!("{:?}", find_member(&members, "b")), "Some(Null)");
    assert_eq!(format!("{:?}", find_member(&members, "A")), "None");
}

#[test]
fn property_values_are_texts_integers_of_32_bits_and_booleans() {
    assert!(EventValue::from_json(&text("pro")).unwrap().same(&EventValue::String("pro".to_string())));
    assert!(EventValue::from_json(&Json::Integer(5)).unwrap().same(&EventValue::Integer(5)));
    assert!(EventValue::from_json(&Json::Boolean(false)).unwrap().same(&EventValue::Boolean(false)));
    assert!(EventValue::from_json(&Json::Integer(2147483647)).unwrap().same(&EventValue::Integer(i32::MAX)));
    assert!(EventValue::from_json(&Json::Integer(-2147483648)).unwrap().same(&EventValue::Integer(i32::MIN)));
}

#[test]
fn other_values_are_of_an_unsupported_kind() {
    for json in [
        Json::Null,
        Json::Number,
        Json::Integer(2147483648),
        Json::Integer(-2147483649),
        Json::Array(vec![]),
        Json::Object(vec![]),
    ] {
        assert_eq!(EventValue::from_json(&json).err(), Some(IngestError::UnsupportedValueKind));
    }
}

#[test]
fn filter_is_read_from_its_tag() {
    let filter = Filter::parse(r#"{"filter": {"name": "browser", "eq": "Chrome"}}"#).unwrap();
    assert_eq!(show(&filter), r#"FilterValue { name: "browser", eq: String("Chrome") }"#);
    let filter = Filter::parse(r#"{"filter": {"eq": 5, "name": "seats", "note": null}}"#).unwrap();
    assert_eq!(show(&filter), r#"FilterValue { name: "seats", eq: Integer(5) }"#);
    let filter = Filter::parse(r#"{"and": []}"#).unwrap();
    assert_eq!(show(&filter), "FilterAnd([])");
    let filter = Filter::parse(r#"{"or": []}"#).unwrap();
    assert_eq!(show(&filter), "FilterOr([])");
    let filter = Filter::parse(
        r#"{"and": [{"filter": {"name": "plan", "eq": "pro"}}, {"or": [{"filter": {"name": "seats", "eq": 5}}, {"filter": {"name": "trial", "eq": true}}]}]}"#,
    )
    .unwrap();
    assert_eq!(
        show(&filter),
        r#"FilterAnd([FilterValue { name: "plan", eq: String("pro") }, FilterOr([FilterValue { name: "seats", eq: Integer(5) }, FilterValue { name: "trial", eq: Boolean(true) }])])"#
    );
}

#[test]
fn text_that_is_not_json_is_a_syntax_error() {
    assert_eq!(shape_of(Filter::parse(r#"{"and": ["#)), Some(ParseError::Syntax));
    assert_eq!(shape_of(Filter::parse("")), Some(ParseError::Syntax));
    assert_eq!(shape_of(QueryData::parse("from_date")), Some(ParseError::Syntax));
}

#[test]
fn document_that_is_no_filter_is_a_shape_error() {
    for text in [
        "null",
        "[]",
        r#""and""#,
        "{}",
        r#"{"not": []}"#,
        r#"{"and": {}}"#,
        r#"{"or": "x"}"#,
        r#"{"and": [], "or": []}"#,
        r#"{"and": [{"filter": {"name": "a"}}]}"#,
        r#"{"filter": {"name": "a"}}"#,
        r#"{"filter": {"eq": 1}}"#,
        r#"{"filter": {"name": 1, "eq": 1}}"#,
        r#"{"filter": {"name": "a", "eq": null}}"#,
        r#"{"filter": {"name": "a", "eq": 1.5}}"#,
        r#"{"filter": {"name": "a", "eq": 2147483648}}"#,
        r#"{"filter": {"name": "a", "eq": [1]}}"#,
        r#"{"filter": ["a", 1]}"#,
        r#"{"or": [{"and": []}, 1]}"#,
    ] {
        assert_eq!(shape_of(Filter::parse(text)), Some(ParseError::Shape), "{}", text);
    }
}

#[test]
fn query_is_read_with_its_filter() {
    let query = QueryData::parse(
        r#"{"from_date": "2023-07-01T00:00:00+00:00", "to_date": "2023-07-31T00:00:00+00:00", "filter": {"name": "plan", "eq": "pro"}}"#,
    )
    .unwrap();
    assert_eq!(query.from_date, "2023-07-01T00:00:00+00:00");
    assert_eq!(query.to_date, "2023-07-31T00:00:00+00:00");
    assert_eq!(show(&query.filter), r#"FilterValue { name: "plan", eq: String("pro") }"#);
    let query = QueryData::parse(r#"{"or": [{"and": []}], "to_date": "b", "from_date": "a", "page": 2}"#).unwrap();
    assert_eq!(query.from_date, "a");
    assert_eq!(query.to_date, "b");
    assert_eq!(show(&query.filter), "FilterOr([FilterAnd([])])");
}

#[test]
fn query_without_filter_has_the_empty_conjunction() {
    let query = QueryData::parse(r#"{"from_date": "a", "to_date": "b"}"#).unwrap();
    assert_eq!(show(&query.filter), "FilterAnd([])");
    let mut store = Store::new();
    store.insert_event("e1", "ab").unwrap();
    store.insert_event("e2", "c").unwrap();
    assert_eq!(query.run(&store), 1);
}

#[test]
fn document_that_is_no_query_is_a_shape_error() {
    for text in [
        "[]",
        r#"{"from_date": "a"}"#,
        r#"{"to_date": "b"}"#,
        r#"{"from_date": 1, "to_date": "b"}"#,
        r#"{"from_date": "a", "to_date": null}"#,
        r#"{"from_date": "a", "to_date": "b", "and": [], "or": []}"#,
        r#"{"from_date": "a", "to_date": "b", "filter": {"name": "x", "eq": 1}, "and": []}"#,
        r#"{"from_date": "a", "to_date": "b", "and": 1}"#,
        r#"{"from_date": "a", "to_date": "b", "filter": {"name": "x"}}"#,
    ] {
        assert_eq!(shape_of(QueryData::parse(text)), Some(ParseError::Shape), "{}", text);
    }
}

#[test]
fn filter_built_by_hand_reads_like_the_parsed_one() {
    let json = Json::Object(vec![member(
        "and",
        Json::Array(vec![Json::Object(vec![member(
            "filter",
            Json::Object(vec![member("name", text("plan")), member("eq", text("pro"))]),
        )])]),
    )]);
    let filter = Filter::from_json(&json).unwrap();
    assert_eq!(show(&filter), r#"FilterAnd([FilterValue { name: "plan", eq: String("pro") }])"#);
    let tagged = Filter::from_member("or", &Json::Array(vec![])).unwrap();
    assert_eq!(show(&tagged), "FilterOr([])");
    assert_eq!(shape_of(Filter::from_member("nor", &Json::Array(vec![]))), Some(ParseError::Shape));
    let query = QueryData::from_json(&Json::Object(vec![
        member("from_date", text("a")),
        member("to_date", text("b")),
        member("or", Json::Array(vec![])),
    ]))
    .unwrap();
    assert_eq!(show(&query.filter), "FilterOr([])");
}

#[test]
fn events_are_read_with_their_properties() {
    let events = EventPayload::parse_list(
        r#"[{"name": "signup", "properties": {"plan": "pro", "seats": 5, "trial": false}}, {"name": "click", "properties": {}}]"#,
    )
    .unwrap();
    assert_eq!(events.len(), 2);
    assert_eq!(events[0].name, "signup");
    assert_eq!(
        format!("{:?}", events[0].properties.items()),
        r#"[Property { name: "plan", value: String("pro") }, Property { name: "seats", value: Integer(5) }, Property { name: "trial", value: Boolean(false) }]"#
    );
    assert_eq!(events[1].name, "click");
    assert_eq!(events[1].properties.len(), 0);
    assert!(EventPayload::parse_list("[]").unwrap().is_empty());
}

#[test]
fn unsupported_property_rejects_the_event() {
    for text in [
        r#"[{"name": "signup", "properties": {"plan": null}}]"#,
        r#"[{"name": "signup", "properties": {"plan": "pro", "price": 9.5}}]"#,
        r#"[{"name": "signup", "properties": {"seats": 4294967296}}]"#,
        r#"[{"name": "signup", "properties": {"tags": ["a"]}}]"#,
        r#"[{"name": "ok", "properties": {}}, {"name": "signup", "properties": {"nested": {}}}]"#,
    ] {
        assert_eq!(EventPayload::parse_list(text).err(), Some(IngestError::UnsupportedValueKind), "{}", text);
    }
}

#[test]
fn document_that_is_no_event_is_malformed() {
    for text in [
        "",
        "{}",
        r#"{"name": "signup", "properties": {}}"#,
        r#"[{"name": "signup"}]"#,
        r#"[{"properties": {}}]"#,
        r#"[{"name": 1, "properties": {}}]"#,
        r#"[{"name": "signup", "properties": []}]"#,
        r#"["signup"]"#,
        r#"[{"name": "bad"}, {"name": "signup", "properties": {"plan": null}}]"#,
    ] {
        assert_eq!(EventPayload::parse_list(text).err(), Some(IngestError::MalformedPayload), "{}", text);
    }
    assert_eq!(
        EventPayload::parse_list(r#"[{"name": "signup", "properties": {"plan": null}}, {"name": "bad"}]"#).err(),
        Some(IngestError::UnsupportedValueKind)
    );
    assert_eq!(EventPayload::from_json(&Json::Null).err(), Some(IngestError::MalformedPayload));
    assert_eq!(EventPayload::list_from_json(&Json::Null).err(), Some(IngestError::MalformedPayload));
}

#[test]
fn events_of_a_request_are_ingested_one_by_one() {
    let mut store = Store::new();
    let events = EventPayload::parse_list(
        r#"[{"name": "signup", "properties": {"plan": "pro"}}, {"name": "click", "properties": {"name": "button"}}, {"name": "late", "properties": {}}]"#,
    )
    .unwrap();
    assert_eq!(store.ingest_events(&events, "abc"), Err(IngestError::UniqueConstraintViolation));
    assert_eq!(store.events().len(), 1);
    let key = store.events()[0].key.clone();
    assert!(store.holds(&key, "name", &EventValue::String("signup".to_string())));
    assert!(store.holds(&key, "plan", &EventValue::String("pro".to_string())));
    assert!(store.holds(&key, "session", &EventValue::String("abc".to_string())));
    assert!(store.lookup_event_keys("name", &EventValue::String("click".to_string())).is_empty());
    assert!(store.lookup_event_keys("name", &EventValue::String("late".to_string())).is_empty());
    assert_eq!(store.ingest_events(&vec![], "abc"), Ok(()));
    assert_eq!(store.events().len(), 1);
    let more = EventPayload::parse_list(r#"[{"name": "a", "properties": {}}, {"name": "b", "properties": {}}]"#).unwrap();
    assert_eq!(store.ingest_events(&more, "abc"), Ok(()));
    assert_eq!(store.events().len(), 3);
}

#[test]
fn command_without_filter_asks_for_everything_in_range() {
    let command = QueryCommand { from_date: "a".to_string(), to_date: "b".to_string(), filter: None };
    let query = command.query().unwrap();
    assert_eq!(query.from_date, "a");
    assert_eq!(query.to_date, "b");
    assert_eq!(show(&query.filter), "FilterAnd([])");
}

#[test]
fn command_with_filter_reads_it() {
    let command = QueryCommand {
        from_date: "a".to_string(),
        to_date: "b".to_string(),
        filter: Some(r#"{"filter": {"name": "plan", "eq": "pro"}}"#.to_string()),
    };
    assert_eq!(show(&command.query().unwrap().filter), r#"FilterValue { name: "plan", eq: String("pro") }"#);
    let broken = QueryCommand { from_date: "a".to_string(), to_date: "b".to_string(), filter: Some("{".to_string()) };
    assert_eq!(shape_of(broken.query()), Some(ParseError::Syntax));
    let wrong = QueryCommand { from_date: "a".to_string(), to_date: "b".to_string(), filter: Some("[]".to_string()) };
    assert_eq!(shape_of(wrong.query()), Some(ParseError::Shape));
}

#[test]
fn later_member_of_a_name_counts() {
    let json = Json::Object(vec![
        member("name", text("signup")),
        member(
            "properties",
            Json::Object(vec![
                member("plan", text("free")),
                member("seats", Json::Integer(5)),
                member("plan", text("pro")),
            ]),
        ),
    ]);
    let event = EventPayload::from_json(&json).unwrap();
    assert_eq!(
        format!("{:?}", event.properties.items()),
        r#"[Property { name: "plan", value: String("pro") }, Property { name: "seats", value: Integer(5) }]"#
    );
    let parsed = EventPayload::parse_list(r#"[{"name": "signup", "properties": {"plan": "free", "plan": "pro"}}]"#).unwrap();
    assert_eq!(
        format!("{:?}", parsed[0].properties.items()),
        r#"[Property { name: "plan", value: String("pro") }]"#
    );
}
