use basalytics::error::IngestError;
use basalytics::store::{Store, Table};
use basalytics::value::{EventValue, ValueKind};

fn text(s: &str) -> EventValue {
    EventValue::String(s.to_string())
}

#[test]
fn new_store_is_empty() {
    let store = Store::new();
    assert_eq!(store.events().len(), 0);
    assert!(store.lookup_event_keys("browser", &text("Chrome")).is_empty());
    assert!(!store.has_event("e1"));
}

#[test]
fn write_then_lookup_finds_the_event() {
    let mut store = Store::new();
    assert_eq!(store.write("e1", "browser", text("Chrome")), Ok(()));
    assert_eq!(store.write("e2", "browser", text("Firefox")), Ok(()));
    assert_eq!(store.write("e3", "browser", text("Chrome")), Ok(()));
    assert_eq!(
        store.lookup_event_keys("browser", &text("Chrome")),
        vec!["e1".to_string(), "e3".to_string()]
    );
    assert_eq!(store.lookup_event_keys("browser", &text("Firefox")), vec!["e2".to_string()]);
    assert!(store.lookup_event_keys("browser", &text("Safari")).is_empty());
    assert!(store.lookup_event_keys("platform", &text("Chrome")).is_empty());
}

#[test]
fn second_write_of_a_name_is_refused_and_first_row_stays() {
    let mut store = Store::new();
    assert_eq!(store.write("e1", "plan", text("pro")), Ok(()));
    assert_eq!(
        store.write("e1", "plan", text("free")),
        Err(IngestError::UniqueConstraintViolation)
    );
    assert_eq!(
        store.write("e1", "plan", text("pro")),
        Err(IngestError::UniqueConstraintViolation)
    );
    assert!(store.holds("e1", "plan", &text("pro")));
    assert!(!store.holds("e1", "plan", &text("free")));
    assert_eq!(store.lookup_event_keys("plan", &text("pro")), vec!["e1".to_string()]);
    assert!(store.lookup_event_keys("plan", &text("free")).is_empty());
}

#[test]
fn uniqueness_is_per_table() {
    let mut store = Store::new();
    assert_eq!(store.write("e1", "count", EventValue::Integer(3)), Ok(()));
    assert_eq!(store.write("e1", "count", text("three")), Ok(()));
    assert_eq!(store.write("e1", "count", EventValue::Boolean(true)), Ok(()));
    assert_eq!(
        store.write("e1", "count", EventValue::Integer(4)),
        Err(IngestError::UniqueConstraintViolation)
    );
    assert_eq!(
        store.write("e1", "count", EventValue::Boolean(false)),
        Err(IngestError::UniqueConstraintViolation)
    );
    assert!(store.holds("e1", "count", &EventValue::Integer(3)));
    assert!(store.holds("e1", "count", &text("three")));
    assert!(store.holds("e1", "count", &EventValue::Boolean(true)));
}

#[test]
fn same_name_on_two_events_is_accepted() {
    let mut store = Store::new();
    assert_eq!(store.write("e1", "seats", EventValue::Integer(5)), Ok(()));
    assert_eq!(store.write("e2", "seats", EventValue::Integer(5)), Ok(()));
    assert_eq!(
        store.lookup_event_keys("seats", &EventValue::Integer(5)),
        vec!["e1".to_string(), "e2".to_string()]
    );
}

#[test]
fn lookup_dispatches_on_the_kind_of_the_value() {
    let mut store = Store::new();
    assert_eq!(store.write("e1", "flag", EventValue::Boolean(true)), Ok(()));
    assert_eq!(store.write("e2", "flag", text("true")), Ok(()));
    assert_eq!(store.write("e3", "flag", EventValue::Integer(1)), Ok(()));
    assert_eq!(store.lookup_event_keys("flag", &EventValue::Boolean(true)), vec!["e1".to_string()]);
    assert_eq!(store.lookup_event_keys("flag", &text("true")), vec!["e2".to_string()]);
    assert_eq!(store.lookup_event_keys("flag", &EventValue::Integer(1)), vec!["e3".to_string()]);
    assert!(store.lookup_event_keys("flag", &EventValue::Boolean(false)).is_empty());
}

#[test]
fn insert_event_refuses_a_taken_key() {
    let mut store = Store::new();
    assert_eq!(store.insert_event("e1", "2023-07-10T12:00:00+00:00"), Ok(()));
    assert_eq!(
        store.insert_event("e1", "2023-07-11T12:00:00+00:00"),
        Err(IngestError::UniqueConstraintViolation)
    );
    assert_eq!(store.events().len(), 1);
    assert_eq!(store.events()[0].date, "2023-07-10T12:00:00+00:00");
    assert!(store.has_event("e1"));
    assert!(!store.has_event("e2"));
}

#[test]
fn typed_table_keeps_rows_in_order_and_truncates() {
    let mut table: Table<i32> = Table::new();
    assert_eq!(table.len(), 0);
    assert_eq!(table.write("e1", "seats", 5), Ok(()));
    assert_eq!(table.write("e2", "seats", 5), Ok(()));
    assert_eq!(table.write("e1", "seats", 9), Err(IngestError::UniqueConstraintViolation));
    assert_eq!(table.len(), 2);
    assert!(table.contains_name("e1", "seats"));
    assert!(!table.contains_name("e1", "seat"));
    assert!(table.holds("e2", "seats", &5));
    assert!(!table.holds("e2", "seats", &6));
    table.truncate(1);
    assert_eq!(table.len(), 1);
    assert_eq!(table.lookup_event_keys("seats", &5), vec!["e1".to_string()]);
}

#[test]
fn value_knows_its_kind_and_equality() {
    assert_eq!(EventValue::Boolean(true).kind(), ValueKind::Boolean);
    assert_eq!(EventValue::Integer(0).kind(), ValueKind::Integer);
    assert_eq!(text("").kind(), ValueKind::String);
    assert!(text("a").same(&text("a")));
    assert!(!text("a").same(&text("b")));
    assert!(!text("1").same(&EventValue::Integer(1)));
    assert!(EventValue::Integer(-7).same(&EventValue::Integer(-7)));
    assert!(!EventValue::Boolean(true).same(&EventValue::Boolean(false)));
    assert!(text("x").clone().same(&text("x")));
}
