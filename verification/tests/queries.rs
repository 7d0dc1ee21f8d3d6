use basalytics::filter::Filter;
use basalytics::ingest::Properties;
use basalytics::query::QueryData;
use basalytics::store::{Event, Store};
use basalytics::value::EventValue;

fn leaf(name: &str, eq: EventValue) -> Filter {
    Filter::FilterValue { name: name.to_string(), eq }
}

fn text(s: &str) -> EventValue {
    EventValue::String(s.to_string())
}

fn query(from: &str, to: &str, filter: Filter) -> QueryData {
    QueryData { from_date: from.to_string(), to_date: to.to_string(), filter }
}

fn signup_store() -> Store {
    let mut store = Store::new();
    let mut properties = Properties::new();
    properties.insert("plan".to_string(), text("pro"));
    properties.insert("seats".to_string(), EventValue::Integer(5));
    properties.insert("trial".to_string(), EventValue::Boolean(false));
    let stored = store.ingest_at(
        "01H4ZK3N8Q0000000000000000",
        "2023-07-10T12:00:00+00:00",
        "signup",
        &properties,
        "abc",
    );
    assert_eq!(stored, Ok(()));
    store
}

fn july(filter: Filter) -> QueryData {
    query("2023-07-01T00:00:00+00:00", "2023-07-31T23:59:59+00:00", filter)
}

#[test]
fn signup_is_found_by_its_plan() {
    let store = signup_store();
    assert_eq!(july(leaf("plan", text("pro"))).run(&store), 1);
}

#[test]
fn signup_is_not_found_by_other_seats() {
    let store = signup_store();
    assert_eq!(july(leaf("seats", EventValue::Integer(6))).run(&store), 0);
}

#[test]
fn signup_is_found_by_each_of_its_rows() {
    let store = signup_store();
    assert_eq!(july(leaf("seats", EventValue::Integer(5))).run(&store), 1);
    assert_eq!(july(leaf("trial", EventValue::Boolean(false))).run(&store), 1);
    assert_eq!(july(leaf("name", text("signup"))).run(&store), 1);
    assert_eq!(july(leaf("session", text("abc"))).run(&store), 1);
    assert_eq!(july(leaf("trial", EventValue::Boolean(true))).run(&store), 0);
    assert_eq!(july(leaf("plan", text("free"))).run(&store), 0);
}

fn dated_store() -> Store {
    let mut store = Store::new();
    for (key, date, browser) in [
        ("e1", "2023-07-01T00:00:00+00:00", "Chrome"),
        ("e2", "2023-07-10T12:00:00+00:00", "Firefox"),
        ("e3", "2023-07-20T08:30:00+00:00", "Chrome"),
        ("e4", "2023-07-31T23:59:59+00:00", "Chrome"),
        ("e5", "2023-08-01T00:00:00+00:00", "Chrome"),
    ] {
        store.insert_event(key, date).unwrap();
        store.write(key, "browser", text(browser)).unwrap();
    }
    store
}

fn keys(events: &[Event]) -> Vec<String> {
    events.iter().map(|event| event.key.clone()).collect()
}

#[test]
fn range_includes_both_bounds() {
    let store = dated_store();
    let all = july(Filter::FilterAnd(vec![]));
    assert_eq!(all.run(&store), 4);
    assert_eq!(keys(&all.select(&store)), vec!["e1", "e2", "e3", "e4"]);
    let one_moment = query(
        "2023-07-10T12:00:00+00:00",
        "2023-07-10T12:00:00+00:00",
        Filter::FilterAnd(vec![]),
    );
    assert_eq!(one_moment.run(&store), 1);
    assert_eq!(keys(&one_moment.select(&store)), vec!["e2"]);
}

#[test]
fn range_that_ends_before_it_starts_selects_nothing() {
    let store = dated_store();
    let backwards = query(
        "2023-07-31T00:00:00+00:00",
        "2023-07-01T00:00:00+00:00",
        Filter::FilterAnd(vec![]),
    );
    assert_eq!(backwards.run(&store), 0);
    assert!(backwards.select(&store).is_empty());
}

#[test]
fn empty_or_selects_nothing_in_any_range() {
    let store = dated_store();
    assert_eq!(july(Filter::FilterOr(vec![])).run(&store), 0);
}

#[test]
fn filter_and_range_both_restrict() {
    let store = dated_store();
    let chrome = leaf("browser", text("Chrome"));
    assert_eq!(july(chrome).run(&store), 3);
    let late = query(
        "2023-07-15T00:00:00+00:00",
        "2023-12-31T00:00:00+00:00",
        leaf("browser", text("Chrome")),
    );
    assert_eq!(late.run(&store), 3);
    assert_eq!(keys(&late.select(&store)), vec!["e3", "e4", "e5"]);
    let found = late.select(&store);
    assert_eq!(found[0].date, "2023-07-20T08:30:00+00:00");
}

#[test]
fn selects_agrees_with_run() {
    let store = dated_store();
    let q = july(leaf("browser", text("Firefox")));
    let selected: Vec<bool> = store.events().iter().map(|event| q.selects(&store, event)).collect();
    assert_eq!(selected, vec![false, true, false, false, false]);
    assert_eq!(q.run(&store), 1);
}
