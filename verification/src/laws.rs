//! What holds of the store, of filters and of session identifiers, for
//! every store and every input.

use vstd::prelude::*;
use crate::filter::{compiled, lemma_compiled_holds, FilterView};
use crate::ingest::{
    distinct_names, distinct_rows, event_rows, is_made_key, lemma_unmentioned_key_is_taken,
    session_rows, PropertyView,
};
use crate::value::ValueKind;
use crate::query::{compiled_query, lemma_compiled_query_selects, QueryView};
use crate::session::{session_id_of, session_message};
use crate::store::{has_key, has_name, lemma_lookup_holds, EventView, RowView, StoreView};
use crate::text::lemma_encoding_injective;
use crate::value::EventValueView;
use vstd::utf8::encode_utf8;

verus! {

/// A write that the store accepts keeps its constraints, keeps every row
/// it held, and makes the new row visible.
pub proof fn law_write_adds_the_row(
    store: StoreView,
    key: Seq<char>,
    name: Seq<char>,
    value: EventValueView,
)
    requires
        store.wf(),
        !store.has_name(value.kind(), key, name),
    ensures
        store.with_row(key, name, value).wf(),
        store.with_row(key, name, value).holds(key, name, value),
        store.is_prefix_of(store.with_row(key, name, value)),
        forall|k: Seq<char>, n: Seq<char>, v: EventValueView|
            store.holds(k, n, v) ==> #[trigger] store.with_row(key, name, value).holds(k, n, v),
{
    let after = store.with_row(key, name, value);
    match value {
        EventValueView::Boolean(b) => {
            lemma_push_row(store.booleans, RowView { event_key: key, name, value: b });
        },
        EventValueView::Integer(i) => {
            lemma_push_row(store.integers, RowView { event_key: key, name, value: i });
        },
        EventValueView::String(s) => {
            lemma_push_row(store.strings, RowView { event_key: key, name, value: s });
        },
    }
}

/// A table that gets a row for an event and name it had none for keeps
/// its constraint and its rows, and holds the new one.
proof fn lemma_push_row<T>(rows: Seq<RowView<T>>, row: RowView<T>)
    requires
        crate::store::unique_names(rows),
        !has_name(rows, row.event_key, row.name),
    ensures
        crate::store::unique_names(rows.push(row)),
        rows.push(row).contains(row),
        rows.is_prefix_of(rows.push(row)),
        forall|r: RowView<T>| rows.contains(r) ==> #[trigger] rows.push(row).contains(r),
        has_name(rows.push(row), row.event_key, row.name),
{
    let after = rows.push(row);
    assert(after[rows.len() as int] == row);
    assert forall|r: RowView<T>| rows.contains(r) implies #[trigger] after.contains(r) by {
        let i = choose|i: int| 0 <= i < rows.len() && rows[i] == r;
        assert(after[i] == r);
    }
    assert forall|i: int, j: int| 0 <= i < j < after.len() implies !(#[trigger] after[i].event_key
        == #[trigger] after[j].event_key && after[i].name == after[j].name) by {
        if j == rows.len() {
            assert(rows[i].event_key == after[i].event_key);
        } else {
            assert(rows[i].event_key == after[i].event_key);
            assert(rows[j].event_key == after[j].event_key);
        }
    }
}

/// Uniqueness: once an event has a value under a name in a table, a
/// second write for the same event and name into that table is refused,
/// whatever its value, and the first row stays as it was written.
pub proof fn law_second_write_is_refused(
    store: StoreView,
    key: Seq<char>,
    name: Seq<char>,
    first: EventValueView,
    second: EventValueView,
)
    requires
        store.wf(),
        !store.has_name(first.kind(), key, name),
        second.kind() == first.kind(),
    ensures
        store.with_row(key, name, first).has_name(second.kind(), key, name),
        store.with_row(key, name, first).holds(key, name, first),
        second != first ==> !store.with_row(key, name, first).holds(key, name, second),
{
    law_write_adds_the_row(store, key, name, first);
    let after = store.with_row(key, name, first);
    match first {
        EventValueView::Boolean(b) => {
            lemma_push_row(store.booleans, RowView { event_key: key, name, value: b });
            if after.holds(key, name, second) {
                lemma_one_value(after.booleans, key, name, b, second->Boolean_0);
            }
        },
        EventValueView::Integer(i) => {
            lemma_push_row(store.integers, RowView { event_key: key, name, value: i });
            if after.holds(key, name, second) {
                lemma_one_value(after.integers, key, name, i, second->Integer_0);
            }
        },
        EventValueView::String(s) => {
            lemma_push_row(store.strings, RowView { event_key: key, name, value: s });
            if after.holds(key, name, second) {
                lemma_one_value(after.strings, key, name, s, second->String_0);
            }
        },
    }
}

/// In a table that keeps its constraint an event has at most one value
/// under a name.
proof fn lemma_one_value<T>(rows: Seq<RowView<T>>, key: Seq<char>, name: Seq<char>, a: T, b: T)
    requires
        crate::store::unique_names(rows),
        rows.contains(RowView { event_key: key, name, value: a }),
        rows.contains(RowView { event_key: key, name, value: b }),
    ensures
        a == b,
{
    let i = choose|i: int| 0 <= i < rows.len() && rows[i] == (RowView { event_key: key, name, value: a });
    let j = choose|j: int| 0 <= j < rows.len() && rows[j] == (RowView { event_key: key, name, value: b });
    if i < j {
        assert(rows[i].event_key == rows[j].event_key);
    } else if j < i {
        assert(rows[j].event_key == rows[i].event_key);
    }
}

/// The rows of a batch that the store accepts are all visible afterwards,
/// beside everything the store held before, and the store keeps its
/// constraints.
pub proof fn law_rows_are_stored_together(store: StoreView, key: Seq<char>, rows: Seq<PropertyView>)
    requires
        store.wf(),
        store.with_rows(key, rows) is Some,
    ensures
        store.with_rows(key, rows)->0.wf(),
        store.is_prefix_of(store.with_rows(key, rows)->0),
        store.with_rows(key, rows)->0.events == store.events,
        forall|i: int|
            0 <= i < rows.len() ==> store.with_rows(key, rows)->0.holds(
                key,
                (#[trigger] rows[i]).name,
                rows[i].value,
            ),
        forall|k: Seq<char>, n: Seq<char>, v: EventValueView|
            store.holds(k, n, v) ==> #[trigger] store.with_rows(key, rows)->0.holds(k, n, v),
    decreases rows.len(),
{
    if rows.len() > 0 {
        let next = store.with_row(key, rows[0].name, rows[0].value);
        let rest = rows.drop_first();
        let after = store.with_rows(key, rows)->0;
        law_write_adds_the_row(store, key, rows[0].name, rows[0].value);
        law_rows_are_stored_together(next, key, rest);
        assert(after == next.with_rows(key, rest)->0);
        assert forall|i: int| 0 <= i < rows.len() implies after.holds(
            key,
            (#[trigger] rows[i]).name,
            rows[i].value,
        ) by {
            if i > 0 {
                assert(rows[i] == rest[i - 1]);
            } else {
                assert(next.holds(key, rows[0].name, rows[0].value));
            }
        }
        assert forall|k: Seq<char>, n: Seq<char>, v: EventValueView|
            store.holds(k, n, v) implies #[trigger] after.holds(k, n, v) by {
            assert(next.holds(k, n, v));
        }
    }
}

/// Atomicity: an ingestion that the store accepts makes the event and
/// every one of its rows visible, and keeps all that was there; one that
/// it refuses is defined to change nothing, so that no reader ever sees
/// an event with a part of its rows.
pub proof fn law_event_and_rows_together(
    store: StoreView,
    key: Seq<char>,
    date: Seq<char>,
    rows: Seq<PropertyView>,
)
    requires
        store.wf(),
    ensures
        store.with_batch(key, date, rows) matches Some(after) ==> {
            &&& after.wf()
            &&& store.is_prefix_of(after)
            &&& after.events == store.events.push(EventView { key, date })
            &&& forall|i: int|
                0 <= i < rows.len() ==> after.holds(key, (#[trigger] rows[i]).name, rows[i].value)
        },
        store.with_batch(key, date, rows) is None ==> has_key(store.events, key) || store.with_event(
            key,
            date,
        ).with_rows(key, rows) is None,
{
    if store.with_batch(key, date, rows) is Some {
        let started = store.with_event(key, date);
        assert forall|i: int, j: int| 0 <= i < j < started.events.len() implies #[trigger]
            started.events[i].key != #[trigger] started.events[j].key by {
            if j == store.events.len() {
                assert(store.events[i].key == started.events[i].key);
            }
        }
        law_rows_are_stored_together(started, key, rows);
    }
}

/// A store without events and rows knows no key, so that every event
/// whose rows go into their tables under names of their own is taken by
/// it, whatever key is made for the event.
pub proof fn law_empty_store_takes_distinct_rows(
    key: Seq<char>,
    date: Seq<char>,
    rows: Seq<PropertyView>,
)
    ensures
        StoreView::empty().mentions_no_made_key(),
        StoreView::empty().with_batch(key, date, rows) is Some <==> distinct_rows(rows),
{
    assert forall|k: Seq<char>| is_made_key(k) implies !#[trigger] StoreView::empty().mentions(
        k,
    ) by {}
    lemma_unmentioned_key_is_taken(StoreView::empty(), key, date, rows);
}

/// The rows of an event go into their tables under names of their own
/// exactly when its properties have names of their own and none of them
/// is a text under one of the reserved names `name` and `session`.
pub proof fn law_reserved_names(name: Seq<char>, properties: Seq<PropertyView>, session_id: Seq<char>)
    requires
        distinct_names(properties),
    ensures
        distinct_rows(event_rows(name, properties)) <==> forall|i: int|
            0 <= i < properties.len() ==> !((#[trigger] properties[i]).value.kind()
                == ValueKind::String && properties[i].name == "name"@),
        distinct_rows(session_rows(name, properties, session_id)) <==> forall|i: int|
            0 <= i < properties.len() ==> !((#[trigger] properties[i]).value.kind()
                == ValueKind::String && (properties[i].name == "name"@ || properties[i].name
                == "session"@)),
{
    reveal_strlit("name");
    reveal_strlit("session");
    assert("name"@.len() == 4 && "session"@.len() == 7);
    let first = event_rows(name, properties);
    let all = session_rows(name, properties, session_id);
    let n = properties.len() as int;
    assert(first.len() == n + 1 && all.len() == n + 2);
    assert(first[0].name == "name"@ && first[0].value.kind() == ValueKind::String);
    assert(all[0] == first[0]);
    assert(all[n + 1].name == "session"@ && all[n + 1].value.kind() == ValueKind::String);
    assert forall|i: int| 0 <= i < n implies #[trigger] first[i + 1] == properties[i] && all[i + 1]
        == properties[i] by {}
    let free = forall|i: int|
        0 <= i < properties.len() ==> !((#[trigger] properties[i]).value.kind() == ValueKind::String
            && properties[i].name == "name"@);
    let free_of_both = forall|i: int|
        0 <= i < properties.len() ==> !((#[trigger] properties[i]).value.kind() == ValueKind::String
            && (properties[i].name == "name"@ || properties[i].name == "session"@));
    if free {
        assert forall|i: int, j: int| 0 <= i < j < first.len() implies !((
        #[trigger] first[i]).value.kind() == (#[trigger] first[j]).value.kind() && first[i].name
            == first[j].name) by {
            assert(first[j] == properties[j - 1]);
            if i > 0 {
                assert(first[i] == properties[i - 1]);
            }
        }
    }
    if distinct_rows(first) {
        assert forall|i: int| 0 <= i < properties.len() implies !((
        #[trigger] properties[i]).value.kind() == ValueKind::String && properties[i].name
            == "name"@) by {
            assert(first[i + 1] == properties[i]);
            assert(!(first[0].value.kind() == first[i + 1].value.kind() && first[0].name == first[i
                + 1].name));
        }
    }
    if free_of_both {
        assert forall|i: int, j: int| 0 <= i < j < all.len() implies !((
        #[trigger] all[i]).value.kind() == (#[trigger] all[j]).value.kind() && all[i].name
            == all[j].name) by {
            if j <= n {
                assert(all[j] == properties[j - 1]);
            }
            if 0 < i {
                assert(all[i] == properties[i - 1]);
            }
        }
    }
    if distinct_rows(all) {
        assert forall|i: int| 0 <= i < properties.len() implies !((
        #[trigger] properties[i]).value.kind() == ValueKind::String && (properties[i].name
            == "name"@ || properties[i].name == "session"@)) by {
            assert(all[i + 1] == properties[i]);
            assert(!(all[0].value.kind() == all[i + 1].value.kind() && all[0].name == all[i
                + 1].name));
            assert(!(all[i + 1].value.kind() == all[n + 1].value.kind() && all[i + 1].name == all[n
                + 1].name));
        }
    }
}

/// The empty conjunction is satisfied by every event, so a query with it
/// selects exactly the events in its range of dates.
pub proof fn law_empty_and_matches_all(
    query: QueryView,
    store: StoreView,
    event: EventView,
)
    requires
        query.filter == FilterView::And(Seq::empty()),
    ensures
        query.filter.holds(store, event.key),
        compiled(query.filter).holds(store, event.key),
        query.selects(store, event) == query.in_range(event.date),
{
    lemma_compiled_holds(query.filter, store, event.key);
}

/// The empty disjunction is satisfied by no event, so a query with it
/// selects nothing.
pub proof fn law_empty_or_matches_none(query: QueryView, store: StoreView, event: EventView)
    requires
        query.filter == FilterView::Or(Seq::empty()),
    ensures
        !query.filter.holds(store, event.key),
        !compiled(query.filter).holds(store, event.key),
        !query.selects(store, event),
        query.matching(store) == Seq::<EventView>::empty(),
{
    lemma_compiled_holds(query.filter, store, event.key);
    store.events.lemma_all_neg_filter_empty(query.selector(store));
}

/// A test of a name against a value is satisfied by exactly the events
/// for which the table of the value's kind holds the row with that name
/// and value; so is the condition it compiles to, and a query with it
/// selects exactly those of them that lie in its range of dates.
pub proof fn law_test_matches_its_rows(
    query: QueryView,
    store: StoreView,
    event: EventView,
    name: Seq<char>,
    eq: EventValueView,
)
    requires
        query.filter == (FilterView::Value { name, eq }),
    ensures
        query.filter.holds(store, event.key) == store.holds(event.key, name, eq),
        compiled(query.filter).holds(store, event.key) == store.holds(event.key, name, eq),
        query.selects(store, event) == (query.in_range(event.date) && store.holds(
            event.key,
            name,
            eq,
        )),
{
    lemma_lookup_holds(store, event.key, name, eq);
    lemma_compiled_holds(query.filter, store, event.key);
}

/// A disjunction of two filters is satisfied exactly when one of them is.
pub proof fn law_or_of_two(b: FilterView, c: FilterView, store: StoreView, key: Seq<char>)
    ensures
        FilterView::Or(seq![b, c]).holds(store, key) == (b.holds(store, key) || c.holds(store, key)),
{
    let either = FilterView::Or(seq![b, c]);
    let parts = either->Or_0;
    assert(parts.len() == 2 && parts[0] == b && parts[1] == c);
    let joined = exists|i: int| 0 <= i < parts.len() && (#[trigger] parts[i]).holds(store, key);
    assert(either.holds(store, key) == joined);
    if joined {
        let i = choose|i: int| 0 <= i < parts.len() && (#[trigger] parts[i]).holds(store, key);
        assert(i == 0 || i == 1);
        assert(b.holds(store, key) || c.holds(store, key));
    }
    if b.holds(store, key) {
        assert(parts[0].holds(store, key));
        assert(joined);
    }
    if c.holds(store, key) {
        assert(parts[1].holds(store, key));
        assert(joined);
    }
}

/// A conjunction of two filters is satisfied exactly when both are.
pub proof fn law_and_of_two(a: FilterView, b: FilterView, store: StoreView, key: Seq<char>)
    ensures
        FilterView::And(seq![a, b]).holds(store, key) == (a.holds(store, key) && b.holds(store, key)),
{
    let both = FilterView::And(seq![a, b]);
    let parts = both->And_0;
    assert(parts.len() == 2 && parts[0] == a && parts[1] == b);
    let joined = forall|i: int| 0 <= i < parts.len() ==> (#[trigger] parts[i]).holds(store, key);
    assert(both.holds(store, key) == joined);
    if joined {
        assert(parts[0].holds(store, key));
        assert(parts[1].holds(store, key));
    }
    if a.holds(store, key) && b.holds(store, key) {
        assert forall|i: int| 0 <= i < parts.len() implies (#[trigger] parts[i]).holds(store, key) by {
            assert(i == 0 || i == 1);
        }
        assert(joined);
    }
}

/// A conjunction of `a` with a disjunction of `b` and `c` is satisfied by
/// an event exactly when the event satisfies `a` and at least one of `b`
/// and `c`; so is the condition it compiles to.
pub proof fn law_nested_composition(
    a: FilterView,
    b: FilterView,
    c: FilterView,
    store: StoreView,
    key: Seq<char>,
)
    ensures
        FilterView::And(seq![a, FilterView::Or(seq![b, c])]).holds(store, key) == (a.holds(
            store,
            key,
        ) && (b.holds(store, key) || c.holds(store, key))),
        compiled(FilterView::And(seq![a, FilterView::Or(seq![b, c])])).holds(store, key) == (a.holds(
            store,
            key,
        ) && (b.holds(store, key) || c.holds(store, key))),
{
    law_or_of_two(b, c, store, key);
    law_and_of_two(a, FilterView::Or(seq![b, c]), store, key);
    lemma_compiled_holds(FilterView::And(seq![a, FilterView::Or(seq![b, c])]), store, key);
}

/// A conjunction is satisfied exactly when all of its parts are, and a
/// disjunction exactly when one of them is, however deep the parts go;
/// the compiled condition agrees with the filter on every event.
pub proof fn law_compiled_condition_agrees(filter: FilterView, store: StoreView, key: Seq<char>)
    ensures
        compiled(filter).holds(store, key) == filter.holds(store, key),
{
    lemma_compiled_holds(filter, store, key);
}

/// The condition that a query compiles to is true of exactly those events
/// of the store that the query selects: the relational engine, asked with
/// the condition, and the store, asked with the query, give the same
/// events.
pub proof fn law_compiled_query_agrees(query: QueryView, store: StoreView, i: int)
    requires
        store.wf(),
        0 <= i < store.events.len(),
    ensures
        compiled_query(query).holds(store, store.events[i].key) == query.selects(
            store,
            store.events[i],
        ),
{
    lemma_compiled_query_selects(query, store, i);
}

/// Two derivations from the same date, day code, address and user agent
/// give the same session identifier.
pub proof fn law_same_inputs_same_session(
    today: Seq<char>,
    code: Seq<char>,
    ip: Seq<char>,
    user_agent: Seq<char>,
    other_today: Seq<char>,
    other_code: Seq<char>,
    other_ip: Seq<char>,
    other_user_agent: Seq<char>,
)
    requires
        today == other_today,
        code == other_code,
        ip == other_ip,
        user_agent == other_user_agent,
    ensures
        session_id_of(today, code, ip, user_agent) == session_id_of(
            other_today,
            other_code,
            other_ip,
            other_user_agent,
        ),
{
}

/// Once the day code has changed, what is digested for the same client
/// on the same date is another message.
pub proof fn law_new_code_new_message(
    today: Seq<char>,
    code: Seq<char>,
    new_code: Seq<char>,
    ip: Seq<char>,
    user_agent: Seq<char>,
)
    requires
        code != new_code,
    ensures
        session_message(today, code, ip, user_agent) != session_message(
            today,
            new_code,
            ip,
            user_agent,
        ),
{
    let head = encode_utf8("basalytics"@) + encode_utf8(today);
    let tail = encode_utf8(ip) + encode_utf8(user_agent);
    let x = encode_utf8(code);
    let y = encode_utf8(new_code);
    let m = session_message(today, code, ip, user_agent);
    let n = session_message(today, new_code, ip, user_agent);
    assert(m =~= head + x + tail);
    assert(n =~= head + y + tail);
    lemma_encoding_injective(code, new_code);
    if m == n {
        assert(x.len() == y.len()) by {
            assert(m.len() == head.len() + x.len() + tail.len());
            assert(n.len() == head.len() + y.len() + tail.len());
        }
        assert forall|i: int| 0 <= i < x.len() implies x[i] == y[i] by {
            assert(m[head.len() + i] == x[i]);
            assert(n[head.len() + i] == y[i]);
        }
        assert(x =~= y);
    }
}

} // verus!
