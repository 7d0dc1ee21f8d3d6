//! The typed property store: one table per kind of value, each holding
//! name/value pairs keyed by the event that owns them.
//!
//! Within a table an event has at most one value under a name. The tables
//! are independent of each other: an event may have a value under one name
//! in more than one of them, and a filter then finds it by either.

use vstd::prelude::*;
use crate::error::IngestError;
use crate::text::same_text;
use crate::value::{EventValue, EventValueView, Scalar, ValueKind};

verus! {

/// One row of a typed table: a named value attached to an event.
#[derive(Debug)]
pub struct Row<V> {
    pub event_key: String,
    pub name: String,
    pub value: V,
}

/// A row as contracts see it.
pub struct RowView<T> {
    pub event_key: Seq<char>,
    pub name: Seq<char>,
    pub value: T,
}

impl<V: View> View for Row<V> {
    type V = RowView<V::V>;

    open spec fn view(&self) -> RowView<V::V> {
        RowView { event_key: self.event_key@, name: self.name@, value: self.value@ }
    }
}

/// A row of the table of texts.
pub type PropertyString = Row<String>;

/// A row of the table of integers.
pub type PropertyInteger = Row<i32>;

/// A row of the table of booleans.
pub type PropertyBoolean = Row<bool>;

/// Some row gives the event `key` a value under `name`.
pub open spec fn has_name<T>(rows: Seq<RowView<T>>, key: Seq<char>, name: Seq<char>) -> bool {
    exists|i: int| 0 <= i < rows.len() && #[trigger] rows[i].event_key == key && rows[i].name == name
}

/// Some row belongs to the event `key`.
pub open spec fn has_row_of<T>(rows: Seq<RowView<T>>, key: Seq<char>) -> bool {
    exists|i: int| 0 <= i < rows.len() && (#[trigger] rows[i]).event_key == key
}

/// No event has two rows under one name.
pub open spec fn unique_names<T>(rows: Seq<RowView<T>>) -> bool {
    forall|i: int, j: int|
        0 <= i < j < rows.len() ==> !(#[trigger] rows[i].event_key == #[trigger] rows[j].event_key
            && rows[i].name == rows[j].name)
}

/// The keys of the rows that hold `value` under `name`, in storage order.
pub open spec fn matching_keys<T>(rows: Seq<RowView<T>>, name: Seq<char>, value: T) -> Seq<Seq<char>>
    decreases rows.len(),
{
    if rows.len() == 0 {
        Seq::empty()
    } else {
        let rest = matching_keys(rows.drop_last(), name, value);
        if rows.last().name == name && rows.last().value == value {
            rest.push(rows.last().event_key)
        } else {
            rest
        }
    }
}

/// A key is among the matching keys exactly when the table holds the row.
pub proof fn lemma_matching_keys<T>(rows: Seq<RowView<T>>, name: Seq<char>, value: T, key: Seq<char>)
    ensures
        matching_keys(rows, name, value).contains(key) <==> rows.contains(
            RowView { event_key: key, name, value },
        ),
    decreases rows.len(),
{
    let row = RowView { event_key: key, name, value };
    if rows.len() > 0 {
        let front = rows.drop_last();
        lemma_matching_keys(front, name, value, key);
        let rest = matching_keys(front, name, value);
        if rows.contains(row) {
            let i = choose|i: int| 0 <= i < rows.len() && rows[i] == row;
            if i < rows.len() - 1 {
                assert(front[i] == row);
                assert(rest.contains(key));
                let k = choose|k: int| 0 <= k < rest.len() && rest[k] == key;
                assert(matching_keys(rows, name, value)[k] == key);
            } else {
                assert(rest.push(key)[rest.len() as int] == key);
            }
        }
        if matching_keys(rows, name, value).contains(key) {
            let m = matching_keys(rows, name, value);
            let k = choose|k: int| 0 <= k < m.len() && m[k] == key;
            if k < rest.len() {
                assert(rest[k] == key);
                assert(rest.contains(key));
                let i = choose|i: int| 0 <= i < front.len() && front[i] == row;
                assert(rows[i] == row);
            } else {
                assert(rows[rows.len() - 1] == row);
            }
        }
    }
}

/// A typed table: the rows of one kind of value, in the order they were written.
pub struct Table<V> {
    rows: Vec<Row<V>>,
}

impl<V: View> View for Table<V> {
    type V = Seq<RowView<V::V>>;

    closed spec fn view(&self) -> Seq<RowView<V::V>> {
        self.rows@.map_values(|r: Row<V>| r@)
    }
}

impl<V: Scalar> Table<V> {
    /// The table keeps its uniqueness constraint.
    pub open spec fn wf(&self) -> bool {
        unique_names(self@)
    }

    /// An empty table.
    pub fn new() -> (t: Self)
        ensures
            t@ == Seq::<RowView<V::V>>::empty(),
            t.wf(),
    {
        let t = Table { rows: Vec::new() };
        assert(t@ =~= Seq::<RowView<V::V>>::empty());
        t
    }

    /// The number of rows.
    pub fn len(&self) -> (n: usize)
        ensures
            n == self@.len(),
    {
        self.rows.len()
    }

    /// Whether the event `key` already has a value under `name`.
    pub fn contains_name(&self, key: &str, name: &str) -> (r: bool)
        ensures
            r == has_name(self@, key@, name@),
    {
        let mut i: usize = 0;
        while i < self.rows.len()
            invariant
                i <= self.rows.len(),
                forall|j: int| 0 <= j < i ==> !(#[trigger] self@[j].event_key == key@ && self@[j].name == name@),
            decreases self.rows.len() - i,
        {
            let row = &self.rows[i];
            assert(self@[i as int] == row@);
            if same_text(row.event_key.as_str(), key) && same_text(row.name.as_str(), name) {
                assert(self@[i as int].event_key == key@ && self@[i as int].name == name@);
                return true;
            }
            i = i + 1;
        }
        false
    }

    /// Writes one row. Fails, and leaves the table as it was, when the event
    /// already has a value under that name.
    pub fn write(&mut self, key: &str, name: &str, value: V) -> (r: Result<(), IngestError>)
        requires
            old(self).wf(),
        ensures
            final(self).wf(),
            r is Ok <==> !has_name(old(self)@, key@, name@),
            r is Ok ==> final(self)@ == old(self)@.push(
                RowView { event_key: key@, name: name@, value: value@ },
            ),
            r is Err ==> r == Err::<(), IngestError>(IngestError::UniqueConstraintViolation)
                && final(self)@ == old(self)@,
    {
        if self.contains_name(key, name) {
            return Err(IngestError::UniqueConstraintViolation);
        }
        let row = Row { event_key: key.to_owned(), name: name.to_owned(), value };
        self.rows.push(row);
        assert(self@ =~= old(self)@.push(row@));
        Ok(())
    }

    /// Whether the table holds exactly this row.
    pub fn holds(&self, key: &str, name: &str, value: &V) -> (r: bool)
        ensures
            r == self@.contains(RowView { event_key: key@, name: name@, value: value@ }),
    {
        let ghost wanted = RowView { event_key: key@, name: name@, value: value@ };
        let mut i: usize = 0;
        while i < self.rows.len()
            invariant
                i <= self.rows.len(),
                wanted == (RowView { event_key: key@, name: name@, value: value@ }),
                forall|j: int| 0 <= j < i ==> self@[j] != wanted,
            decreases self.rows.len() - i,
        {
            let row = &self.rows[i];
            assert(self@[i as int] == row@);
            if same_text(row.event_key.as_str(), key) && same_text(row.name.as_str(), name)
                && row.value.same(value) {
                return true;
            }
            i = i + 1;
        }
        false
    }

    /// Drops every row after the first `len`, which undoes the writes made
    /// since the table had that many rows.
    pub fn truncate(&mut self, len: usize)
        requires
            old(self).wf(),
            len <= old(self)@.len(),
        ensures
            final(self).wf(),
            final(self)@ == old(self)@.take(len as int),
    {
        self.rows.truncate(len);
        assert(self@ =~= old(self)@.take(len as int));
    }

    /// The keys of the events that hold `value` under `name`.
    pub fn lookup_event_keys(&self, name: &str, value: &V) -> (keys: Vec<String>)
        ensures
            keys@.map_values(|k: String| k@) == matching_keys(self@, name@, value@),
    {
        let mut keys: Vec<String> = Vec::new();
        let mut i: usize = 0;
        assert(self@.take(0) =~= Seq::empty());
        while i < self.rows.len()
            invariant
                i <= self.rows.len(),
                keys@.map_values(|k: String| k@) == matching_keys(self@.take(i as int), name@, value@),
            decreases self.rows.len() - i,
        {
            let row = &self.rows[i];
            assert(self@[i as int] == row@);
            assert(self@.take(i + 1).drop_last() =~= self@.take(i as int));
            if same_text(row.name.as_str(), name) && row.value.same(value) {
                let ghost before = keys@.map_values(|k: String| k@);
                keys.push(row.event_key.clone());
                assert(keys@.map_values(|k: String| k@) =~= before.push(row.event_key@));
            }
            i = i + 1;
        }
        assert(self@.take(i as int) =~= self@);
        keys
    }
}

/// An ingested event: its unique, time-ordered key and the time it was recorded.
#[derive(Debug)]
pub struct Event {
    pub key: String,
    pub date: String,
}

/// An event as contracts see it.
pub struct EventView {
    pub key: Seq<char>,
    pub date: Seq<char>,
}

impl View for Event {
    type V = EventView;

    open spec fn view(&self) -> EventView {
        EventView { key: self.key@, date: self.date@ }
    }
}

impl Clone for Event {
    fn clone(&self) -> (r: Self)
        ensures
            r@ == self@,
    {
        Event { key: self.key.clone(), date: self.date.clone() }
    }
}

/// Some event has the key.
pub open spec fn has_key(events: Seq<EventView>, key: Seq<char>) -> bool {
    exists|i: int| 0 <= i < events.len() && #[trigger] events[i].key == key
}

/// No two events share a key.
pub open spec fn unique_keys(events: Seq<EventView>) -> bool {
    forall|i: int, j: int|
        0 <= i < j < events.len() ==> #[trigger] events[i].key != #[trigger] events[j].key
}

/// The store as contracts see it: the events and the three typed tables,
/// each in storage order.
pub struct StoreView {
    pub events: Seq<EventView>,
    pub strings: Seq<RowView<Seq<char>>>,
    pub integers: Seq<RowView<i32>>,
    pub booleans: Seq<RowView<bool>>,
}

impl StoreView {
    /// The store without events or rows.
    pub open spec fn empty() -> StoreView {
        StoreView {
            events: Seq::empty(),
            strings: Seq::empty(),
            integers: Seq::empty(),
            booleans: Seq::empty(),
        }
    }

    /// Event keys are unique, and so is (event key, name) within each table.
    pub open spec fn wf(self) -> bool {
        &&& unique_keys(self.events)
        &&& unique_names(self.strings)
        &&& unique_names(self.integers)
        &&& unique_names(self.booleans)
    }

    /// The store has an event or a row with the key.
    pub open spec fn mentions(self, key: Seq<char>) -> bool {
        ||| has_key(self.events, key)
        ||| has_row_of(self.strings, key)
        ||| has_row_of(self.integers, key)
        ||| has_row_of(self.booleans, key)
    }

    /// The event `key` has a value under `name` in the table of `kind`.
    pub open spec fn has_name(self, kind: ValueKind, key: Seq<char>, name: Seq<char>) -> bool {
        match kind {
            ValueKind::Boolean => has_name(self.booleans, key, name),
            ValueKind::Integer => has_name(self.integers, key, name),
            ValueKind::String => has_name(self.strings, key, name),
        }
    }

    /// The table of the value's kind holds the row (`key`, `name`, `value`).
    pub open spec fn holds(self, key: Seq<char>, name: Seq<char>, value: EventValueView) -> bool {
        match value {
            EventValueView::Boolean(b) => self.booleans.contains(
                RowView { event_key: key, name, value: b },
            ),
            EventValueView::Integer(i) => self.integers.contains(
                RowView { event_key: key, name, value: i },
            ),
            EventValueView::String(s) => self.strings.contains(
                RowView { event_key: key, name, value: s },
            ),
        }
    }

    /// The keys of the events that hold `value` under `name`, in the order
    /// of the table of the value's kind.
    pub open spec fn lookup_event_keys(self, name: Seq<char>, value: EventValueView) -> Seq<
        Seq<char>,
    > {
        match value {
            EventValueView::Boolean(b) => matching_keys(self.booleans, name, b),
            EventValueView::Integer(i) => matching_keys(self.integers, name, i),
            EventValueView::String(s) => matching_keys(self.strings, name, s),
        }
    }

    /// The store with one more row, in the table of the value's kind.
    pub open spec fn with_row(self, key: Seq<char>, name: Seq<char>, value: EventValueView) -> StoreView {
        match value {
            EventValueView::Boolean(b) => StoreView {
                booleans: self.booleans.push(RowView { event_key: key, name, value: b }),
                ..self
            },
            EventValueView::Integer(i) => StoreView {
                integers: self.integers.push(RowView { event_key: key, name, value: i }),
                ..self
            },
            EventValueView::String(s) => StoreView {
                strings: self.strings.push(RowView { event_key: key, name, value: s }),
                ..self
            },
        }
    }

    /// The store with one more event.
    pub open spec fn with_event(self, key: Seq<char>, date: Seq<char>) -> StoreView {
        StoreView { events: self.events.push(EventView { key, date }), ..self }
    }

    /// Every sequence of `self` is the start of the one in `later`: `later`
    /// came from `self` by insertions alone.
    pub open spec fn is_prefix_of(self, later: StoreView) -> bool {
        &&& self.events.is_prefix_of(later.events)
        &&& self.strings.is_prefix_of(later.strings)
        &&& self.integers.is_prefix_of(later.integers)
        &&& self.booleans.is_prefix_of(later.booleans)
    }
}

/// The store looks a key up for a name and value exactly when it holds
/// that row for the key.
pub proof fn lemma_lookup_holds(
    store: StoreView,
    key: Seq<char>,
    name: Seq<char>,
    value: EventValueView,
)
    ensures
        store.lookup_event_keys(name, value).contains(key) <==> store.holds(key, name, value),
{
    match value {
        EventValueView::Boolean(b) => lemma_matching_keys(store.booleans, name, b, key),
        EventValueView::Integer(i) => lemma_matching_keys(store.integers, name, i, key),
        EventValueView::String(s) => lemma_matching_keys(store.strings, name, s, key),
    }
}

/// The sizes of the store at one moment, to which a failed batch of writes
/// is rolled back.
pub struct Savepoint {
    events: usize,
    strings: usize,
    integers: usize,
    booleans: usize,
}

impl Savepoint {
    /// The savepoint records the sizes of `store`.
    pub closed spec fn marks(&self, store: StoreView) -> bool {
        &&& self.events == store.events.len()
        &&& self.strings == store.strings.len()
        &&& self.integers == store.integers.len()
        &&& self.booleans == store.booleans.len()
    }
}

/// The event store: the events and their typed properties.
pub struct Store {
    events: Vec<Event>,
    strings: Table<String>,
    integers: Table<i32>,
    booleans: Table<bool>,
}

impl View for Store {
    type V = StoreView;

    closed spec fn view(&self) -> StoreView {
        StoreView {
            events: self.events@.map_values(|e: Event| e@),
            strings: self.strings@,
            integers: self.integers@,
            booleans: self.booleans@,
        }
    }
}

impl Store {
    /// The store keeps its uniqueness constraints.
    pub open spec fn wf(&self) -> bool {
        self@.wf()
    }

    /// An empty store.
    pub fn new() -> (s: Self)
        ensures
            s@ == StoreView::empty(),
            s.wf(),
    {
        let s = Store {
            events: Vec::new(),
            strings: Table::new(),
            integers: Table::new(),
            booleans: Table::new(),
        };
        assert(s@.events =~= Seq::empty());
        s
    }

    /// The events, in storage order.
    pub fn events(&self) -> (events: &Vec<Event>)
        ensures
            events@.map_values(|e: Event| e@) == self@.events,
    {
        &self.events
    }

    /// Whether an event has the key.
    pub fn has_event(&self, key: &str) -> (r: bool)
        ensures
            r == has_key(self@.events, key@),
    {
        let mut i: usize = 0;
        while i < self.events.len()
            invariant
                i <= self.events.len(),
                self@.events.len() == self.events.len(),
                forall|j: int| 0 <= j < i ==> #[trigger] self@.events[j].key != key@,
            decreases self.events.len() - i,
        {
            assert(self@.events[i as int] == self.events[i as int]@);
            if same_text(self.events[i].key.as_str(), key) {
                assert(self@.events[i as int].key == key@);
                return true;
            }
            i = i + 1;
        }
        false
    }

    /// Records an event. Fails, and leaves the store as it was, when an
    /// event already has the key.
    pub fn insert_event(&mut self, key: &str, date: &str) -> (r: Result<(), IngestError>)
        requires
            old(self).wf(),
        ensures
            final(self).wf(),
            r is Ok <==> !has_key(old(self)@.events, key@),
            r is Ok ==> final(self)@ == old(self)@.with_event(key@, date@),
            r is Err ==> r == Err::<(), IngestError>(IngestError::UniqueConstraintViolation)
                && final(self)@ == old(self)@,
    {
        if self.has_event(key) {
            return Err(IngestError::UniqueConstraintViolation);
        }
        let event = Event { key: key.to_owned(), date: date.to_owned() };
        self.events.push(event);
        assert(self@.events =~= old(self)@.events.push(event@));
        Ok(())
    }

    /// Writes one property row into the table of the value's kind. Fails
    /// with `UniqueConstraintViolation`, and leaves the store as it was,
    /// when the event already has a value under that name in that table.
    pub fn write(&mut self, event_key: &str, name: &str, value: EventValue) -> (r: Result<
        (),
        IngestError,
    >)
        requires
            old(self).wf(),
        ensures
            final(self).wf(),
            r is Ok <==> !old(self)@.has_name(value@.kind(), event_key@, name@),
            r is Ok ==> final(self)@ == old(self)@.with_row(event_key@, name@, value@),
            r is Err ==> r == Err::<(), IngestError>(IngestError::UniqueConstraintViolation)
                && final(self)@ == old(self)@,
    {
        match value {
            EventValue::Boolean(b) => self.booleans.write(event_key, name, b),
            EventValue::Integer(i) => self.integers.write(event_key, name, i),
            EventValue::String(s) => self.strings.write(event_key, name, s),
        }
    }

    /// Whether the event `event_key` holds `value` under `name`.
    pub fn holds(&self, event_key: &str, name: &str, value: &EventValue) -> (r: bool)
        ensures
            r == self@.holds(event_key@, name@, value@),
    {
        match value {
            EventValue::Boolean(b) => self.booleans.holds(event_key, name, b),
            EventValue::Integer(i) => self.integers.holds(event_key, name, i),
            EventValue::String(s) => self.strings.holds(event_key, name, s),
        }
    }

    /// The keys of the events that hold `value` under `name`: a lookup in
    /// the one table of the value's kind.
    pub fn lookup_event_keys(&self, name: &str, value: &EventValue) -> (keys: Vec<String>)
        ensures
            keys@.map_values(|k: String| k@) == self@.lookup_event_keys(name@, value@),
    {
        match value {
            EventValue::Boolean(b) => self.booleans.lookup_event_keys(name, b),
            EventValue::Integer(i) => self.integers.lookup_event_keys(name, i),
            EventValue::String(s) => self.strings.lookup_event_keys(name, s),
        }
    }

    /// The sizes of the store now.
    pub(crate) fn savepoint(&self) -> (sp: Savepoint)
        ensures
            sp.marks(self@),
    {
        Savepoint {
            events: self.events.len(),
            strings: self.strings.len(),
            integers: self.integers.len(),
            booleans: self.booleans.len(),
        }
    }

    /// Undoes every insertion made since the savepoint was taken.
    pub(crate) fn roll_back(&mut self, sp: &Savepoint, Ghost(before): Ghost<StoreView>)
        requires
            old(self).wf(),
            sp.marks(before),
            before.is_prefix_of(old(self)@),
        ensures
            final(self).wf(),
            final(self)@ == before,
    {
        self.events.truncate(sp.events);
        self.strings.truncate(sp.strings);
        self.integers.truncate(sp.integers);
        self.booleans.truncate(sp.booleans);
        assert(self@.events =~= before.events);
        assert(self@.strings =~= before.strings);
        assert(self@.integers =~= before.integers);
        assert(self@.booleans =~= before.booleans);
    }
}

} // verus!
