//! Ingestion: an event and all of its property rows are stored together,
//! or nothing is.

use ulid::Ulid;
use vstd::prelude::*;
use crate::clock::now_rfc3339;
use crate::error::IngestError;
use crate::store::{has_key, Event, EventView, RowView, Store, StoreView};
use crate::value::ValueKind;
use crate::text::same_text;
use crate::value::{EventValue, EventValueView};

verus! {

/// A named property of an event that is to be ingested.
#[derive(Debug)]
pub struct Property {
    pub name: String,
    pub value: EventValue,
}

/// A property as contracts see it.
pub struct PropertyView {
    pub name: Seq<char>,
    pub value: EventValueView,
}

impl View for Property {
    type V = PropertyView;

    open spec fn view(&self) -> PropertyView {
        PropertyView { name: self.name@, value: self.value@ }
    }
}

impl Clone for Property {
    fn clone(&self) -> (r: Self)
        ensures
            r@ == self@,
    {
        Property { name: self.name.clone(), value: self.value.clone() }
    }
}

/// An event as a client sends it: a name and a bag of properties.
#[derive(Debug)]
pub struct EventPayload {
    pub name: String,
    pub properties: Properties,
}

/// An event payload as contracts see it.
pub struct EventPayloadView {
    pub name: Seq<char>,
    pub properties: Seq<PropertyView>,
}

impl View for EventPayload {
    type V = EventPayloadView;

    open spec fn view(&self) -> EventPayloadView {
        EventPayloadView { name: self.name@, properties: self.properties@ }
    }
}

/// The views of a list of properties.
pub open spec fn property_views(properties: Seq<Property>) -> Seq<PropertyView> {
    properties.map_values(|p: Property| p@)
}

/// The index of the first property with the name.
pub open spec fn name_index(properties: Seq<PropertyView>, name: Seq<char>) -> Option<int> {
    if exists|i: int| 0 <= i < properties.len() && (#[trigger] properties[i]).name == name {
        Some(
            choose|i: int|
                0 <= i < properties.len() && (#[trigger] properties[i]).name == name && forall|
                    j: int,
                | 0 <= j < i ==> (#[trigger] properties[j]).name != name,
        )
    } else {
        None
    }
}

/// The properties once one more was set: it takes the place of the one
/// with its name, and comes last where there is none.
pub open spec fn with_property(properties: Seq<PropertyView>, property: PropertyView) -> Seq<
    PropertyView,
> {
    match name_index(properties, property.name) {
        Some(i) => properties.update(i, property),
        None => properties.push(property),
    }
}

/// No two properties have one name.
pub open spec fn distinct_names(properties: Seq<PropertyView>) -> bool {
    forall|i: int, j: int|
        0 <= i < j < properties.len() ==> (#[trigger] properties[i]).name != (
        #[trigger] properties[j]).name
}

/// The properties of an event: a bag of values, each under a name of its
/// own, in the order in which the names were first set.
#[derive(Debug)]
pub struct Properties {
    items: Vec<Property>,
}

impl View for Properties {
    type V = Seq<PropertyView>;

    closed spec fn view(&self) -> Seq<PropertyView> {
        property_views(self.items@)
    }
}

impl Properties {
    /// Every name occurs once.
    pub open spec fn wf(&self) -> bool {
        distinct_names(self@)
    }

    /// No properties.
    pub fn new() -> (r: Self)
        ensures
            r@ == Seq::<PropertyView>::empty(),
            r.wf(),
    {
        let r = Properties { items: Vec::new() };
        assert(r@ =~= Seq::<PropertyView>::empty());
        r
    }

    /// The number of properties.
    pub fn len(&self) -> (n: usize)
        ensures
            n == self@.len(),
    {
        self.items.len()
    }

    /// The properties, in order.
    pub fn items(&self) -> (items: &Vec<Property>)
        ensures
            property_views(items@) == self@,
    {
        &self.items
    }

    /// The position of the property with the name.
    pub fn position(&self, name: &str) -> (r: Option<usize>)
        ensures
            r is Some <==> name_index(self@, name@) is Some,
            r matches Some(i) ==> name_index(self@, name@) == Some(i as int) && i < self@.len(),
    {
        let mut i: usize = 0;
        while i < self.items.len()
            invariant
                i <= self.items.len(),
                forall|j: int| 0 <= j < i ==> (#[trigger] self@[j]).name != name@,
            decreases self.items.len() - i,
        {
            assert(self@[i as int] == self.items@[i as int]@);
            if same_text(self.items[i].name.as_str(), name) {
                assert(self@[i as int].name == name@);
                let ghost found = name_index(self@, name@)->0;
                assert(found == i) by {
                    if found < i {
                        assert(self@[found].name != name@);
                    } else if i < found {
                        assert(self@[i as int].name == name@);
                    }
                }
                return Some(i);
            }
            i = i + 1;
        }
        None
    }

    /// The value under the name.
    pub fn get(&self, name: &str) -> (r: Option<&EventValue>)
        ensures
            match name_index(self@, name@) {
                Some(i) => r is Some && r->0@ == self@[i].value,
                None => r is None,
            },
    {
        match self.position(name) {
            Some(i) => {
                assert(self@.len() == self.items@.len());
                assert(name_index(self@, name@)->0 == i as int);
                assert(self@[i as int] == self.items@[i as int]@);
                Some(&self.items[i].value)
            },
            None => None,
        }
    }

    /// Sets the value under a name. Where the name had a value, the new
    /// one takes its place and the old one is handed back; else the
    /// property comes last.
    pub fn insert(&mut self, name: String, value: EventValue) -> (r: Option<EventValue>)
        requires
            old(self).wf(),
        ensures
            final(self).wf(),
            final(self)@ == with_property(old(self)@, PropertyView { name: name@, value: value@ }),
            match name_index(old(self)@, name@) {
                Some(i) => r is Some && r->0@ == old(self)@[i].value,
                None => r is None,
            },
    {
        let ghost before = self@;
        let ghost property = PropertyView { name: name@, value: value@ };
        match self.position(name.as_str()) {
            Some(i) => {
                assert(before[i as int] == self.items@[i as int]@);
                let replaced = self.items[i].value.clone();
                self.items.set(i, Property { name, value });
                assert(self@ =~= before.update(i as int, property));
                assert forall|a: int, b: int| 0 <= a < b < self@.len() implies (#[trigger] self@[a]).name
                    != (#[trigger] self@[b]).name by {
                    assert(self@[a].name == before[a].name);
                    assert(self@[b].name == before[b].name);
                }
                Some(replaced)
            },
            None => {
                self.items.push(Property { name, value });
                assert(self@ =~= before.push(property));
                assert forall|a: int, b: int| 0 <= a < b < self@.len() implies (#[trigger] self@[a]).name
                    != (#[trigger] self@[b]).name by {
                    if b < before.len() {
                        assert(self@[a].name == before[a].name);
                        assert(self@[b].name == before[b].name);
                    } else {
                        assert(before[a].name != name@);
                    }
                }
                None
            },
        }
    }
}

/// The row that records an event's name, under the reserved name `name`.
pub open spec fn name_row(name: Seq<char>) -> PropertyView {
    PropertyView { name: "name"@, value: EventValueView::String(name) }
}

/// The row that records the session of an event, under the reserved name
/// `session`.
pub open spec fn session_row(session_id: Seq<char>) -> PropertyView {
    PropertyView { name: "session"@, value: EventValueView::String(session_id) }
}

/// The rows of an event without a session: its name, then its properties.
pub open spec fn event_rows(name: Seq<char>, properties: Seq<PropertyView>) -> Seq<PropertyView> {
    seq![name_row(name)] + properties
}

/// The rows of an event: its name, then its properties, then its session.
pub open spec fn session_rows(
    name: Seq<char>,
    properties: Seq<PropertyView>,
    session_id: Seq<char>,
) -> Seq<PropertyView> {
    event_rows(name, properties).push(session_row(session_id))
}

impl StoreView {
    /// The store after `rows` were written for the event `key`, one after
    /// the other; `None` when one of the writes meets a row of its table
    /// that gives the event a value under the same name.
    pub open spec fn with_rows(self, key: Seq<char>, rows: Seq<PropertyView>) -> Option<StoreView>
        decreases rows.len(),
    {
        if rows.len() == 0 {
            Some(self)
        } else if self.has_name(rows[0].value.kind(), key, rows[0].name) {
            None
        } else {
            self.with_row(key, rows[0].name, rows[0].value).with_rows(key, rows.drop_first())
        }
    }

    /// The store after the event and then its rows were written; `None`
    /// when the key is taken or a row cannot be written.
    pub open spec fn with_batch(
        self,
        key: Seq<char>,
        date: Seq<char>,
        rows: Seq<PropertyView>,
    ) -> Option<StoreView> {
        if has_key(self.events, key) {
            None
        } else {
            self.with_event(key, date).with_rows(key, rows)
        }
    }
}

/// The rows of an event without a session.
pub fn rows_for_event(name: &str, properties: &Properties) -> (rows: Vec<Property>)
    ensures
        property_views(rows@) == event_rows(name@, properties@),
{
    let items = properties.items();
    let mut rows: Vec<Property> = Vec::new();
    rows.push(Property { name: "name".to_owned(), value: EventValue::String(name.to_owned()) });
    assert(property_views(rows@) =~= seq![name_row(name@)]);
    let mut i: usize = 0;
    while i < items.len()
        invariant
            i <= items.len(),
            property_views(items@) == properties@,
            property_views(rows@) == seq![name_row(name@)] + properties@.take(i as int),
        decreases items.len() - i,
    {
        let ghost before = property_views(rows@);
        rows.push(items[i].clone());
        assert(property_views(rows@) =~= before.push(items@[i as int]@));
        assert(properties@.take(i + 1) =~= properties@.take(i as int).push(items@[i as int]@));
        i = i + 1;
    }
    assert(properties@.take(i as int) =~= properties@);
    rows
}

/// The rows of an event that belongs to a session.
pub fn rows_for_session(name: &str, properties: &Properties, session_id: &str) -> (rows: Vec<
    Property,
>)
    ensures
        property_views(rows@) == session_rows(name@, properties@, session_id@),
{
    let mut rows = rows_for_event(name, properties);
    let ghost before = property_views(rows@);
    rows.push(
        Property { name: "session".to_owned(), value: EventValue::String(session_id.to_owned()) },
    );
    assert(property_views(rows@) =~= before.push(session_row(session_id@)));
    rows
}

/// No two rows go into one table under one name.
pub open spec fn distinct_rows(rows: Seq<PropertyView>) -> bool {
    forall|i: int, j: int|
        0 <= i < j < rows.len() ==> !((#[trigger] rows[i]).value.kind() == (
        #[trigger] rows[j]).value.kind() && rows[i].name == rows[j].name)
}

/// Whether no two of the rows go into one table under one name.
pub fn rows_are_distinct(rows: &Vec<Property>) -> (r: bool)
    ensures
        r == distinct_rows(property_views(rows@)),
{
    let ghost all = property_views(rows@);
    let mut j: usize = 0;
    while j < rows.len()
        invariant
            j <= rows.len(),
            all == property_views(rows@),
            forall|a: int, b: int|
                0 <= a < b < j ==> !((#[trigger] all[a]).value.kind() == (
                #[trigger] all[b]).value.kind() && all[a].name == all[b].name),
        decreases rows.len() - j,
    {
        let mut i: usize = 0;
        while i < j
            invariant
                i <= j < rows.len(),
                all == property_views(rows@),
                forall|a: int|
                    0 <= a < i ==> !((#[trigger] all[a]).value.kind() == all[j as int].value.kind()
                        && all[a].name == all[j as int].name),
            decreases j - i,
        {
            assert(all[i as int] == rows@[i as int]@ && all[j as int] == rows@[j as int]@);
            if rows[i].value.kind() == rows[j].value.kind() && same_text(
                rows[i].name.as_str(),
                rows[j].name.as_str(),
            ) {
                assert(all[i as int].value.kind() == all[j as int].value.kind() && all[i as int].name
                    == all[j as int].name);
                return false;
            }
            i = i + 1;
        }
        j = j + 1;
    }
    true
}

/// A row that the store has keeps the name taken when another is written.
pub proof fn lemma_row_keeps_names(
    store: StoreView,
    key: Seq<char>,
    name: Seq<char>,
    value: EventValueView,
    kind: ValueKind,
    k: Seq<char>,
    n: Seq<char>,
)
    ensures
        store.has_name(kind, k, n) ==> store.with_row(key, name, value).has_name(kind, k, n),
        store.with_row(key, name, value).has_name(value.kind(), key, name),
        store.with_row(key, name, value).has_name(kind, k, n) ==> store.has_name(kind, k, n) || (
        kind == value.kind() && k == key && n == name),
{
    let after = store.with_row(key, name, value);
    match value {
        EventValueView::Boolean(b) => lemma_push_names(
            store.booleans,
            RowView { event_key: key, name, value: b },
            k,
            n,
        ),
        EventValueView::Integer(i) => lemma_push_names(
            store.integers,
            RowView { event_key: key, name, value: i },
            k,
            n,
        ),
        EventValueView::String(s) => lemma_push_names(
            store.strings,
            RowView { event_key: key, name, value: s },
            k,
            n,
        ),
    }
}

/// The names that are taken in a table once a row was added to it: those
/// that were, and that of the row.
proof fn lemma_push_names<T>(rows: Seq<RowView<T>>, row: RowView<T>, k: Seq<char>, n: Seq<char>)
    ensures
        crate::store::has_name(rows, k, n) ==> crate::store::has_name(rows.push(row), k, n),
        crate::store::has_name(rows.push(row), row.event_key, row.name),
        crate::store::has_name(rows.push(row), k, n) ==> crate::store::has_name(rows, k, n) || (k
            == row.event_key && n == row.name),
{
    let after = rows.push(row);
    if crate::store::has_name(rows, k, n) {
        let i = choose|i: int|
            0 <= i < rows.len() && #[trigger] rows[i].event_key == k && rows[i].name == n;
        assert(after[i].event_key == k && after[i].name == n);
    }
    assert(after[rows.len() as int].event_key == row.event_key && after[rows.len() as int].name
        == row.name);
    if crate::store::has_name(after, k, n) {
        let i = choose|i: int|
            0 <= i < after.len() && #[trigger] after[i].event_key == k && after[i].name == n;
        if i < rows.len() {
            assert(rows[i].event_key == k && rows[i].name == n);
        }
    }
}

/// A row whose name is taken stops the writing of the rows.
pub proof fn lemma_taken_name_stops(store: StoreView, key: Seq<char>, rows: Seq<PropertyView>, j: int)
    requires
        0 <= j < rows.len(),
        store.has_name(rows[j].value.kind(), key, rows[j].name),
    ensures
        store.with_rows(key, rows) is None,
    decreases rows.len(),
{
    if j > 0 && !store.has_name(rows[0].value.kind(), key, rows[0].name) {
        let next = store.with_row(key, rows[0].name, rows[0].value);
        lemma_row_keeps_names(
            store,
            key,
            rows[0].name,
            rows[0].value,
            rows[j].value.kind(),
            key,
            rows[j].name,
        );
        assert(rows.drop_first()[j - 1] == rows[j]);
        lemma_taken_name_stops(next, key, rows.drop_first(), j - 1);
    }
}

/// Where the store has none of the names of the rows taken for the key,
/// the rows are written exactly when no two of them go into one table
/// under one name.
pub proof fn lemma_rows_are_written(store: StoreView, key: Seq<char>, rows: Seq<PropertyView>)
    requires
        forall|i: int|
            0 <= i < rows.len() ==> !store.has_name(
                (#[trigger] rows[i]).value.kind(),
                key,
                rows[i].name,
            ),
    ensures
        store.with_rows(key, rows) is Some <==> distinct_rows(rows),
    decreases rows.len(),
{
    if rows.len() > 0 {
        let first = rows[0];
        let rest = rows.drop_first();
        let next = store.with_row(key, first.name, first.value);
        assert(!store.has_name(first.value.kind(), key, first.name));
        assert(store.with_rows(key, rows) == next.with_rows(key, rest));
        assert forall|j: int| 0 <= j < rest.len() implies #[trigger] rest[j] == rows[j + 1] by {}
        if exists|j: int|
            0 < j < rows.len() && (#[trigger] rows[j]).value.kind() == first.value.kind()
                && rows[j].name == first.name {
            let j = choose|j: int|
                0 < j < rows.len() && (#[trigger] rows[j]).value.kind() == first.value.kind()
                    && rows[j].name == first.name;
            lemma_row_keeps_names(
                store,
                key,
                first.name,
                first.value,
                rows[j].value.kind(),
                key,
                rows[j].name,
            );
            assert(rest[j - 1] == rows[j]);
            lemma_taken_name_stops(next, key, rest, j - 1);
            assert(!distinct_rows(rows)) by {
                assert(rows[0].value.kind() == rows[j].value.kind() && rows[0].name == rows[j].name);
            }
        } else {
            assert forall|i: int| 0 <= i < rest.len() implies !next.has_name(
                (#[trigger] rest[i]).value.kind(),
                key,
                rest[i].name,
            ) by {
                assert(rest[i] == rows[i + 1]);
                lemma_row_keeps_names(
                    store,
                    key,
                    first.name,
                    first.value,
                    rest[i].value.kind(),
                    key,
                    rest[i].name,
                );
            }
            lemma_rows_are_written(next, key, rest);
            if distinct_rows(rest) {
                assert forall|i: int, j: int| 0 <= i < j < rows.len() implies !((
                #[trigger] rows[i]).value.kind() == (#[trigger] rows[j]).value.kind()
                    && rows[i].name == rows[j].name) by {
                    if i > 0 {
                        assert(rest[i - 1] == rows[i] && rest[j - 1] == rows[j]);
                    }
                }
            }
            if distinct_rows(rows) {
                assert forall|i: int, j: int| 0 <= i < j < rest.len() implies !((
                #[trigger] rest[i]).value.kind() == (#[trigger] rest[j]).value.kind()
                    && rest[i].name == rest[j].name) by {
                    assert(rest[i] == rows[i + 1] && rest[j] == rows[j + 1]);
                }
            }
        }
    }
}

/// A store that has neither an event nor a row with the key takes the
/// event and its rows exactly when no two of the rows go into one table
/// under one name.
pub proof fn lemma_unmentioned_key_is_taken(
    store: StoreView,
    key: Seq<char>,
    date: Seq<char>,
    rows: Seq<PropertyView>,
)
    requires
        !store.mentions(key),
    ensures
        store.with_batch(key, date, rows) is Some <==> distinct_rows(rows),
{
    let started = store.with_event(key, date);
    assert forall|i: int| 0 <= i < rows.len() implies !started.has_name(
        (#[trigger] rows[i]).value.kind(),
        key,
        rows[i].name,
    ) by {
        lemma_no_row_no_name(started.strings, key, rows[i].name);
        lemma_no_row_no_name(started.integers, key, rows[i].name);
        lemma_no_row_no_name(started.booleans, key, rows[i].name);
    }
    lemma_rows_are_written(started, key, rows);
}

/// An event without rows in a table has no name taken in it.
proof fn lemma_no_row_no_name<T>(rows: Seq<RowView<T>>, key: Seq<char>, name: Seq<char>)
    requires
        !crate::store::has_row_of(rows, key),
    ensures
        !crate::store::has_name(rows, key, name),
{
    if crate::store::has_name(rows, key, name) {
        let i = choose|i: int|
            0 <= i < rows.len() && #[trigger] rows[i].event_key == key && rows[i].name == name;
        assert(rows[i].event_key == key);
    }
}

impl StoreView {
    /// The event at a place in the store has a made key, and the store
    /// holds every one of the rows under that key.
    pub open spec fn stored_with_rows(self, at: int, rows: Seq<PropertyView>) -> bool {
        &&& 0 <= at < self.events.len()
        &&& is_made_key(self.events[at].key)
        &&& forall|j: int|
            0 <= j < rows.len() ==> self.holds(
                self.events[at].key,
                (#[trigger] rows[j]).name,
                rows[j].value,
            )
    }

    /// No key that could be made for an event is known to the store.
    pub open spec fn mentions_no_made_key(self) -> bool {
        forall|key: Seq<char>| is_made_key(key) ==> !#[trigger] self.mentions(key)
    }
}

/// What a store holds, every store that it is the start of holds too.
pub proof fn lemma_later_store_keeps_rows(
    store: StoreView,
    later: StoreView,
    key: Seq<char>,
    name: Seq<char>,
    value: EventValueView,
)
    requires
        store.is_prefix_of(later),
        store.holds(key, name, value),
    ensures
        later.holds(key, name, value),
{
    match value {
        EventValueView::Boolean(b) => lemma_prefix_contains(
            store.booleans,
            later.booleans,
            RowView { event_key: key, name, value: b },
        ),
        EventValueView::Integer(i) => lemma_prefix_contains(
            store.integers,
            later.integers,
            RowView { event_key: key, name, value: i },
        ),
        EventValueView::String(s) => lemma_prefix_contains(
            store.strings,
            later.strings,
            RowView { event_key: key, name, value: s },
        ),
    }
}

/// What is in the start of a sequence is in the sequence.
proof fn lemma_prefix_contains<T>(start: Seq<T>, whole: Seq<T>, item: T)
    requires
        start.is_prefix_of(whole),
        start.contains(item),
    ensures
        whole.contains(item),
{
    let i = choose|i: int| 0 <= i < start.len() && start[i] == item;
    assert(whole[i] == item);
}

impl Store {
    /// Writes the rows for the event `key`, in order, and stops at the
    /// first that the store refuses. Rows written before it stay.
    fn write_rows(&mut self, key: &str, rows: &Vec<Property>) -> (r: Result<(), IngestError>)
        requires
            old(self).wf(),
        ensures
            final(self).wf(),
            old(self)@.is_prefix_of(final(self)@),
            r is Ok <==> old(self)@.with_rows(key@, property_views(rows@)) is Some,
            r is Ok ==> Some(final(self)@) == old(self)@.with_rows(key@, property_views(rows@)),
            r is Err ==> r == Err::<(), IngestError>(IngestError::UniqueConstraintViolation),
    {
        let ghost all = property_views(rows@);
        let mut i: usize = 0;
        assert(all.skip(0) =~= all);
        while i < rows.len()
            invariant
                i <= rows.len(),
                all == property_views(rows@),
                self.wf(),
                old(self)@.is_prefix_of(self@),
                self@.with_rows(key@, all.skip(i as int)) == old(self)@.with_rows(key@, all),
            decreases rows.len() - i,
        {
            let row = &rows[i];
            let ghost before = self@;
            proof {
                assert(all.skip(i as int)[0] == row@);
                assert(all.skip(i as int).drop_first() =~= all.skip(i + 1));
            }
            match self.write(key, row.name.as_str(), row.value.clone()) {
                Ok(()) => {
                    proof {
                        lemma_row_extends(before, key@, row@.name, row@.value);
                    }
                },
                Err(e) => {
                    return Err(e);
                },
            }
            i = i + 1;
        }
        Ok(())
    }

    /// Stores an event under a given key and date together with its rows,
    /// as one unit: either the event and every row are stored, in this
    /// order, or the store is left exactly as it was. It fails with
    /// `UniqueConstraintViolation` when the key is taken, or when a row
    /// would give the event a second value under one name in one table.
    pub fn insert_batch(&mut self, key: &str, date: &str, rows: &Vec<Property>) -> (r: Result<
        (),
        IngestError,
    >)
        requires
            old(self).wf(),
        ensures
            final(self).wf(),
            r is Ok <==> old(self)@.with_batch(key@, date@, property_views(rows@)) is Some,
            r is Ok ==> Some(final(self)@) == old(self)@.with_batch(
                key@,
                date@,
                property_views(rows@),
            ),
            r is Err ==> r == Err::<(), IngestError>(IngestError::UniqueConstraintViolation)
                && final(self)@ == old(self)@,
    {
        let savepoint = self.savepoint();
        let ghost before = self@;
        match self.insert_event(key, date) {
            Ok(()) => {},
            Err(e) => {
                return Err(e);
            },
        }
        proof {
            lemma_event_extends(before, key@, date@);
        }
        match self.write_rows(key, rows) {
            Ok(()) => Ok(()),
            Err(e) => {
                self.roll_back(&savepoint, Ghost(before));
                Err(e)
            },
        }
    }

    /// Ingests an event under a given key and date: its name under the
    /// reserved name `name`, its properties, each in the table of its
    /// value's kind, and its session under the reserved name `session`.
    /// All of it is stored, or nothing is.
    pub fn ingest_at(
        &mut self,
        key: &str,
        date: &str,
        name: &str,
        properties: &Properties,
        session_id: &str,
    ) -> (r: Result<(), IngestError>)
        requires
            old(self).wf(),
        ensures
            final(self).wf(),
            r is Ok <==> old(self)@.with_batch(
                key@,
                date@,
                session_rows(name@, properties@, session_id@),
            ) is Some,
            r is Ok ==> Some(final(self)@) == old(self)@.with_batch(
                key@,
                date@,
                session_rows(name@, properties@, session_id@),
            ),
            r is Err ==> r == Err::<(), IngestError>(IngestError::UniqueConstraintViolation)
                && final(self)@ == old(self)@,
    {
        let rows = rows_for_session(name, properties, session_id);
        self.insert_batch(key, date, &rows)
    }
}

/// A character of the alphabet in which keys are written: a digit, or an
/// upper-case letter other than `I`, `L`, `O` and `U`.
pub open spec fn is_key_char(c: char) -> bool {
    ||| 48 <= c as u32 <= 57
    ||| (65 <= c as u32 <= 90 && c as u32 != 73 && c as u32 != 76 && c as u32 != 79 && c as u32
        != 85)
}

/// The text has the form of a key that is made for an event: 26
/// characters of the alphabet of keys. Such texts sort as the numbers
/// that they write.
pub open spec fn is_made_key(key: Seq<char>) -> bool {
    key.len() == 26 && forall|i: int| 0 <= i < key.len() ==> is_key_char(#[trigger] key[i])
}

/// `Ulid::new().to_string()`: a new identifier made of the time and of
/// random bits, written as 26 characters of Crockford's base32 alphabet.
/// Nothing more is claimed of the text: whether it is new to a store is
/// for the store to find out.
#[verifier::external_body]
pub(crate) fn fresh_key() -> (key: String)
    ensures
        is_made_key(key@),
{
    Ulid::new().to_string()
}

impl Event {
    /// An event of this moment: a key made for it, and the date of the
    /// clock. The key has the form of a made key; which key it is, and
    /// what the date says, is for the random source and the clock to
    /// decide. A store that takes the event finds out whether the key is
    /// new to it.
    pub fn now() -> (event: Event)
        ensures
            is_made_key(event@.key),
    {
        Event { key: fresh_key(), date: now_rfc3339() }
    }
}

impl Store {
    /// Ingests an event now: under a key made for it and with the date of
    /// the moment, its name, its properties and its session are stored
    /// together, or the store is left exactly as it was.
    ///
    /// It fails only where the store refuses the batch under the key that
    /// was made. A store that knows no made key takes every event whose
    /// rows go into their tables under names of their own.
    pub fn ingest(&mut self, name: &str, properties: &Properties, session_id: &str) -> (r: Result<
        (),
        IngestError,
    >)
        requires
            old(self).wf(),
        ensures
            final(self).wf(),
            r is Ok ==> exists|key: Seq<char>, date: Seq<char>|
                is_made_key(key) && Some(final(self)@) == #[trigger] old(self)@.with_batch(
                    key,
                    date,
                    session_rows(name@, properties@, session_id@),
                ),
            r is Err ==> r == Err::<(), IngestError>(IngestError::UniqueConstraintViolation)
                && final(self)@ == old(self)@,
            r is Err ==> exists|key: Seq<char>, date: Seq<char>|
                is_made_key(key) && (#[trigger] old(self)@.with_batch(
                    key,
                    date,
                    session_rows(name@, properties@, session_id@),
                )) is None,
            old(self)@.mentions_no_made_key() && distinct_rows(
                session_rows(name@, properties@, session_id@),
            ) ==> r is Ok,
    {
        let event = Event::now();
        proof {
            if old(self)@.mentions_no_made_key() {
                assert(!old(self)@.mentions(event@.key));
                lemma_unmentioned_key_is_taken(
                    old(self)@,
                    event@.key,
                    event@.date,
                    session_rows(name@, properties@, session_id@),
                );
            }
        }
        self.ingest_at(event.key.as_str(), event.date.as_str(), name, properties, session_id)
    }

    /// Ingests the events of one request now, one after the other and each
    /// as a unit of its own. It stops at the first event that the store
    /// refuses: the events before it stay stored, each under a key made
    /// for it and with all of its rows; that one and those after it are
    /// not stored. Nothing that was stored before is lost.
    pub fn ingest_events(&mut self, events: &Vec<EventPayload>, session_id: &str) -> (r: Result<
        (),
        IngestError,
    >)
        requires
            old(self).wf(),
        ensures
            final(self).wf(),
            old(self)@.is_prefix_of(final(self)@),
            events@.len() == 0 ==> final(self)@ == old(self)@,
            final(self)@.events.len() <= old(self)@.events.len() + events@.len(),
            r is Ok <==> final(self)@.events.len() == old(self)@.events.len() + events@.len(),
            forall|i: int|
                0 <= i < final(self)@.events.len() - old(self)@.events.len()
                    ==> final(self)@.stored_with_rows(
                    old(self)@.events.len() + i,
                    session_rows((#[trigger] events@[i])@.name, events@[i]@.properties, session_id@),
                ),
            r is Err ==> r == Err::<(), IngestError>(IngestError::UniqueConstraintViolation),
            r is Err ==> exists|key: Seq<char>, date: Seq<char>|
                is_made_key(key) && (#[trigger] final(self)@.with_batch(
                    key,
                    date,
                    session_rows(
                        events@[final(self)@.events.len() - old(self)@.events.len()]@.name,
                        events@[final(self)@.events.len() - old(self)@.events.len()]@.properties,
                        session_id@,
                    ),
                )) is None,
    {
        let mut i: usize = 0;
        while i < events.len()
            invariant
                i <= events.len(),
                self.wf(),
                old(self)@.is_prefix_of(self@),
                i == 0 ==> self@ == old(self)@,
                self@.events.len() == old(self)@.events.len() + i,
                forall|k: int|
                    0 <= k < i ==> self@.stored_with_rows(
                        old(self)@.events.len() + k,
                        session_rows(
                            (#[trigger] events@[k])@.name,
                            events@[k]@.properties,
                            session_id@,
                        ),
                    ),
            decreases events.len() - i,
        {
            let event = &events[i];
            let ghost before = self@;
            let ghost rows = session_rows(event@.name, event@.properties, session_id@);
            match self.ingest(event.name.as_str(), &event.properties, session_id) {
                Ok(()) => {
                    proof {
                        let (key, date) = choose|key: Seq<char>, date: Seq<char>|
                            is_made_key(key) && Some(self@) == #[trigger] before.with_batch(
                                key,
                                date,
                                rows,
                            );
                        crate::laws::law_event_and_rows_together(before, key, date, rows);
                        let after = self@;
                        let base = old(self)@.events.len() as int;
                        assert(after.events[base + i] == (EventView { key, date }));
                        assert(after.stored_with_rows(base + i, rows));
                        assert forall|k: int| 0 <= k < i + 1 implies after.stored_with_rows(
                            base + k,
                            session_rows(
                                (#[trigger] events@[k])@.name,
                                events@[k]@.properties,
                                session_id@,
                            ),
                        ) by {
                            if k < i {
                                let earlier = session_rows(
                                    events@[k]@.name,
                                    events@[k]@.properties,
                                    session_id@,
                                );
                                assert(before.stored_with_rows(base + k, earlier));
                                assert(after.events[base + k] == before.events[base + k]);
                                assert forall|j: int| 0 <= j < earlier.len() implies after.holds(
                                    after.events[base + k].key,
                                    (#[trigger] earlier[j]).name,
                                    earlier[j].value,
                                ) by {
                                    lemma_later_store_keeps_rows(
                                        before,
                                        after,
                                        before.events[base + k].key,
                                        earlier[j].name,
                                        earlier[j].value,
                                    );
                                }
                            }
                        }
                    }
                },
                Err(e) => {
                    proof {
                        let (key, date) = choose|key: Seq<char>, date: Seq<char>|
                            is_made_key(key) && (#[trigger] before.with_batch(key, date, rows))
                                is None;
                        assert(self@ == before);
                        assert(self@.events.len() - old(self)@.events.len() == i);
                        assert(self@.with_batch(
                            key,
                            date,
                            session_rows(
                                events@[i as int]@.name,
                                events@[i as int]@.properties,
                                session_id@,
                            ),
                        ) is None);
                    }
                    return Err(e);
                },
            }
            i = i + 1;
        }
        Ok(())
    }
}

/// What takes events that carry a name and properties but no session.
pub trait EventHelper {
    /// Whether the receiver is in a state to take events.
    spec fn ready(&self) -> bool;

    /// Saves an event now, with its name and its properties.
    fn save_event(&mut self, name: &str, properties: &Properties) -> (r: Result<(), IngestError>)
        requires
            old(self).ready(),
        ensures
            final(self).ready(),
    ;
}

impl EventHelper for Store {
    open spec fn ready(&self) -> bool {
        self.wf()
    }

    /// Saves an event now: under a key made for it and with the date of
    /// the moment, its name and its properties are stored together, or
    /// the store is left exactly as it was.
    ///
    /// It fails only where the store refuses the batch under the key that
    /// was made. A store that knows no made key takes every event whose
    /// rows go into their tables under names of their own.
    fn save_event(&mut self, name: &str, properties: &Properties) -> (r: Result<(), IngestError>)
        ensures
            r is Ok ==> exists|key: Seq<char>, date: Seq<char>|
                is_made_key(key) && Some(final(self)@) == #[trigger] old(self)@.with_batch(
                    key,
                    date,
                    event_rows(name@, properties@),
                ),
            r is Err ==> r == Err::<(), IngestError>(IngestError::UniqueConstraintViolation)
                && final(self)@ == old(self)@,
            r is Err ==> exists|key: Seq<char>, date: Seq<char>|
                is_made_key(key) && (#[trigger] old(self)@.with_batch(
                    key,
                    date,
                    event_rows(name@, properties@),
                )) is None,
            old(self)@.mentions_no_made_key() && distinct_rows(event_rows(name@, properties@))
                ==> r is Ok,
    {
        let event = Event::now();
        let rows = rows_for_event(name, properties);
        proof {
            if old(self)@.mentions_no_made_key() {
                assert(!old(self)@.mentions(event@.key));
                lemma_unmentioned_key_is_taken(
                    old(self)@,
                    event@.key,
                    event@.date,
                    event_rows(name@, properties@),
                );
            }
        }
        self.insert_batch(event.key.as_str(), event.date.as_str(), &rows)
    }
}

/// A store is the start of what it becomes by one more row.
pub proof fn lemma_row_extends(
    store: StoreView,
    key: Seq<char>,
    name: Seq<char>,
    value: EventValueView,
)
    ensures
        store.is_prefix_of(store.with_row(key, name, value)),
        forall|earlier: StoreView| #[trigger]
            earlier.is_prefix_of(store) ==> earlier.is_prefix_of(store.with_row(key, name, value)),
{
}

/// A store is the start of what it becomes by one more event.
pub proof fn lemma_event_extends(store: StoreView, key: Seq<char>, date: Seq<char>)
    ensures
        store.is_prefix_of(store.with_event(key, date)),
        forall|later: StoreView| #[trigger]
            store.with_event(key, date).is_prefix_of(later) ==> store.is_prefix_of(later),
{
}

} // verus!
