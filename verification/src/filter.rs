//! The filter language: a boolean formula over named properties, and what it
//! means for an event of the store to satisfy one.

use sea_query::Condition;
use vstd::prelude::*;
use crate::condition::{
    condition_add, condition_all, condition_any, condition_key_in, condition_view, table_name,
    ConditionView, KeyLookupView,
};
use crate::store::{lemma_lookup_holds, Store, StoreView};
use crate::value::{EventValue, EventValueView, ValueKind};

verus! {

/// A filter expression: a conjunction, a disjunction, or the test that a
/// named property equals a value.
#[derive(Debug)]
pub enum Filter {
    FilterAnd(Vec<Filter>),
    FilterOr(Vec<Filter>),
    FilterValue { name: String, eq: EventValue },
}

/// A filter expression as contracts see it.
pub enum FilterView {
    And(Seq<FilterView>),
    Or(Seq<FilterView>),
    Value { name: Seq<char>, eq: EventValueView },
}

impl View for Filter {
    type V = FilterView;

    open spec fn view(&self) -> FilterView {
        filter_view(*self)
    }
}

/// The view of a filter: the same formula over the views of its parts.
pub open spec fn filter_view(filter: Filter) -> FilterView
    decreases filter, 0nat,
{
    match filter {
        Filter::FilterAnd(filters) => FilterView::And(views_upto(filters, filters@.len())),
        Filter::FilterOr(filters) => FilterView::Or(views_upto(filters, filters@.len())),
        Filter::FilterValue { name, eq } => FilterView::Value { name: name@, eq: eq@ },
    }
}

/// The views of the first `n` filters of a list.
pub open spec fn views_upto(filters: Vec<Filter>, n: nat) -> Seq<FilterView>
    decreases filters, n,
{
    if n == 0 || n > filters@.len() {
        Seq::empty()
    } else {
        views_upto(filters, (n - 1) as nat).push(filter_view(filters@[n - 1]))
    }
}

/// The views of the first `n` filters are `n` views, one for each filter.
pub proof fn lemma_views_upto(filters: Vec<Filter>, n: nat)
    requires
        n <= filters@.len(),
    ensures
        views_upto(filters, n).len() == n,
        forall|j: int| 0 <= j < n ==> #[trigger] views_upto(filters, n)[j] == filters@[j]@,
    decreases n,
{
    if n > 0 {
        lemma_views_upto(filters, (n - 1) as nat);
    }
}

/// The parts of the view of a conjunction or disjunction are the views of
/// its parts.
pub proof fn lemma_view_parts(filters: Vec<Filter>)
    ensures
        Filter::FilterAnd(filters)@ is And,
        Filter::FilterAnd(filters)@->And_0.len() == filters@.len(),
        forall|j: int|
            0 <= j < filters@.len() ==> #[trigger] Filter::FilterAnd(filters)@->And_0[j]
                == filters@[j]@,
        Filter::FilterOr(filters)@ is Or,
        Filter::FilterOr(filters)@->Or_0.len() == filters@.len(),
        forall|j: int|
            0 <= j < filters@.len() ==> #[trigger] Filter::FilterOr(filters)@->Or_0[j]
                == filters@[j]@,
{
    lemma_views_upto(filters, filters@.len());
}

impl FilterView {
    /// Whether the event `key` of `store` satisfies the filter: every part of
    /// a conjunction, some part of a disjunction, and for a test that the
    /// key is among those that the store looks up for the name and value.
    pub open spec fn holds(self, store: StoreView, key: Seq<char>) -> bool
        decreases self,
    {
        match self {
            FilterView::And(parts) => forall|i: int|
                0 <= i < parts.len() ==> (#[trigger] parts[i]).holds(store, key),
            FilterView::Or(parts) => exists|i: int|
                0 <= i < parts.len() && (#[trigger] parts[i]).holds(store, key),
            FilterView::Value { name, eq } => store.lookup_event_keys(name, eq).contains(key),
        }
    }
}

/// The condition that a filter compiles to. A conjunction starts from the
/// empty conjunction and a disjunction from the empty disjunction, and the
/// compiled parts are added in order; a test becomes the lookup of the
/// event's key among the rows of the table of the value's kind.
pub open spec fn compiled(filter: FilterView) -> ConditionView
    decreases filter, 0nat,
{
    match filter {
        FilterView::And(parts) => compiled_parts(ConditionView::all(), parts, parts.len()),
        FilterView::Or(parts) => compiled_parts(ConditionView::any(), parts, parts.len()),
        FilterView::Value { name, eq } => ConditionView::all().with_part(
            ConditionView::KeyIn(KeyLookupView::of(name, eq)),
        ),
    }
}

/// The junction `start` once the first `n` of `parts` were compiled and
/// added to it.
pub open spec fn compiled_parts(start: ConditionView, parts: Seq<FilterView>, n: nat) -> ConditionView
    decreases parts, n,
{
    if n == 0 || n > parts.len() {
        start
    } else {
        compiled_parts(start, parts, (n - 1) as nat).with_part(compiled(parts[n - 1]))
    }
}

/// A condition means the same alone and as a part of another.
pub proof fn lemma_absorbed_holds(c: ConditionView, store: StoreView, key: Seq<char>)
    ensures
        c.absorbed().holds(store, key) == c.holds(store, key),
{
    match c {
        ConditionView::Junction { negate, any, parts } => {
            if parts.len() == 1 && !negate {
                assert(parts[0].holds(store, key) ==> c.holds(store, key));
                if c.holds(store, key) {
                    if any {
                        let i = choose|i: int|
                            0 <= i < parts.len() && (#[trigger] parts[i]).holds(store, key);
                        assert(i == 0);
                    } else {
                        assert(parts[0].holds(store, key));
                    }
                }
            }
        },
        _ => {},
    }
}

/// The first `n` compiled parts of a junction mean what the first `n`
/// parts of the filter mean, one for one.
pub proof fn lemma_compiled_parts(
    start: ConditionView,
    parts: Seq<FilterView>,
    n: nat,
    store: StoreView,
    key: Seq<char>,
)
    requires
        n <= parts.len(),
        start == ConditionView::all() || start == ConditionView::any(),
    ensures
        compiled_parts(start, parts, n) is Junction,
        compiled_parts(start, parts, n)->negate == false,
        compiled_parts(start, parts, n)->any == start->any,
        compiled_parts(start, parts, n)->parts.len() == n,
        forall|j: int|
            0 <= j < n ==> (#[trigger] compiled_parts(start, parts, n)->parts[j]).holds(store, key)
                == parts[j].holds(store, key),
    decreases parts, n,
{
    if n > 0 {
        let before = compiled_parts(start, parts, (n - 1) as nat);
        let part = compiled(parts[n - 1]);
        let after = compiled_parts(start, parts, n);
        lemma_compiled_parts(start, parts, (n - 1) as nat, store, key);
        lemma_compiled_holds(parts[n - 1], store, key);
        lemma_absorbed_holds(part, store, key);
        assert(after == before.with_part(part));
        assert(after->parts == before->parts.push(part.absorbed()));
        assert forall|j: int| 0 <= j < n implies (#[trigger] after->parts[j]).holds(store, key)
            == parts[j].holds(store, key) by {
            if j < n - 1 {
                assert(after->parts[j] == before->parts[j]);
            }
        }
    }
}

/// The compiled condition is true of exactly the events that satisfy the
/// filter.
pub proof fn lemma_compiled_holds(filter: FilterView, store: StoreView, key: Seq<char>)
    ensures
        compiled(filter).holds(store, key) == filter.holds(store, key),
    decreases filter, 0nat,
{
    match filter {
        FilterView::And(parts) => {
            lemma_compiled_parts(ConditionView::all(), parts, parts.len(), store, key);
            let c = compiled_parts(ConditionView::all(), parts, parts.len());
            assert(compiled(filter) == c);
            let joined = forall|i: int|
                0 <= i < c->parts.len() ==> (#[trigger] c->parts[i]).holds(store, key);
            assert(c.holds(store, key) == joined);
            if filter.holds(store, key) {
                assert forall|i: int| 0 <= i < c->parts.len() implies (#[trigger] c->parts[i]).holds(
                    store,
                    key,
                ) by {
                    assert(parts[i].holds(store, key));
                }
            }
            if joined {
                assert forall|i: int| 0 <= i < parts.len() implies (#[trigger] parts[i]).holds(
                    store,
                    key,
                ) by {
                    assert(c->parts[i].holds(store, key));
                }
            }
        },
        FilterView::Or(parts) => {
            lemma_compiled_parts(ConditionView::any(), parts, parts.len(), store, key);
            let c = compiled_parts(ConditionView::any(), parts, parts.len());
            assert(compiled(filter) == c);
            let joined = exists|i: int|
                0 <= i < c->parts.len() && (#[trigger] c->parts[i]).holds(store, key);
            assert(c.holds(store, key) == joined);
            if filter.holds(store, key) {
                let i = choose|i: int| 0 <= i < parts.len() && (#[trigger] parts[i]).holds(store, key);
                assert(c->parts[i].holds(store, key));
            }
            if joined {
                let i = choose|i: int|
                    0 <= i < c->parts.len() && (#[trigger] c->parts[i]).holds(store, key);
                assert(parts[i].holds(store, key));
            }
        },
        FilterView::Value { name, eq } => {
            let lookup = ConditionView::KeyIn(KeyLookupView::of(name, eq));
            let c = compiled(filter);
            assert(c->parts =~= seq![lookup]);
            assert(c->parts[0] == lookup);
            let joined = forall|i: int|
                0 <= i < c->parts.len() ==> (#[trigger] c->parts[i]).holds(store, key);
            assert(c.holds(store, key) == joined);
            lemma_lookup_holds(store, key, name, eq);
            assert(lookup.holds(store, key) == store.holds(key, name, eq));
            if joined {
                assert(c->parts[0].holds(store, key));
            }
        },
    }
}

/// The name of the table that stores the values of a kind.
pub fn table_of(kind: ValueKind) -> (name: &'static str)
    ensures
        name@ == table_name(kind),
{
    match kind {
        ValueKind::Boolean => "property_boolean",
        ValueKind::Integer => "property_integer",
        ValueKind::String => "property_string",
    }
}

impl Filter {
    /// Compiles the filter into a condition on the rows of the event table.
    /// A test dispatches on the kind of its value to the table of that
    /// kind, and asks whether the event's own key is among the keys of the
    /// rows that hold the value under the name.
    pub fn to_query(&self) -> (c: Condition)
        ensures
            condition_view(c) == compiled(self@),
        decreases self,
    {
        match self {
            Filter::FilterAnd(filters) => {
                proof {
                    lemma_view_parts(*filters);
                }
                let mut cond = condition_all();
                let mut i: usize = 0;
                while i < filters.len()
                    invariant
                        i <= filters.len(),
                        *self == Filter::FilterAnd(*filters),
                        self@ is And,
                        self@->And_0.len() == filters@.len(),
                        forall|j: int|
                            0 <= j < filters@.len() ==> #[trigger] self@->And_0[j] == filters@[j]@,
                        condition_view(cond) == compiled_parts(
                            ConditionView::all(),
                            self@->And_0,
                            i as nat,
                        ),
                    decreases filters.len() - i,
                {
                    let part = &filters[i];
                    assert(decreases_to!(filters => filters[i as int]));
                    cond = condition_add(cond, part.to_query());
                    i = i + 1;
                }
                cond
            },
            Filter::FilterOr(filters) => {
                proof {
                    lemma_view_parts(*filters);
                }
                let mut cond = condition_any();
                let mut i: usize = 0;
                while i < filters.len()
                    invariant
                        i <= filters.len(),
                        *self == Filter::FilterOr(*filters),
                        self@ is Or,
                        self@->Or_0.len() == filters@.len(),
                        forall|j: int|
                            0 <= j < filters@.len() ==> #[trigger] self@->Or_0[j] == filters@[j]@,
                        condition_view(cond) == compiled_parts(
                            ConditionView::any(),
                            self@->Or_0,
                            i as nat,
                        ),
                    decreases filters.len() - i,
                {
                    let part = &filters[i];
                    assert(decreases_to!(filters => filters[i as int]));
                    cond = condition_add(cond, part.to_query());
                    i = i + 1;
                }
                cond
            },
            Filter::FilterValue { name, eq } => condition_key_in(
                "event",
                "key",
                table_of(eq.kind()),
                "event_key",
                "name",
                name.as_str(),
                "value",
                eq,
            ),
        }
    }

    /// Whether the event `key` of `store` satisfies the filter.
    pub fn matches(&self, store: &Store, key: &str) -> (r: bool)
        ensures
            r == self@.holds(store@, key@),
        decreases self,
    {
        match self {
            Filter::FilterAnd(filters) => {
                proof {
                    lemma_view_parts(*filters);
                }
                let mut i: usize = 0;
                while i < filters.len()
                    invariant
                        i <= filters.len(),
                        *self == Filter::FilterAnd(*filters),
                        self@ is And,
                        self@->And_0.len() == filters@.len(),
                        forall|j: int|
                            0 <= j < filters@.len() ==> #[trigger] self@->And_0[j] == filters@[j]@,
                        forall|j: int| 0 <= j < i ==> (#[trigger] filters@[j])@.holds(store@, key@),
                    decreases filters.len() - i,
                {
                    let part = &filters[i];
                    assert(decreases_to!(filters => filters[i as int]));
                    if !part.matches(store, key) {
                        assert(self@->And_0[i as int] == filters@[i as int]@);
                        return false;
                    }
                    i = i + 1;
                }
                assert forall|j: int| 0 <= j < self@->And_0.len() implies (#[trigger] self@->And_0[j]).holds(
                    store@,
                    key@,
                ) by {
                    assert(self@->And_0[j] == filters@[j]@);
                }
                true
            },
            Filter::FilterOr(filters) => {
                proof {
                    lemma_view_parts(*filters);
                }
                let mut i: usize = 0;
                while i < filters.len()
                    invariant
                        i <= filters.len(),
                        *self == Filter::FilterOr(*filters),
                        self@ is Or,
                        self@->Or_0.len() == filters@.len(),
                        forall|j: int|
                            0 <= j < filters@.len() ==> #[trigger] self@->Or_0[j] == filters@[j]@,
                        forall|j: int| 0 <= j < i ==> !(#[trigger] filters@[j])@.holds(store@, key@),
                    decreases filters.len() - i,
                {
                    let part = &filters[i];
                    assert(decreases_to!(filters => filters[i as int]));
                    if part.matches(store, key) {
                        assert(self@->Or_0[i as int] == filters@[i as int]@);
                        return true;
                    }
                    i = i + 1;
                }
                assert forall|j: int| 0 <= j < self@->Or_0.len() implies !(#[trigger] self@->Or_0[j]).holds(
                    store@,
                    key@,
                ) by {
                    assert(self@->Or_0[j] == filters@[j]@);
                }
                false
            },
            Filter::FilterValue { name, eq } => {
                proof {
                    lemma_lookup_holds(store@, key@, name@, eq@);
                }
                store.holds(key, name.as_str(), eq)
            },
        }
    }
}

} // verus!
