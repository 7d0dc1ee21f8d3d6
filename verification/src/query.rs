//! Queries: a filter restricted to a range of dates, run against the store.

use sea_query::Condition;
use vstd::prelude::*;
use crate::condition::{
    condition_add, condition_all, condition_between, condition_view, ConditionView, RangeView,
};
use crate::filter::{
    compiled, lemma_absorbed_holds, lemma_compiled_holds, Filter, FilterView,
};
use crate::store::{unique_keys, Event, EventView, Store, StoreView};
use crate::text::{text_le, text_precedes};

verus! {

/// A query: the events recorded from `from_date` to `to_date`, both
/// included, that satisfy `filter`. Dates are compared as texts, byte by
/// byte, which for timestamps of one format is their order in time.
#[derive(Debug)]
pub struct QueryData {
    pub from_date: String,
    pub to_date: String,
    pub filter: Filter,
}

/// A query as contracts see it.
pub struct QueryView {
    pub from_date: Seq<char>,
    pub to_date: Seq<char>,
    pub filter: FilterView,
}

impl View for QueryData {
    type V = QueryView;

    open spec fn view(&self) -> QueryView {
        QueryView { from_date: self.from_date@, to_date: self.to_date@, filter: self.filter@ }
    }
}

impl QueryView {
    /// The date lies in the range of the query, bounds included.
    pub open spec fn in_range(self, date: Seq<char>) -> bool {
        text_le(self.from_date, date) && text_le(date, self.to_date)
    }

    /// The query selects the event: its date is in range and it satisfies
    /// the filter.
    pub open spec fn selects(self, store: StoreView, event: EventView) -> bool {
        self.in_range(event.date) && self.filter.holds(store, event.key)
    }

    /// The test that `selects` makes of each event of `store`.
    pub open spec fn selector(self, store: StoreView) -> spec_fn(EventView) -> bool {
        |event: EventView| self.selects(store, event)
    }

    /// The events that the query selects, in storage order.
    pub open spec fn matching(self, store: StoreView) -> Seq<EventView> {
        store.events.filter(self.selector(store))
    }
}

/// The condition that a query compiles to: the conjunction of the range
/// of its dates and of its compiled filter.
pub open spec fn compiled_query(query: QueryView) -> ConditionView {
    ConditionView::all().with_part(
        ConditionView::all().with_part(
            ConditionView::Between(RangeView::of(query.from_date, query.to_date)),
        ),
    ).with_part(compiled(query.filter))
}

/// The compiled condition is true of exactly those events of the store
/// that the query selects.
pub proof fn lemma_compiled_query_selects(query: QueryView, store: StoreView, i: int)
    requires
        unique_keys(store.events),
        0 <= i < store.events.len(),
    ensures
        compiled_query(query).holds(store, store.events[i].key) == query.selects(
            store,
            store.events[i],
        ),
{
    let event = store.events[i];
    let range = ConditionView::Between(RangeView::of(query.from_date, query.to_date));
    let filter = compiled(query.filter);
    let whole = compiled_query(query);
    lemma_compiled_holds(query.filter, store, event.key);
    lemma_absorbed_holds(filter, store, event.key);
    assert(ConditionView::all().with_part(range)->parts =~= seq![range]);
    assert(whole->parts =~= seq![range, filter.absorbed()]);
    assert(whole->parts[0] == range && whole->parts[1] == filter.absorbed());
    let joined = forall|j: int|
        0 <= j < whole->parts.len() ==> (#[trigger] whole->parts[j]).holds(store, event.key);
    assert(whole.holds(store, event.key) == joined);
    if range.holds(store, event.key) {
        let k = choose|k: int|
            0 <= k < store.events.len() && (#[trigger] store.events[k]).key == event.key && text_le(
                query.from_date,
                store.events[k].date,
            ) && text_le(store.events[k].date, query.to_date);
        assert(k == i) by {
            if k < i {
                assert(store.events[k].key != store.events[i].key);
            } else if i < k {
                assert(store.events[i].key != store.events[k].key);
            }
        }
    }
    if query.in_range(event.date) {
        assert(store.events[i].key == event.key);
        assert(range.holds(store, event.key));
    }
    if joined {
        assert(whole->parts[0].holds(store, event.key));
        assert(whole->parts[1].holds(store, event.key));
    }
    if query.selects(store, event) {
        assert forall|j: int| 0 <= j < whole->parts.len() implies (#[trigger] whole->parts[j]).holds(
            store,
            event.key,
        ) by {
            assert(j == 0 || j == 1);
        }
    }
}

/// Filtering one more event keeps it at the end when the test accepts it.
proof fn lemma_filter_step(events: Seq<EventView>, test: spec_fn(EventView) -> bool, i: int)
    requires
        0 <= i < events.len(),
    ensures
        events.take(i + 1).filter(test) == if test(events[i]) {
            events.take(i).filter(test).push(events[i])
        } else {
            events.take(i).filter(test)
        },
{
    reveal(Seq::filter);
    assert(events.take(i + 1).drop_last() =~= events.take(i));
}

impl QueryData {
    /// Compiles the query into a condition on the rows of the event table:
    /// the date lies in the range, bounds included, and the filter holds.
    pub fn to_query(&self) -> (c: Condition)
        ensures
            condition_view(c) == compiled_query(self@),
    {
        let range = condition_between(
            "event",
            "date",
            self.from_date.as_str(),
            self.to_date.as_str(),
        );
        let dated = condition_add(condition_all(), range);
        condition_add(dated, self.filter.to_query())
    }

    /// Whether the query selects the event.
    pub fn selects(&self, db: &Store, event: &Event) -> (r: bool)
        ensures
            r == self@.selects(db@, event@),
    {
        text_precedes(self.from_date.as_str(), event.date.as_str()) && text_precedes(
            event.date.as_str(),
            self.to_date.as_str(),
        ) && self.filter.matches(db, event.key.as_str())
    }

    /// The events that the query selects, in storage order.
    pub fn select(&self, db: &Store) -> (found: Vec<Event>)
        ensures
            found@.map_values(|e: Event| e@) == self@.matching(db@),
    {
        let events = db.events();
        let ghost all = db@.events;
        let ghost test = self@.selector(db@);
        let mut found: Vec<Event> = Vec::new();
        let mut i: usize = 0;
        proof {
            reveal(Seq::filter);
            assert(all.take(0) =~= Seq::empty());
        }
        while i < events.len()
            invariant
                i <= events.len(),
                all == db@.events,
                test == self@.selector(db@),
                events@.map_values(|e: Event| e@) == all,
                found@.map_values(|e: Event| e@) == all.take(i as int).filter(test),
            decreases events.len() - i,
        {
            let event = &events[i];
            assert(all[i as int] == event@);
            proof {
                lemma_filter_step(all, test, i as int);
            }
            if self.selects(db, event) {
                let ghost before = found@.map_values(|e: Event| e@);
                found.push(event.clone());
                assert(found@.map_values(|e: Event| e@) =~= before.push(event@));
            }
            i = i + 1;
        }
        assert(all.take(i as int) =~= all);
        found
    }

    /// The number of events that the query selects.
    pub fn run(&self, db: &Store) -> (count: u64)
        ensures
            count == self@.matching(db@).len(),
    {
        let events = db.events();
        let ghost all = db@.events;
        let ghost test = self@.selector(db@);
        let mut count: u64 = 0;
        let mut i: usize = 0;
        proof {
            reveal(Seq::filter);
            assert(all.take(0) =~= Seq::empty());
        }
        while i < events.len()
            invariant
                i <= events.len(),
                all == db@.events,
                test == self@.selector(db@),
                events@.map_values(|e: Event| e@) == all,
                count == all.take(i as int).filter(test).len(),
                count <= i,
            decreases events.len() - i,
        {
            let event = &events[i];
            assert(all[i as int] == event@);
            proof {
                lemma_filter_step(all, test, i as int);
            }
            if self.selects(db, event) {
                count = count + 1;
            }
            i = i + 1;
        }
        assert(all.take(i as int) =~= all);
        count
    }
}

} // verus!
