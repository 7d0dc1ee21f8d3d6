//! Query conditions for the relational engine, built with `sea_query`, and
//! what such a condition says of an event of the store.

use sea_query::{Alias, Condition, Expr, IntoCondition, Query, Value};
use vstd::prelude::*;
use crate::store::StoreView;
use crate::text::text_le;
use crate::value::{EventValue, EventValueView, ValueKind};

verus! {

#[verifier::external_type_specification]
#[verifier::external_body]
pub struct ExCondition(Condition);

/// The test that a column of the outer row is among the keys that a
/// subquery selects: `outer_table.outer_column IN (SELECT key_column FROM
/// table WHERE name_column = name AND value_column = value)`.
pub struct KeyLookupView {
    pub outer_table: Seq<char>,
    pub outer_column: Seq<char>,
    pub table: Seq<char>,
    pub key_column: Seq<char>,
    pub name_column: Seq<char>,
    pub name: Seq<char>,
    pub value_column: Seq<char>,
    pub value: EventValueView,
}

/// The test that a column of the row lies between two texts, bounds
/// included: `table.column >= from AND table.column <= to`.
pub struct RangeView {
    pub table: Seq<char>,
    pub column: Seq<char>,
    pub from: Seq<char>,
    pub to: Seq<char>,
}

/// What a condition holds: a junction of parts, joined by OR where `any`
/// is set and by AND where it is not, negated as a whole where `negate`
/// is set; or a key lookup; or a range.
pub enum ConditionView {
    Junction { negate: bool, any: bool, parts: Seq<ConditionView> },
    KeyIn(KeyLookupView),
    Between(RangeView),
}

/// The name of the table that stores the values of a kind.
pub open spec fn table_name(kind: ValueKind) -> Seq<char> {
    match kind {
        ValueKind::Boolean => "property_boolean"@,
        ValueKind::Integer => "property_integer"@,
        ValueKind::String => "property_string"@,
    }
}

impl KeyLookupView {
    /// The lookup that tests an event's own key against the rows that hold
    /// `value` under `name` in the table of the value's kind.
    pub open spec fn of(name: Seq<char>, value: EventValueView) -> KeyLookupView {
        KeyLookupView {
            outer_table: "event"@,
            outer_column: "key"@,
            table: table_name(value.kind()),
            key_column: "event_key"@,
            name_column: "name"@,
            name,
            value_column: "value"@,
            value,
        }
    }

    /// Whether the lookup is true of the event `key`: it reads the columns
    /// of the store's schema, and the store holds the row.
    pub open spec fn holds(self, store: StoreView, key: Seq<char>) -> bool {
        self == KeyLookupView::of(self.name, self.value) && store.holds(key, self.name, self.value)
    }
}

impl RangeView {
    /// The range that tests the date of an event.
    pub open spec fn of(from: Seq<char>, to: Seq<char>) -> RangeView {
        RangeView { table: "event"@, column: "date"@, from, to }
    }

    /// Whether the range is true of the event `key`: it reads the date of
    /// the store's schema, and the store has the event with a date from
    /// `from` to `to`.
    pub open spec fn holds(self, store: StoreView, key: Seq<char>) -> bool {
        self == RangeView::of(self.from, self.to) && exists|i: int|
            0 <= i < store.events.len() && (#[trigger] store.events[i]).key == key && text_le(
                self.from,
                store.events[i].date,
            ) && text_le(store.events[i].date, self.to)
    }
}

impl ConditionView {
    /// The empty conjunction.
    pub open spec fn all() -> ConditionView {
        ConditionView::Junction { negate: false, any: false, parts: Seq::empty() }
    }

    /// The empty disjunction.
    pub open spec fn any() -> ConditionView {
        ConditionView::Junction { negate: false, any: true, parts: Seq::empty() }
    }

    /// What stands for this condition once it is a part of another: a
    /// junction of one part that is not negated gives way to that part.
    pub open spec fn absorbed(self) -> ConditionView {
        match self {
            ConditionView::Junction { negate, any, parts } => if parts.len() == 1 && !negate {
                parts[0]
            } else {
                self
            },
            _ => self,
        }
    }

    /// The junction with one more part at its end.
    pub open spec fn with_part(self, part: ConditionView) -> ConditionView {
        match self {
            ConditionView::Junction { negate, any, parts } => ConditionView::Junction {
                negate,
                any,
                parts: parts.push(part.absorbed()),
            },
            _ => self,
        }
    }

    /// Whether the condition is true of the event `key` of `store`.
    pub open spec fn holds(self, store: StoreView, key: Seq<char>) -> bool
        decreases self,
    {
        match self {
            ConditionView::Junction { negate, any, parts } => {
                let joined = if any {
                    exists|i: int| 0 <= i < parts.len() && (#[trigger] parts[i]).holds(store, key)
                } else {
                    forall|i: int| 0 <= i < parts.len() ==> (#[trigger] parts[i]).holds(store, key)
                };
                negate != joined
            },
            ConditionView::KeyIn(lookup) => lookup.holds(store, key),
            ConditionView::Between(range) => range.holds(store, key),
        }
    }
}

/// What a `sea_query::Condition` holds.
pub uninterp spec fn condition_view(c: Condition) -> ConditionView;

/// `Condition::all`: an empty conjunction, not negated.
#[verifier::external_body]
pub(crate) fn condition_all() -> (c: Condition)
    ensures
        condition_view(c) == ConditionView::all(),
{
    Condition::all()
}

/// `Condition::any`: an empty disjunction, not negated.
#[verifier::external_body]
pub(crate) fn condition_any() -> (c: Condition)
    ensures
        condition_view(c) == ConditionView::any(),
{
    Condition::any()
}

/// `Condition::add`: appends `part` to the parts of `c`. Where `part` has
/// exactly one part of its own and is not negated, that one part is
/// appended in its place.
#[verifier::external_body]
pub(crate) fn condition_add(c: Condition, part: Condition) -> (r: Condition)
    ensures
        condition_view(r) == condition_view(c).with_part(condition_view(part)),
{
    c.add(part)
}

/// `Expr::col(..).in_subquery(..)` over a `Query::select()` with two
/// `and_where` equalities, turned into a condition by `into_condition`:
/// a conjunction whose one part is the key lookup made of the arguments.
#[verifier::external_body]
pub(crate) fn condition_key_in(
    outer_table: &str,
    outer_column: &str,
    table: &str,
    key_column: &str,
    name_column: &str,
    name: &str,
    value_column: &str,
    value: &EventValue,
) -> (c: Condition)
    ensures
        condition_view(c) == ConditionView::all().with_part(
            ConditionView::KeyIn(
                KeyLookupView {
                    outer_table: outer_table@,
                    outer_column: outer_column@,
                    table: table@,
                    key_column: key_column@,
                    name_column: name_column@,
                    name: name@,
                    value_column: value_column@,
                    value: value@,
                },
            ),
        ),
{
    let value = match value {
        EventValue::Boolean(b) => Value::from(*b),
        EventValue::Integer(i) => Value::from(*i),
        EventValue::String(s) => Value::from(s.as_str()),
    };
    let mut select = Query::select();
    select.column(Alias::new(key_column)).from(Alias::new(table));
    select.and_where(Expr::col(Alias::new(name_column)).eq(name));
    select.and_where(Expr::col(Alias::new(value_column)).eq(value));
    Expr::col((Alias::new(outer_table), Alias::new(outer_column))).in_subquery(select).into_condition()
}

/// `Expr::col(..).gte(..)` and `Expr::col(..).lte(..)` on one column,
/// joined by `SimpleExpr::and` and turned into a condition by
/// `into_condition`: a conjunction whose one part is the range made of the
/// arguments.
#[verifier::external_body]
pub(crate) fn condition_between(table: &str, column: &str, from: &str, to: &str) -> (c: Condition)
    ensures
        condition_view(c) == ConditionView::all().with_part(
            ConditionView::Between(
                RangeView { table: table@, column: column@, from: from@, to: to@ },
            ),
        ),
{
    Expr::col((Alias::new(table), Alias::new(column)))
        .gte(from)
        .and(Expr::col((Alias::new(table), Alias::new(column))).lte(to))
        .into_condition()
}

} // verus!
