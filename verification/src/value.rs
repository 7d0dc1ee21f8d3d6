//! The scalar values that a property can hold.

use vstd::prelude::*;
use crate::text::same_text;

verus! {

/// The three kinds of property value. Each kind has a table of its own.
#[derive(Clone, Copy, Debug, PartialEq, Eq, Structural)]
pub enum ValueKind {
    Boolean,
    Integer,
    String,
}

/// A property value as contracts see it.
pub enum EventValueView {
    Boolean(bool),
    Integer(i32),
    String(Seq<char>),
}

impl EventValueView {
    pub open spec fn kind(self) -> ValueKind {
        match self {
            EventValueView::Boolean(_) => ValueKind::Boolean,
            EventValueView::Integer(_) => ValueKind::Integer,
            EventValueView::String(_) => ValueKind::String,
        }
    }
}

/// A property value: a boolean, a 32-bit integer or a text.
#[derive(Debug)]
pub enum EventValue {
    Boolean(bool),
    Integer(i32),
    String(String),
}

impl View for EventValue {
    type V = EventValueView;

    open spec fn view(&self) -> EventValueView {
        match self {
            EventValue::Boolean(b) => EventValueView::Boolean(*b),
            EventValue::Integer(i) => EventValueView::Integer(*i),
            EventValue::String(s) => EventValueView::String(s@),
        }
    }
}

impl Clone for EventValue {
    fn clone(&self) -> (r: Self)
        ensures
            r@ == self@,
    {
        match self {
            EventValue::Boolean(b) => EventValue::Boolean(*b),
            EventValue::Integer(i) => EventValue::Integer(*i),
            EventValue::String(s) => EventValue::String(s.clone()),
        }
    }
}

impl EventValue {
    /// The kind of the value, which decides the table that stores it.
    pub fn kind(&self) -> (k: ValueKind)
        ensures
            k == self@.kind(),
    {
        match self {
            EventValue::Boolean(_) => ValueKind::Boolean,
            EventValue::Integer(_) => ValueKind::Integer,
            EventValue::String(_) => ValueKind::String,
        }
    }

    /// Whether two values have the same kind and hold the same scalar.
    pub fn same(&self, other: &EventValue) -> (r: bool)
        ensures
            r == (self@ == other@),
    {
        match (self, other) {
            (EventValue::Boolean(a), EventValue::Boolean(b)) => *a == *b,
            (EventValue::Integer(a), EventValue::Integer(b)) => *a == *b,
            (EventValue::String(a), EventValue::String(b)) => same_text(a.as_str(), b.as_str()),
            _ => false,
        }
    }
}

/// A value that a typed table can hold in its value column.
pub trait Scalar: View + Sized {
    /// Equality of two values of the kind, as the table's index compares them.
    fn same(&self, other: &Self) -> (r: bool)
        ensures
            r == (self@ == other@),
    ;
}

impl Scalar for bool {
    fn same(&self, other: &bool) -> (r: bool) {
        *self == *other
    }
}

impl Scalar for i32 {
    fn same(&self, other: &i32) -> (r: bool) {
        *self == *other
    }
}

impl Scalar for String {
    fn same(&self, other: &String) -> (r: bool) {
        same_text(self.as_str(), other.as_str())
    }
}

} // verus!
