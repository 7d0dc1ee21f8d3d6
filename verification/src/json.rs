//! JSON documents, as far as the wire formats of filters, queries and events
//! read them. The text is parsed by `serde_json`.

use serde_json::Value;
use vstd::prelude::*;

verus! {

#[verifier::external_type_specification]
#[verifier::external_body]
pub struct ExValue(Value);

/// A JSON document. A number is kept where it is an integer of 64 bits;
/// every other number is a `Number` without a value.
#[derive(Debug)]
pub enum Json {
    Null,
    Boolean(bool),
    Integer(i64),
    Number,
    Text(String),
    Array(Vec<Json>),
    Object(Vec<Member>),
}

/// A member of a JSON object.
#[derive(Debug)]
pub struct Member {
    pub name: String,
    pub value: Json,
}

/// A JSON document as contracts see it.
pub enum JsonView {
    Null,
    Boolean(bool),
    Integer(i64),
    Number,
    Text(Seq<char>),
    Array(Seq<JsonView>),
    Object(Seq<MemberView>),
}

/// A member of a JSON object as contracts see it.
pub struct MemberView {
    pub name: Seq<char>,
    pub value: JsonView,
}

/// The view of a document: the same document over the views of its parts.
pub open spec fn json_view(json: Json) -> JsonView
    decreases json, 0nat,
{
    match json {
        Json::Null => JsonView::Null,
        Json::Boolean(b) => JsonView::Boolean(b),
        Json::Integer(i) => JsonView::Integer(i),
        Json::Number => JsonView::Number,
        Json::Text(s) => JsonView::Text(s@),
        Json::Array(items) => JsonView::Array(items_upto(items, items@.len())),
        Json::Object(members) => JsonView::Object(members_upto(members, members@.len())),
    }
}

/// The views of the first `n` items of an array.
pub open spec fn items_upto(items: Vec<Json>, n: nat) -> Seq<JsonView>
    decreases items, n,
{
    if n == 0 || n > items@.len() {
        Seq::empty()
    } else {
        items_upto(items, (n - 1) as nat).push(json_view(items@[n - 1]))
    }
}

/// The views of the first `n` members of an object.
pub open spec fn members_upto(members: Vec<Member>, n: nat) -> Seq<MemberView>
    decreases members, n,
{
    if n == 0 || n > members@.len() {
        Seq::empty()
    } else {
        members_upto(members, (n - 1) as nat).push(
            MemberView { name: members@[n - 1].name@, value: json_view(members@[n - 1].value) },
        )
    }
}

impl View for Json {
    type V = JsonView;

    open spec fn view(&self) -> JsonView {
        json_view(*self)
    }
}

impl View for Member {
    type V = MemberView;

    open spec fn view(&self) -> MemberView {
        MemberView { name: self.name@, value: self.value@ }
    }
}

/// The views of the first `n` items are `n` views, one for each item.
pub proof fn lemma_items_upto(items: Vec<Json>, n: nat)
    requires
        n <= items@.len(),
    ensures
        items_upto(items, n).len() == n,
        forall|j: int| 0 <= j < n ==> #[trigger] items_upto(items, n)[j] == items@[j]@,
    decreases n,
{
    if n > 0 {
        lemma_items_upto(items, (n - 1) as nat);
    }
}

/// The views of the first `n` members are `n` views, one for each member.
pub proof fn lemma_members_upto(members: Vec<Member>, n: nat)
    requires
        n <= members@.len(),
    ensures
        members_upto(members, n).len() == n,
        forall|j: int| 0 <= j < n ==> #[trigger] members_upto(members, n)[j] == members@[j]@,
    decreases n,
{
    if n > 0 {
        lemma_members_upto(members, (n - 1) as nat);
    }
}

/// The parts of the view of an array or object are the views of its parts.
pub proof fn lemma_json_parts(json: Json)
    ensures
        json matches Json::Array(items) ==> json@ is Array && json@->Array_0.len() == items@.len()
            && forall|j: int| 0 <= j < items@.len() ==> #[trigger] json@->Array_0[j] == items@[j]@,
        json matches Json::Object(members) ==> json@ is Object && json@->Object_0.len()
            == members@.len() && forall|j: int|
            0 <= j < members@.len() ==> #[trigger] json@->Object_0[j] == members@[j]@,
{
    match json {
        Json::Array(items) => lemma_items_upto(items, items@.len()),
        Json::Object(members) => lemma_members_upto(members, members@.len()),
        _ => {},
    }
}

/// The document that a text holds, where the text is one JSON document.
pub uninterp spec fn json_of(text: Seq<char>) -> Option<JsonView>;

/// The content of a `serde_json::Value`.
pub uninterp spec fn value_content(value: Value) -> JsonView;

/// `serde_json::from_str` into a `Value`: the value whose content is the
/// document that the text holds, or `None` where the text is not one JSON
/// document.
#[verifier::external_body]
pub(crate) fn value_from_text(text: &str) -> (r: Option<Value>)
    ensures
        r is Some <==> json_of(text@) is Some,
        r matches Some(value) ==> json_of(text@) == Some(value_content(value)),
{
    serde_json::from_str::<Value>(text).ok()
}

/// Turns a `serde_json::Value` into a document, variant by variant. Of a
/// number, `Number::as_i64` says whether it is an integer of 64 bits.
#[verifier::external_body]
pub(crate) fn json_from_value(value: &Value) -> (json: Json)
    ensures
        json@ == value_content(*value),
{
    match value {
        Value::Null => Json::Null,
        Value::Bool(b) => Json::Boolean(*b),
        Value::Number(n) => n.as_i64().map_or(Json::Number, Json::Integer),
        Value::String(s) => Json::Text(s.clone()),
        Value::Array(items) => Json::Array(items.iter().map(json_from_value).collect()),
        Value::Object(members) => Json::Object(
            members.iter().map(|(k, v)| Member { name: k.clone(), value: json_from_value(v) }).collect(),
        ),
    }
}

impl Json {
    /// Reads a document from a text; `None` where the text is not one
    /// JSON document.
    pub fn parse(text: &str) -> (r: Option<Json>)
        ensures
            r is Some <==> json_of(text@) is Some,
            r matches Some(json) ==> json_of(text@) == Some(json@),
    {
        match value_from_text(text) {
            Some(value) => Some(json_from_value(&value)),
            None => None,
        }
    }
}

} // verus!
