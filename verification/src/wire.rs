//! The wire formats: how a filter, a query and a property value are written
//! as JSON.
//!
//! A filter is an object with exactly one member, whose name is its tag:
//! `"and"` and `"or"` hold an array of filters, `"filter"` holds an object
//! with a `name`, which is a text, and a value `eq`, which is a text, an
//! integer of 32 bits or a boolean. A query is an object with the texts
//! `from_date` and `to_date`, and the member of a filter beside them;
//! without one the filter is the empty conjunction. An event is an object
//! with a `name`, which is a text, and `properties`, an object whose
//! members are property values.

use vstd::prelude::*;
use crate::error::{IngestError, ParseError};
use crate::filter::{lemma_view_parts, Filter, FilterView};
use crate::ingest::{with_property, EventPayload, EventPayloadView, Properties, PropertyView};
use crate::json::{lemma_json_parts, Json, JsonView, Member, MemberView};
use crate::query::{QueryData, QueryView};
use crate::text::same_text;
use crate::value::{EventValue, EventValueView};

verus! {

/// The value of the first member with the name.
pub open spec fn member_of(members: Seq<MemberView>, name: Seq<char>) -> Option<JsonView>
    decreases members.len(),
{
    if members.len() == 0 {
        None
    } else if members[0].name == name {
        Some(members[0].value)
    } else {
        member_of(members.drop_first(), name)
    }
}

/// The property value that a document stands for: a boolean, an integer
/// that fits 32 bits, or a text.
pub open spec fn scalar_of(json: JsonView) -> Option<EventValueView> {
    match json {
        JsonView::Boolean(b) => Some(EventValueView::Boolean(b)),
        JsonView::Integer(i) => if i32::MIN <= i <= i32::MAX {
            Some(EventValueView::Integer(i as i32))
        } else {
            None
        },
        JsonView::Text(s) => Some(EventValueView::String(s)),
        _ => None,
    }
}

/// The test that the body of a `"filter"` member stands for.
pub open spec fn test_of(body: JsonView) -> Option<FilterView> {
    match body {
        JsonView::Object(members) => match (member_of(members, "name"@), member_of(members, "eq"@)) {
            (Some(JsonView::Text(name)), Some(eq)) => match scalar_of(eq) {
                Some(value) => Some(FilterView::Value { name, eq: value }),
                None => None,
            },
            _ => None,
        },
        _ => None,
    }
}

/// The filter that a member with the name `tag` and the value `body`
/// stands for.
pub open spec fn tagged_filter(tag: Seq<char>, body: JsonView) -> Option<FilterView>
    decreases body, 0nat,
{
    if tag == "and"@ {
        match body {
            JsonView::Array(items) => match filters_of(items, items.len()) {
                Some(parts) => Some(FilterView::And(parts)),
                None => None,
            },
            _ => None,
        }
    } else if tag == "or"@ {
        match body {
            JsonView::Array(items) => match filters_of(items, items.len()) {
                Some(parts) => Some(FilterView::Or(parts)),
                None => None,
            },
            _ => None,
        }
    } else if tag == "filter"@ {
        test_of(body)
    } else {
        None
    }
}

/// The filter that a document stands for.
pub open spec fn filter_of(json: JsonView) -> Option<FilterView>
    decreases json, 0nat,
{
    match json {
        JsonView::Object(members) => if members.len() == 1 {
            tagged_filter(members[0].name, members[0].value)
        } else {
            None
        },
        _ => None,
    }
}

/// The filters that the first `n` items of an array stand for, where each
/// of them stands for one.
pub open spec fn filters_of(items: Seq<JsonView>, n: nat) -> Option<Seq<FilterView>>
    decreases items, n,
{
    if n == 0 || n > items.len() {
        Some(Seq::empty())
    } else {
        match (filters_of(items, (n - 1) as nat), filter_of(items[n - 1])) {
            (Some(parts), Some(part)) => Some(parts.push(part)),
            _ => None,
        }
    }
}

/// The filter of a query: that of the one member with a filter's tag, the
/// empty conjunction where no member has one, and none where more than
/// one has.
pub open spec fn query_filter_of(members: Seq<MemberView>) -> Option<FilterView> {
    match (member_of(members, "and"@), member_of(members, "or"@), member_of(members, "filter"@)) {
        (None, None, None) => Some(FilterView::And(Seq::empty())),
        (Some(body), None, None) => tagged_filter("and"@, body),
        (None, Some(body), None) => tagged_filter("or"@, body),
        (None, None, Some(body)) => tagged_filter("filter"@, body),
        _ => None,
    }
}

/// The query that a document stands for.
pub open spec fn query_of(json: JsonView) -> Option<QueryView> {
    match json {
        JsonView::Object(members) => match (
            member_of(members, "from_date"@),
            member_of(members, "to_date"@),
            query_filter_of(members),
        ) {
            (Some(JsonView::Text(from_date)), Some(JsonView::Text(to_date)), Some(filter)) => Some(
                QueryView { from_date, to_date, filter },
            ),
            _ => None,
        },
        _ => None,
    }
}

/// The value of the first member with the name.
pub fn find_member<'a>(members: &'a Vec<Member>, name: &str) -> (r: Option<&'a Json>)
    ensures
        r is Some <==> member_of(members@.map_values(|m: Member| m@), name@) is Some,
        r matches Some(json) ==> member_of(members@.map_values(|m: Member| m@), name@) == Some(
            json@,
        ),
{
    let ghost all = members@.map_values(|m: Member| m@);
    let mut i: usize = 0;
    assert(all.skip(0) =~= all);
    while i < members.len()
        invariant
            i <= members.len(),
            all == members@.map_values(|m: Member| m@),
            member_of(all, name@) == member_of(all.skip(i as int), name@),
        decreases members.len() - i,
    {
        let member = &members[i];
        assert(all.skip(i as int)[0] == member@);
        assert(all.skip(i as int).drop_first() =~= all.skip(i + 1));
        if same_text(member.name.as_str(), name) {
            return Some(&member.value);
        }
        i = i + 1;
    }
    None
}

impl EventValue {
    /// The property value that a document stands for. A document that is
    /// neither a text, an integer of 32 bits nor a boolean is rejected as
    /// `UnsupportedValueKind`: nothing is dropped in silence.
    pub fn from_json(json: &Json) -> (r: Result<EventValue, IngestError>)
        ensures
            match scalar_of(json@) {
                Some(value) => r is Ok && r->Ok_0@ == value,
                None => r == Err::<EventValue, IngestError>(IngestError::UnsupportedValueKind),
            },
    {
        match json {
            Json::Boolean(b) => Ok(EventValue::Boolean(*b)),
            Json::Integer(i) => if -2147483648 <= *i && *i <= 2147483647 {
                Ok(EventValue::Integer(*i as i32))
            } else {
                Err(IngestError::UnsupportedValueKind)
            },
            Json::Text(s) => Ok(EventValue::String(s.clone())),
            _ => Err(IngestError::UnsupportedValueKind),
        }
    }
}

/// Once an item of an array stands for no filter, no longer start of the
/// array stands for a list of filters.
pub proof fn lemma_filters_of_none(items: Seq<JsonView>, k: nat, n: nat)
    requires
        k <= n <= items.len(),
        filters_of(items, k) is None,
    ensures
        filters_of(items, n) is None,
    decreases n,
{
    if n > k {
        lemma_filters_of_none(items, k, (n - 1) as nat);
    }
}

/// The views of a list of documents.
pub open spec fn json_views(items: Seq<Json>) -> Seq<JsonView> {
    items.map_values(|j: Json| j@)
}

/// The views of a list of filters.
pub open spec fn filter_views(filters: Seq<Filter>) -> Seq<FilterView> {
    filters.map_values(|f: Filter| f@)
}

impl Filter {
    /// Reads the filters that the items of an array stand for.
    fn list_from_json(items: &Vec<Json>) -> (r: Result<Vec<Filter>, ParseError>)
        ensures
            match filters_of(json_views(items@), items@.len()) {
                Some(parts) => r is Ok && filter_views(r->Ok_0@) == parts,
                None => r == Err::<Vec<Filter>, ParseError>(ParseError::Shape),
            },
        decreases items,
    {
        let ghost all = json_views(items@);
        let mut parts: Vec<Filter> = Vec::new();
        let mut i: usize = 0;
        assert(filter_views(parts@) =~= Seq::empty());
        while i < items.len()
            invariant
                i <= items.len(),
                all == json_views(items@),
                filters_of(all, i as nat) == Some(filter_views(parts@)),
            decreases items.len() - i,
        {
            let item = &items[i];
            assert(decreases_to!(items => items[i as int]));
            assert(all[i as int] == item@);
            match Filter::from_json(item) {
                Ok(part) => {
                    let ghost before = filter_views(parts@);
                    parts.push(part);
                    assert(filter_views(parts@) =~= before.push(part@));
                },
                Err(e) => {
                    proof {
                        lemma_filters_of_none(all, (i + 1) as nat, items@.len());
                    }
                    return Err(e);
                },
            }
            i = i + 1;
        }
        Ok(parts)
    }

    /// Reads the test that the body of a `"filter"` member stands for.
    fn test_from_json(body: &Json) -> (r: Result<Filter, ParseError>)
        ensures
            match test_of(body@) {
                Some(filter) => r is Ok && r->Ok_0@ == filter,
                None => r == Err::<Filter, ParseError>(ParseError::Shape),
            },
    {
        match body {
            Json::Object(members) => {
                proof {
                    lemma_json_parts(*body);
                    assert(body@->Object_0 =~= members@.map_values(|m: Member| m@));
                }
                match (find_member(members, "name"), find_member(members, "eq")) {
                    (Some(Json::Text(name)), Some(eq)) => match EventValue::from_json(eq) {
                        Ok(value) => Ok(Filter::FilterValue { name: name.clone(), eq: value }),
                        Err(_) => Err(ParseError::Shape),
                    },
                    _ => Err(ParseError::Shape),
                }
            },
            _ => Err(ParseError::Shape),
        }
    }

    /// Reads the filter that a member with the name `tag` and the value
    /// `body` stands for.
    pub fn from_member(tag: &str, body: &Json) -> (r: Result<Filter, ParseError>)
        ensures
            match tagged_filter(tag@, body@) {
                Some(filter) => r is Ok && r->Ok_0@ == filter,
                None => r == Err::<Filter, ParseError>(ParseError::Shape),
            },
        decreases body,
    {
        if same_text(tag, "and") {
            match body {
                Json::Array(items) => {
                    proof {
                        lemma_json_parts(*body);
                        assert(body@->Array_0 =~= json_views(items@));
                    }
                    match Filter::list_from_json(items) {
                        Ok(parts) => {
                            proof {
                                lemma_view_parts(parts);
                                assert(Filter::FilterAnd(parts)@->And_0 =~= filter_views(parts@));
                            }
                            Ok(Filter::FilterAnd(parts))
                        },
                        Err(e) => Err(e),
                    }
                },
                _ => Err(ParseError::Shape),
            }
        } else if same_text(tag, "or") {
            match body {
                Json::Array(items) => {
                    proof {
                        lemma_json_parts(*body);
                        assert(body@->Array_0 =~= json_views(items@));
                    }
                    match Filter::list_from_json(items) {
                        Ok(parts) => {
                            proof {
                                lemma_view_parts(parts);
                                assert(Filter::FilterOr(parts)@->Or_0 =~= filter_views(parts@));
                            }
                            Ok(Filter::FilterOr(parts))
                        },
                        Err(e) => Err(e),
                    }
                },
                _ => Err(ParseError::Shape),
            }
        } else if same_text(tag, "filter") {
            Filter::test_from_json(body)
        } else {
            Err(ParseError::Shape)
        }
    }

    /// Reads the filter that a document stands for; `Shape` where it
    /// stands for none.
    pub fn from_json(json: &Json) -> (r: Result<Filter, ParseError>)
        ensures
            match filter_of(json@) {
                Some(filter) => r is Ok && r->Ok_0@ == filter,
                None => r == Err::<Filter, ParseError>(ParseError::Shape),
            },
        decreases json,
    {
        match json {
            Json::Object(members) => {
                proof {
                    lemma_json_parts(*json);
                }
                if members.len() == 1 {
                    let member = &members[0];
                    assert(decreases_to!(members => members[0]));
                    assert(json@->Object_0[0] == member@);
                    Filter::from_member(member.name.as_str(), &member.value)
                } else {
                    Err(ParseError::Shape)
                }
            },
            _ => Err(ParseError::Shape),
        }
    }

    /// Reads a filter from a text: `Syntax` where the text is not one JSON
    /// document, `Shape` where the document stands for no filter.
    pub fn parse(text: &str) -> (r: Result<Filter, ParseError>)
        ensures
            match crate::json::json_of(text@) {
                Some(json) => match filter_of(json) {
                    Some(filter) => r is Ok && r->Ok_0@ == filter,
                    None => r == Err::<Filter, ParseError>(ParseError::Shape),
                },
                None => r == Err::<Filter, ParseError>(ParseError::Syntax),
            },
    {
        match Json::parse(text) {
            Some(json) => Filter::from_json(&json),
            None => Err(ParseError::Syntax),
        }
    }
}

impl QueryData {
    /// Reads the filter of a query from the members of its document.
    fn filter_from_members(members: &Vec<Member>) -> (r: Result<Filter, ParseError>)
        ensures
            match query_filter_of(members@.map_values(|m: Member| m@)) {
                Some(filter) => r is Ok && r->Ok_0@ == filter,
                None => r == Err::<Filter, ParseError>(ParseError::Shape),
            },
    {
        match (find_member(members, "and"), find_member(members, "or"), find_member(members, "filter")) {
            (None, None, None) => {
                let parts: Vec<Filter> = Vec::new();
                proof {
                    lemma_view_parts(parts);
                    assert(Filter::FilterAnd(parts)@->And_0 =~= Seq::empty());
                }
                Ok(Filter::FilterAnd(parts))
            },
            (Some(body), None, None) => Filter::from_member("and", body),
            (None, Some(body), None) => Filter::from_member("or", body),
            (None, None, Some(body)) => Filter::from_member("filter", body),
            _ => Err(ParseError::Shape),
        }
    }

    /// Reads the query that a document stands for; `Shape` where it
    /// stands for none.
    pub fn from_json(json: &Json) -> (r: Result<QueryData, ParseError>)
        ensures
            match query_of(json@) {
                Some(query) => r is Ok && r->Ok_0@ == query,
                None => r == Err::<QueryData, ParseError>(ParseError::Shape),
            },
    {
        match json {
            Json::Object(members) => {
                proof {
                    lemma_json_parts(*json);
                    assert(json@->Object_0 =~= members@.map_values(|m: Member| m@));
                }
                match (find_member(members, "from_date"), find_member(members, "to_date")) {
                    (Some(Json::Text(from_date)), Some(Json::Text(to_date))) => {
                        match QueryData::filter_from_members(members) {
                            Ok(filter) => Ok(
                                QueryData {
                                    from_date: from_date.clone(),
                                    to_date: to_date.clone(),
                                    filter,
                                },
                            ),
                            Err(e) => Err(e),
                        }
                    },
                    _ => Err(ParseError::Shape),
                }
            },
            _ => Err(ParseError::Shape),
        }
    }

    /// Reads a query from a text: `Syntax` where the text is not one JSON
    /// document, `Shape` where the document stands for no query.
    pub fn parse(text: &str) -> (r: Result<QueryData, ParseError>)
        ensures
            match crate::json::json_of(text@) {
                Some(json) => match query_of(json) {
                    Some(query) => r is Ok && r->Ok_0@ == query,
                    None => r == Err::<QueryData, ParseError>(ParseError::Shape),
                },
                None => r == Err::<QueryData, ParseError>(ParseError::Syntax),
            },
    {
        match Json::parse(text) {
            Some(json) => QueryData::from_json(&json),
            None => Err(ParseError::Syntax),
        }
    }
}

/// A query as the command line takes it: the two dates, and a filter as
/// JSON text where one is given.
#[derive(Debug)]
pub struct QueryCommand {
    pub from_date: String,
    pub to_date: String,
    pub filter: Option<String>,
}

impl QueryCommand {
    /// The query that the command asks for: with the filter that its text
    /// holds, and with the empty conjunction where it has none. A text
    /// that is not JSON is a `Syntax` error, a document that is no filter
    /// a `Shape` error.
    pub fn query(&self) -> (r: Result<QueryData, ParseError>)
        ensures
            match self.filter {
                None => r is Ok && r->Ok_0@ == (QueryView {
                    from_date: self.from_date@,
                    to_date: self.to_date@,
                    filter: FilterView::And(Seq::empty()),
                }),
                Some(text) => match crate::json::json_of(text@) {
                    Some(json) => match filter_of(json) {
                        Some(filter) => r is Ok && r->Ok_0@ == (QueryView {
                            from_date: self.from_date@,
                            to_date: self.to_date@,
                            filter,
                        }),
                        None => r == Err::<QueryData, ParseError>(ParseError::Shape),
                    },
                    None => r == Err::<QueryData, ParseError>(ParseError::Syntax),
                },
            },
    {
        let filter = match &self.filter {
            Some(text) => match Filter::parse(text.as_str()) {
                Ok(filter) => filter,
                Err(e) => {
                    return Err(e);
                },
            },
            None => {
                let parts: Vec<Filter> = Vec::new();
                proof {
                    lemma_view_parts(parts);
                    assert(Filter::FilterAnd(parts)@->And_0 =~= Seq::empty());
                }
                Filter::FilterAnd(parts)
            },
        };
        Ok(QueryData { from_date: self.from_date.clone(), to_date: self.to_date.clone(), filter })
    }
}

/// The properties that the first `n` members of an object stand for, set
/// one after the other, so that of two members with one name the later
/// counts; `None` where one of them holds no property value.
pub open spec fn properties_of(members: Seq<MemberView>, n: nat) -> Option<Seq<PropertyView>>
    decreases n,
{
    if n == 0 || n > members.len() {
        Some(Seq::empty())
    } else {
        match (properties_of(members, (n - 1) as nat), scalar_of(members[n - 1].value)) {
            (Some(properties), Some(value)) => Some(
                with_property(properties, PropertyView { name: members[n - 1].name, value }),
            ),
            _ => None,
        }
    }
}

/// The event that a document stands for. A document that is no object
/// with a name and properties is a `MalformedPayload`; one with a property
/// that is neither a text, an integer of 32 bits nor a boolean is
/// rejected whole, as `UnsupportedValueKind`.
pub open spec fn event_of(json: JsonView) -> Result<EventPayloadView, IngestError> {
    match json {
        JsonView::Object(members) => match (
            member_of(members, "name"@),
            member_of(members, "properties"@),
        ) {
            (Some(JsonView::Text(name)), Some(JsonView::Object(bag))) => match properties_of(
                bag,
                bag.len(),
            ) {
                Some(properties) => Ok(EventPayloadView { name, properties }),
                None => Err(IngestError::UnsupportedValueKind),
            },
            _ => Err(IngestError::MalformedPayload),
        },
        _ => Err(IngestError::MalformedPayload),
    }
}

/// The events that the first `n` items of an array stand for; the error
/// of the first item that stands for none.
pub open spec fn events_upto(items: Seq<JsonView>, n: nat) -> Result<
    Seq<EventPayloadView>,
    IngestError,
>
    decreases n,
{
    if n == 0 || n > items.len() {
        Ok(Seq::empty())
    } else {
        match events_upto(items, (n - 1) as nat) {
            Ok(events) => match event_of(items[n - 1]) {
                Ok(event) => Ok(events.push(event)),
                Err(e) => Err(e),
            },
            Err(e) => Err(e),
        }
    }
}

/// The events that a document stands for: it is an array of events.
pub open spec fn events_of(json: JsonView) -> Result<Seq<EventPayloadView>, IngestError> {
    match json {
        JsonView::Array(items) => events_upto(items, items.len()),
        _ => Err(IngestError::MalformedPayload),
    }
}

/// Once a member of an object holds no property value, no longer start of
/// the object stands for a list of properties.
pub proof fn lemma_properties_of_none(members: Seq<MemberView>, k: nat, n: nat)
    requires
        k <= n <= members.len(),
        properties_of(members, k) is None,
    ensures
        properties_of(members, n) is None,
    decreases n,
{
    if n > k {
        lemma_properties_of_none(members, k, (n - 1) as nat);
    }
}

/// The first item of an array that stands for no event decides the error
/// of every longer start of the array.
pub proof fn lemma_events_upto_err(items: Seq<JsonView>, k: nat, n: nat)
    requires
        k <= n <= items.len(),
        events_upto(items, k) is Err,
    ensures
        events_upto(items, n) == events_upto(items, k),
    decreases n,
{
    if n > k {
        lemma_events_upto_err(items, k, (n - 1) as nat);
    }
}

/// The views of a list of event payloads.
pub open spec fn payload_views(events: Seq<EventPayload>) -> Seq<EventPayloadView> {
    events.map_values(|e: EventPayload| e@)
}

impl EventPayload {
    /// Reads the properties that the members of an object stand for.
    fn properties_from_members(members: &Vec<Member>) -> (r: Option<Properties>)
        ensures
            match properties_of(members@.map_values(|m: Member| m@), members@.len()) {
                Some(properties) => r is Some && r->0@ == properties && r->0.wf(),
                None => r is None,
            },
    {
        let ghost all = members@.map_values(|m: Member| m@);
        let mut properties = Properties::new();
        let mut i: usize = 0;
        while i < members.len()
            invariant
                i <= members.len(),
                all == members@.map_values(|m: Member| m@),
                properties.wf(),
                properties_of(all, i as nat) == Some(properties@),
            decreases members.len() - i,
        {
            let member = &members[i];
            assert(all[i as int] == member@);
            match EventValue::from_json(&member.value) {
                Ok(value) => {
                    properties.insert(member.name.clone(), value);
                },
                Err(_) => {
                    proof {
                        lemma_properties_of_none(all, (i + 1) as nat, members@.len());
                    }
                    return None;
                },
            }
            i = i + 1;
        }
        Some(properties)
    }

    /// Reads the event that a document stands for.
    pub fn from_json(json: &Json) -> (r: Result<EventPayload, IngestError>)
        ensures
            match event_of(json@) {
                Ok(event) => r is Ok && r->Ok_0@ == event,
                Err(e) => r == Err::<EventPayload, IngestError>(e),
            },
    {
        match json {
            Json::Object(members) => {
                proof {
                    lemma_json_parts(*json);
                    assert(json@->Object_0 =~= members@.map_values(|m: Member| m@));
                }
                match (find_member(members, "name"), find_member(members, "properties")) {
                    (Some(Json::Text(name)), Some(Json::Object(bag))) => {
                        proof {
                            lemma_json_parts(Json::Object(*bag));
                            assert(Json::Object(*bag)@->Object_0 =~= bag@.map_values(
                                |m: Member| m@,
                            ));
                        }
                        match EventPayload::properties_from_members(bag) {
                            Some(properties) => Ok(
                                EventPayload { name: name.clone(), properties },
                            ),
                            None => Err(IngestError::UnsupportedValueKind),
                        }
                    },
                    _ => Err(IngestError::MalformedPayload),
                }
            },
            _ => Err(IngestError::MalformedPayload),
        }
    }

    /// Reads the events that a document stands for: an array of events.
    /// The first item that stands for no event decides the error.
    pub fn list_from_json(json: &Json) -> (r: Result<Vec<EventPayload>, IngestError>)
        ensures
            match events_of(json@) {
                Ok(events) => r is Ok && payload_views(r->Ok_0@) == events,
                Err(e) => r == Err::<Vec<EventPayload>, IngestError>(e),
            },
    {
        match json {
            Json::Array(items) => {
                proof {
                    lemma_json_parts(*json);
                    assert(json@->Array_0 =~= json_views(items@));
                }
                let ghost all = json_views(items@);
                let mut events: Vec<EventPayload> = Vec::new();
                let mut i: usize = 0;
                assert(payload_views(events@) =~= Seq::empty());
                while i < items.len()
                    invariant
                        i <= items.len(),
                        all == json_views(items@),
                        events_of(json@) == events_upto(all, items@.len()),
                        events_upto(all, i as nat) == Ok::<Seq<EventPayloadView>, IngestError>(
                            payload_views(events@),
                        ),
                    decreases items.len() - i,
                {
                    let item = &items[i];
                    assert(all[i as int] == item@);
                    match EventPayload::from_json(item) {
                        Ok(event) => {
                            let ghost before = payload_views(events@);
                            events.push(event);
                            assert(payload_views(events@) =~= before.push(event@));
                        },
                        Err(e) => {
                            proof {
                                lemma_events_upto_err(all, (i + 1) as nat, items@.len());
                            }
                            return Err(e);
                        },
                    }
                    i = i + 1;
                }
                Ok(events)
            },
            _ => Err(IngestError::MalformedPayload),
        }
    }

    /// Reads events from a text: `MalformedPayload` where the text is not
    /// one JSON document or the document is no array of events,
    /// `UnsupportedValueKind` where a property holds no property value.
    pub fn parse_list(text: &str) -> (r: Result<Vec<EventPayload>, IngestError>)
        ensures
            match crate::json::json_of(text@) {
                Some(json) => match events_of(json) {
                    Ok(events) => r is Ok && payload_views(r->Ok_0@) == events,
                    Err(e) => r == Err::<Vec<EventPayload>, IngestError>(e),
                },
                None => r == Err::<Vec<EventPayload>, IngestError>(IngestError::MalformedPayload),
            },
    {
        match Json::parse(text) {
            Some(json) => EventPayload::list_from_json(&json),
            None => Err(IngestError::MalformedPayload),
        }
    }
}

} // verus!
