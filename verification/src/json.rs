//! JSON values, as far as the metadata record needs them.

use serde_json::Value;
use vstd::prelude::*;

verus! {

/// A JSON value.
#[derive(Debug)]
pub enum Json {
    Null,
    Bool(bool),
    /// A number; `None` where it is negative, has a fraction or an exponent,
    /// or is too large for a `u64`.
    Number(Option<u64>),
    Text(String),
    Array(Vec<Json>),
    /// The members of an object, each with its name.
    Object(Vec<(String, Json)>),
}

/// A JSON value as a mathematical value.
pub enum JsonView {
    Null,
    Bool(bool),
    Number(Option<u64>),
    Text(Seq<char>),
    Array(Seq<JsonView>),
    Object(Seq<(Seq<char>, JsonView)>),
}

/// The mathematical value of a JSON value.
pub open spec fn json_view(json: Json) -> JsonView
    decreases json, 0nat,
{
    match json {
        Json::Null => JsonView::Null,
        Json::Bool(b) => JsonView::Bool(b),
        Json::Number(n) => JsonView::Number(n),
        Json::Text(s) => JsonView::Text(s@),
        Json::Array(items) => JsonView::Array(items_view(items@)),
        Json::Object(members) => JsonView::Object(members_view(members@)),
    }
}

/// The views of the items of an array, in their order.
pub open spec fn items_view(items: Seq<Json>) -> Seq<JsonView>
    decreases items, 1nat,
{
    if items.len() == 0 {
        Seq::empty()
    } else {
        items_view(items.drop_last()).push(json_view(items.last()))
    }
}

/// The views of the members of an object, in their order.
pub open spec fn members_view(members: Seq<(String, Json)>) -> Seq<(Seq<char>, JsonView)>
    decreases members, 1nat,
{
    if members.len() == 0 {
        Seq::empty()
    } else {
        members_view(members.drop_last()).push((members.last().0@, json_view(members.last().1)))
    }
}

impl View for Json {
    type V = JsonView;

    open spec fn view(&self) -> JsonView {
        json_view(*self)
    }
}

/// `items_view` keeps the length and takes the view of each item.
pub proof fn lemma_items_view(items: Seq<Json>)
    ensures
        items_view(items).len() == items.len(),
        forall|i: int| 0 <= i < items.len() ==> #[trigger] items_view(items)[i] == items[i]@,
    decreases items.len(),
{
    if items.len() > 0 {
        lemma_items_view(items.drop_last());
    }
}

/// `members_view` keeps the length and takes the view of each name and value.
pub proof fn lemma_members_view(members: Seq<(String, Json)>)
    ensures
        members_view(members).len() == members.len(),
        forall|i: int|
            0 <= i < members.len() ==> #[trigger] members_view(members)[i] == (
                members[i].0@,
                members[i].1@,
            ),
    decreases members.len(),
{
    if members.len() > 0 {
        lemma_members_view(members.drop_last());
    }
}

/// Whether `i` is the place of the first member called `name`.
pub open spec fn is_first_named(members: Seq<(Seq<char>, JsonView)>, name: Seq<char>, i: int) -> bool {
    &&& 0 <= i < members.len()
    &&& members[i].0 == name
    &&& forall|k: int| 0 <= k < i ==> (#[trigger] members[k]).0 != name
}

/// The value of the member called `name`, if there is one: of the first,
/// where several members have that name.
pub open spec fn member(members: Seq<(Seq<char>, JsonView)>, name: Seq<char>) -> Option<JsonView> {
    if exists|i: int| is_first_named(members, name, i) {
        Some(members[choose|i: int| is_first_named(members, name, i)].1)
    } else {
        None
    }
}

/// Looks up the member called `name`.
pub fn find<'a>(members: &'a Vec<(String, Json)>, name: &str) -> (found: Option<&'a Json>)
    ensures
        match found {
            Some(value) => member(members_view(members@), name@) == Some(value@),
            None => member(members_view(members@), name@).is_none(),
        },
{
    let wanted = name.to_owned();
    let ghost views = members_view(members@);
    proof {
        lemma_members_view(members@);
    }
    let mut i: usize = 0;
    while i < members.len()
        invariant
            i <= members@.len(),
            wanted@ == name@,
            views == members_view(members@),
            views.len() == members@.len(),
            forall|k: int| 0 <= k < views.len() ==> #[trigger] views[k] == (members@[k].0@, members@[k].1@),
            forall|k: int| 0 <= k < i ==> (#[trigger] views[k]).0 != name@,
        decreases members@.len() - i,
    {
        if members[i].0 == wanted {
            assert(is_first_named(views, name@, i as int));
            return Some(&members[i].1);
        }
        i += 1;
    }
    assert forall|k: int| !is_first_named(views, name@, k) by {
        if 0 <= k < views.len() {
            assert(views[k].0 != name@);
        }
    }
    None
}

/// What `serde_json::from_str` makes of `text`, read as a `Value` and turned
/// into a `JsonView` variant by variant; `None` where it rejects `text`.
pub uninterp spec fn json_parsed(text: Seq<char>) -> Option<JsonView>;

/// The error of `serde_json`, of which nothing is read.
#[verifier::external_type_specification]
#[verifier::external_body]
pub struct ExJsonError(serde_json::Error);

/// The value type of `serde_json`, which only `json_from_value` reads.
#[verifier::external_type_specification]
#[verifier::external_body]
pub struct ExJsonValue(serde_json::Value);

/// Turns a `Value` of `serde_json` into a `Json`, variant by variant. A
/// number keeps what `Number::as_u64` gives; the members of an object come
/// in the order in which its map hands them out.
#[verifier::external_body]
fn json_from_value(value: &Value) -> Json {
    match value {
        Value::Null => Json::Null,
        Value::Bool(b) => Json::Bool(*b),
        Value::Number(n) => Json::Number(n.as_u64()),
        Value::String(s) => Json::Text(s.clone()),
        Value::Array(a) => Json::Array(a.iter().map(json_from_value).collect()),
        Value::Object(m) => Json::Object(
            m.iter().map(|(k, v)| (k.clone(), json_from_value(v))).collect(),
        ),
    }
}

/// Parses `text` with `serde_json::from_str`, as a `Value`. The contract
/// only gives the outcome its name: which texts are JSON, and what each of
/// them holds, is for `serde_json` to say.
#[verifier::external_body]
pub(crate) fn parse_json(text: &str) -> (r: Result<Json, serde_json::Error>)
    ensures
        match r {
            Ok(json) => json_parsed(text@) == Some(json@),
            Err(_) => json_parsed(text@).is_none(),
        },
{
    match serde_json::from_str::<Value>(text) {
        Ok(value) => Ok(json_from_value(&value)),
        Err(e) => Err(e),
    }
}

} // verus!
