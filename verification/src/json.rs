//! JSON documents as plain data, read with `serde_json`.
use vstd::prelude::*;
use crate::text::str_eq;

verus! {

/// A JSON value: null, a boolean, a number (as `serde_json` writes it), a
/// string, an array, or an object with its members in order.
#[derive(Debug)]
pub enum JsonValue {
    Null,
    Bool(bool),
    Number(String),
    Str(String),
    Array(Vec<JsonValue>),
    Object(Vec<(String, JsonValue)>),
}

/// The plain value of a [`JsonValue`].
pub enum JsonData {
    Null,
    Bool(bool),
    Number(Seq<char>),
    Str(Seq<char>),
    Array(Seq<JsonData>),
    Object(Seq<(Seq<char>, JsonData)>),
}

/// The plain value of a JSON value.
pub open spec fn json_view(j: JsonValue) -> JsonData
    decreases j,
{
    match j {
        JsonValue::Null => JsonData::Null,
        JsonValue::Bool(b) => JsonData::Bool(b),
        JsonValue::Number(n) => JsonData::Number(n@),
        JsonValue::Str(s) => JsonData::Str(s@),
        JsonValue::Array(items) => JsonData::Array(items_view(items@)),
        JsonValue::Object(members) => JsonData::Object(members_view(members@)),
    }
}

/// The plain values of array items, in order.
pub open spec fn items_view(s: Seq<JsonValue>) -> Seq<JsonData>
    decreases s,
{
    if s.len() == 0 {
        Seq::empty()
    } else {
        items_view(s.drop_last()).push(json_view(s.last()))
    }
}

/// The plain values of object members, in order.
pub open spec fn members_view(s: Seq<(String, JsonValue)>) -> Seq<(Seq<char>, JsonData)>
    decreases s,
{
    if s.len() == 0 {
        Seq::empty()
    } else {
        members_view(s.drop_last()).push((s.last().0@, json_view(s.last().1)))
    }
}

pub proof fn lemma_items_view(s: Seq<JsonValue>)
    ensures
        items_view(s).len() == s.len(),
        forall|i: int| 0 <= i < s.len() ==> #[trigger] items_view(s)[i] == json_view(s[i]),
    decreases s.len(),
{
    if s.len() > 0 {
        lemma_items_view(s.drop_last());
    }
}

pub proof fn lemma_members_view(s: Seq<(String, JsonValue)>)
    ensures
        members_view(s).len() == s.len(),
        forall|i: int|
            0 <= i < s.len() ==> #[trigger] members_view(s)[i] == (s[i].0@, json_view(s[i].1)),
    decreases s.len(),
{
    if s.len() > 0 {
        lemma_members_view(s.drop_last());
    }
}

/// The position of the first member named `key`, looking from `from` on.
pub open spec fn member_index(ms: Seq<(Seq<char>, JsonData)>, key: Seq<char>, from: nat) -> Option<int>
    decreases ms.len() - from,
{
    if from >= ms.len() {
        None
    } else if ms[from as int].0 == key {
        Some(from as int)
    } else {
        member_index(ms, key, from + 1)
    }
}

/// The value of the member `key` of an object (the first one of that name);
/// none for a value that is not an object or has no such member.
pub open spec fn member(d: JsonData, key: Seq<char>) -> Option<JsonData> {
    match d {
        JsonData::Object(ms) => match member_index(ms, key, 0) {
            Some(i) => Some(ms[i].1),
            None => None,
        },
        _ => None,
    }
}

/// The position of the first member of `members` named `key`.
pub fn find_member(members: &Vec<(String, JsonValue)>, key: &str) -> (r: Option<usize>)
    ensures
        match r {
            Some(i) => member_index(members_view(members@), key@, 0) == Some(i as int),
            None => member_index(members_view(members@), key@, 0) is None,
        },
        r matches Some(i) ==> i < members@.len() && members@[i as int].0@ == key@,
{
    let ghost mv = members_view(members@);
    proof {
        lemma_members_view(members@);
    }
    let n = members.len();
    let mut i: usize = 0;
    while i < n
        invariant
            n == members@.len(),
            mv == members_view(members@),
            mv.len() == n,
            i <= n,
            forall|k: int| 0 <= k < n ==> #[trigger] mv[k] == (members@[k].0@, json_view(members@[k].1)),
            member_index(mv, key@, 0) == member_index(mv, key@, i as nat),
        decreases n - i,
    {
        if str_eq(members[i].0.as_str(), key) {
            assert(mv[i as int].0 == key@);
            return Some(i);
        }
        assert(mv[i as int].0 != key@);
        i = i + 1;
    }
    None
}

impl Clone for JsonValue {
    /// A copy with the same plain value.
    fn clone(&self) -> (r: Self)
        ensures
            json_view(r) == json_view(*self),
    {
        clone_json(self)
    }
}

/// A copy of a JSON value.
pub fn clone_json(j: &JsonValue) -> (r: JsonValue)
    ensures
        json_view(r) == json_view(*j),
    decreases j,
{
    match j {
        JsonValue::Null => JsonValue::Null,
        JsonValue::Bool(b) => JsonValue::Bool(*b),
        JsonValue::Number(n) => JsonValue::Number(n.clone()),
        JsonValue::Str(s) => JsonValue::Str(s.clone()),
        JsonValue::Array(items) => JsonValue::Array(clone_items(items)),
        JsonValue::Object(members) => JsonValue::Object(clone_members(members)),
    }
}

/// A copy of an array's items.
pub fn clone_items(items: &Vec<JsonValue>) -> (r: Vec<JsonValue>)
    ensures
        items_view(r@) == items_view(items@),
    decreases items,
{
    let mut out: Vec<JsonValue> = Vec::new();
    let n = items.len();
    for i in 0..n
        invariant
            n == items@.len(),
            items_view(out@) == items_view(items@.take(i as int)),
    {
        proof {
            assert(decreases_to!(*items => items@[i as int]));
        }
        let c = clone_json(&items[i]);
        proof {
            assert(items@.take(i + 1).drop_last() =~= items@.take(i as int));
            assert(out@.push(c).drop_last() =~= out@);
        }
        out.push(c);
    }
    assert(items@.take(n as int) =~= items@);
    out
}

/// A copy of an object's members.
pub fn clone_members(members: &Vec<(String, JsonValue)>) -> (r: Vec<(String, JsonValue)>)
    ensures
        members_view(r@) == members_view(members@),
    decreases members,
{
    let mut out: Vec<(String, JsonValue)> = Vec::new();
    let n = members.len();
    for i in 0..n
        invariant
            n == members@.len(),
            members_view(out@) == members_view(members@.take(i as int)),
    {
        proof {
            assert(decreases_to!(*members => members@[i as int].1));
        }
        let v = clone_json(&members[i].1);
        let entry = (members[i].0.clone(), v);
        proof {
            assert(members@.take(i + 1).drop_last() =~= members@.take(i as int));
            assert(out@.push(entry).drop_last() =~= out@);
        }
        out.push(entry);
    }
    assert(members@.take(n as int) =~= members@);
    out
}

/// `serde_json::Value`, held opaque.
#[verifier::external_type_specification]
#[verifier::external_body]
pub struct ExSerdeJsonValue(serde_json::Value);

/// The JSON document that `text` holds as `serde_json` parses it, or the
/// parser's message when `text` is not JSON.
pub uninterp spec fn json_document(text: Seq<char>) -> Result<JsonData, Seq<char>>;

/// Wrapper of `serde_json::from_str::<serde_json::Value>`: the parsed document
/// copied one for one into a [`JsonValue`], or the parser's error rendered as
/// text.  The contract names the outcome as a function of the text alone.
#[verifier::external_body]
pub(crate) fn parse_json(text: &str) -> (r: Result<JsonValue, String>)
    ensures
        json_document(text@) == match r {
            Ok(j) => Ok(json_view(j)),
            Err(m) => Err(m@),
        },
{
    match serde_json::from_str::<serde_json::Value>(text) {
        Ok(v) => Ok(json_from_serde(&v)),
        Err(e) => Err(e.to_string()),
    }
}

/// The copy that [`parse_json`] makes: each `serde_json::Value` variant
/// becomes the [`JsonValue`] variant of the same name, a number its text, an
/// object its members in the map's order.  It is a function of its own only
/// because the copy recurses into arrays and objects.
#[verifier::external_body]
fn json_from_serde(v: &serde_json::Value) -> JsonValue {
    match v {
        serde_json::Value::Null => JsonValue::Null,
        serde_json::Value::Bool(b) => JsonValue::Bool(*b),
        serde_json::Value::Number(n) => JsonValue::Number(n.to_string()),
        serde_json::Value::String(s) => JsonValue::Str(s.clone()),
        serde_json::Value::Array(a) => JsonValue::Array(a.iter().map(json_from_serde).collect()),
        serde_json::Value::Object(o) => JsonValue::Object(
            o.iter().map(|(k, x)| (k.clone(), json_from_serde(x))).collect(),
        ),
    }
}

} // verus!
