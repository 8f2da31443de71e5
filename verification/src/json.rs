//! JSON documents as trees, and the bridge to `serde_json`, which reads them.

use crate::record::ParseError;
use vstd::prelude::*;

verus! {

/// A JSON value as a mathematical tree. An object is the list of its members.
pub enum JsonValue {
    Null,
    Bool(bool),
    Number,
    Text(Seq<char>),
    List(Seq<JsonValue>),
    Object(Seq<(Seq<char>, JsonValue)>),
}

/// A JSON value. A number carries no payload: nothing here reads one.
#[derive(Debug, PartialEq, Eq)]
pub enum Json {
    Null,
    Bool(bool),
    Number,
    Text(String),
    List(Vec<Json>),
    Object(Vec<(String, Json)>),
}

impl View for Json {
    type V = JsonValue;

    /// The tests on `i` keep the recursion inside the value: only an item
    /// within the bounds is a part of `self`.
    open spec fn view(&self) -> JsonValue
        decreases self,
    {
        match self {
            Json::Null => JsonValue::Null,
            Json::Bool(b) => JsonValue::Bool(*b),
            Json::Number => JsonValue::Number,
            Json::Text(s) => JsonValue::Text(s@),
            Json::List(items) => JsonValue::List(
                Seq::new(
                    items@.len(),
                    |i: int|
                        if 0 <= i < items@.len() {
                            items@[i]@
                        } else {
                            JsonValue::Null
                        },
                ),
            ),
            Json::Object(fields) => JsonValue::Object(
                Seq::new(
                    fields@.len(),
                    |i: int|
                        (
                            fields@[i].0@,
                            if 0 <= i < fields@.len() {
                                fields@[i].1@
                            } else {
                                JsonValue::Null
                            },
                        ),
                ),
            ),
        }
    }
}

/// The value of the first of `fields` whose key is `key`.
pub open spec fn member(fields: Seq<(Seq<char>, JsonValue)>, key: Seq<char>) -> Option<
    JsonValue,
>
    decreases fields.len(),
{
    if fields.len() == 0 {
        None
    } else if fields[0].0 == key {
        Some(fields[0].1)
    } else {
        member(fields.drop_first(), key)
    }
}

impl JsonValue {
    /// The member `key` of an object; `None` for any other value, and for an
    /// object without that member.
    pub open spec fn member(self, key: Seq<char>) -> Option<JsonValue> {
        match self {
            JsonValue::Object(fields) => member(fields, key),
            _ => None,
        }
    }
}

/// Members that do not have the key can be passed over.
proof fn lemma_member_skips(fields: Seq<(Seq<char>, JsonValue)>, key: Seq<char>, n: int)
    requires
        0 <= n <= fields.len(),
        forall|i: int| 0 <= i < n ==> fields[i].0 != key,
    ensures
        member(fields, key) == member(fields.skip(n), key),
    decreases n,
{
    if n == 0 {
        assert(fields.skip(0) =~= fields);
    } else {
        lemma_member_skips(fields.drop_first(), key, n - 1);
        assert(fields.drop_first().skip(n - 1) =~= fields.skip(n));
    }
}

impl Json {
    /// The views of a list of values, in order.
    pub open spec fn views(values: Seq<Json>) -> Seq<JsonValue> {
        Seq::new(values.len(), |i: int| values[i]@)
    }

    /// Tells whether the value is an object.
    pub fn is_object(&self) -> (r: bool)
        ensures
            r == (self@ is Object),
    {
        match self {
            Json::Object(_) => true,
            _ => false,
        }
    }

    /// The text of a text value.
    pub fn as_text(&self) -> (r: Option<&String>)
        ensures
            match r {
                Some(text) => self@ == JsonValue::Text(text@),
                None => !(self@ is Text),
            },
    {
        match self {
            Json::Text(text) => Some(text),
            _ => None,
        }
    }

    /// The items of a list value.
    pub fn as_list(&self) -> (r: Option<&Vec<Json>>)
        ensures
            match r {
                Some(items) => self@ == JsonValue::List(Json::views(items@)),
                None => !(self@ is List),
            },
    {
        match self {
            Json::List(items) => {
                assert(self@->List_0 =~= Json::views(items@));
                Some(items)
            },
            _ => None,
        }
    }

    /// The member `key` of an object; `None` for any other value, and for an
    /// object without that member.
    pub fn member(&self, key: &str) -> (r: Option<&Json>)
        ensures
            match r {
                Some(value) => self@.member(key@) == Some(value@),
                None => self@.member(key@) is None,
            },
    {
        match self {
            Json::Object(fields) => {
                let wanted: String = key.to_owned();
                let ghost all = self@->Object_0;
                let mut i: usize = 0;
                while i < fields.len()
                    invariant
                        i <= fields@.len(),
                        wanted@ == key@,
                        self@ == JsonValue::Object(all),
                        all.len() == fields@.len(),
                        forall|k: int|
                            0 <= k < fields@.len() ==> #[trigger] all[k] == (
                                fields@[k].0@,
                                fields@[k].1@,
                            ),
                        forall|k: int| 0 <= k < i ==> all[k].0 != key@,
                    decreases fields@.len() - i,
                {
                    if fields[i].0 == wanted {
                        proof {
                            lemma_member_skips(all, key@, i as int);
                        }
                        return Some(&fields[i].1);
                    }
                    i += 1;
                }
                proof {
                    lemma_member_skips(all, key@, i as int);
                }
                None
            },
            _ => None,
        }
    }
}

/// `serde_json::Error`: why a text is no JSON document. Nothing here looks
/// inside one.
#[verifier::external_type_specification]
#[verifier::external_body]
pub struct ExJsonError(serde_json::Error);

/// `serde_json::Value`: a JSON value as `serde_json` holds it. It is taken
/// apart by `json_from_value` only.
#[verifier::external_type_specification]
#[verifier::external_body]
pub struct ExSerdeValue(serde_json::Value);

/// What `serde_json::from_str` makes of a text: the value it reads, or `None`
/// where it reports an error.
pub uninterp spec fn json_document(text: Seq<char>) -> Option<JsonValue>;

/// The tree that a `serde_json::Value` holds. The members of an object stand
/// in the order in which its map hands them out.
pub uninterp spec fn json_tree(value: serde_json::Value) -> JsonValue;

/// `serde_json::from_str` at the type `serde_json::Value`. The contract gives
/// the outcome its name: the tree of the value read, or nothing for an error.
#[verifier::external_body]
fn read_value(text: &str) -> (r: Result<serde_json::Value, serde_json::Error>)
    ensures
        match r {
            Ok(value) => json_document(text@) == Some(json_tree(value)),
            Err(_) => json_document(text@) is None,
        },
{
    serde_json::from_str::<serde_json::Value>(text)
}

/// Takes a `serde_json::Value` apart, variant by variant, and builds the same
/// tree as a `Json`. A number is kept as `Json::Number`, without its digits.
#[verifier::external_body]
fn json_from_value(value: serde_json::Value) -> (r: Json)
    ensures
        r@ == json_tree(value),
{
    match value {
        serde_json::Value::Null => Json::Null,
        serde_json::Value::Bool(b) => Json::Bool(b),
        serde_json::Value::Number(_) => Json::Number,
        serde_json::Value::String(s) => Json::Text(s),
        serde_json::Value::Array(items) => Json::List(
            items.into_iter().map(json_from_value).collect(),
        ),
        serde_json::Value::Object(fields) => Json::Object(
            fields.into_iter().map(|(k, v)| (k, json_from_value(v))).collect(),
        ),
    }
}

/// Reads `text` as one JSON document.
pub fn decode(text: &str) -> (r: Result<Json, ParseError>)
    ensures
        match r {
            Ok(doc) => json_document(text@) == Some(doc@),
            Err(error) => json_document(text@) is None && error == ParseError::MalformedDocument,
        },
{
    match read_value(text) {
        Ok(value) => Ok(json_from_value(value)),
        Err(_) => Err(ParseError::MalformedDocument),
    }
}

} // verus!
