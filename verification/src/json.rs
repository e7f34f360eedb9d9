//! JSON values as the request and configuration validators read them.
use vstd::prelude::*;
use vstd::string::StringExecFns;

verus! {

#[derive(Debug, PartialEq)]
/// A JSON number: its value when it is a non-negative integer that fits `u64`, and its
/// decimal text, which only presentation code interprets.
pub struct JsonNumber {
    pub unsigned: Option<u64>,
    pub text: String,
}

#[derive(Debug, PartialEq)]
/// A parsed JSON value. Object members are kept in key order, each key once.
pub enum Json {
    Null,
    Bool(bool),
    Number(JsonNumber),
    Str(String),
    Array(Vec<Json>),
    Object(Vec<(String, Json)>),
}

/// Index of the first member named `key`, or the member count.
pub open spec fn member_index(ms: Seq<(String, Json)>, key: Seq<char>) -> int
    decreases ms.len(),
{
    if ms.len() == 0 {
        0
    } else if member_index(ms.drop_last(), key) < ms.len() - 1 {
        member_index(ms.drop_last(), key)
    } else if ms.last().0@ == key {
        ms.len() - 1
    } else {
        ms.len() as int
    }
}

/// `member_index` is the first index naming `key`, or the count.
pub proof fn lemma_member_index(ms: Seq<(String, Json)>, key: Seq<char>)
    ensures
        0 <= member_index(ms, key) <= ms.len(),
        member_index(ms, key) < ms.len() ==> ms[member_index(ms, key)].0@ == key,
        forall|j: int| 0 <= j < member_index(ms, key) ==> (#[trigger] ms[j]).0@ != key,
    decreases ms.len(),
{
    if ms.len() > 0 {
        let d = ms.drop_last();
        lemma_member_index(d, key);
        assert forall|j: int| 0 <= j < member_index(ms, key) implies (#[trigger] ms[j]).0@ != key by {
            if j < d.len() {
                assert(d[j] == ms[j]);
            }
        }
    }
}

/// The member of an object named `key` (`Value::get`); `None` for a missing key or a non-object.
pub open spec fn get(v: Json, key: Seq<char>) -> Option<Json> {
    match v {
        Json::Object(ms) => {
            let i = member_index(ms@, key);
            if i < ms@.len() {
                Some(ms@[i].1)
            } else {
                None
            }
        },
        _ => None,
    }
}

/// The member named `key` unless it is missing or `null`.
pub open spec fn present(v: Json, key: Seq<char>) -> Option<Json> {
    match get(v, key) {
        Some(Json::Null) => None,
        other => other,
    }
}

impl Json {
    /// The member of an object named `key`.
    pub fn get(&self, key: &str) -> (r: Option<&Json>)
        ensures
            r matches Some(x) ==> get(*self, key@) == Some(*x),
            r is None ==> get(*self, key@) is None,
    {
        match self {
            Json::Object(ms) => {
                let k = String::from_str(key);
                let mut i: usize = 0;
                while i < ms.len() && !(ms[i].0 == k)
                    invariant
                        i <= ms@.len(),
                        k@ == key@,
                        forall|j: int| 0 <= j < i ==> (#[trigger] ms@[j]).0@ != key@,
                    decreases ms@.len() - i,
                {
                    i = i + 1;
                }
                proof {
                    lemma_member_index(ms@, key@);
                    if i < ms@.len() {
                        assert(ms@[i as int].0@ == key@);
                    }
                }
                if i < ms.len() {
                    Some(&ms[i].1)
                } else {
                    None
                }
            },
            _ => None,
        }
    }

    /// The member named `key` unless it is missing or `null`.
    pub fn present(&self, key: &str) -> (r: Option<&Json>)
        ensures
            r matches Some(x) ==> present(*self, key@) == Some(*x),
            r is None ==> present(*self, key@) is None,
    {
        match self.get(key) {
            Some(Json::Null) => None,
            other => other,
        }
    }

    /// The member of an object named `key`, moved out of the value.
    pub fn take_member(self, key: &str) -> (r: Option<Json>)
        ensures
            r == get(self, key@),
    {
        let ghost whole = self;
        match self {
            Json::Object(mut ms) => {
                let k = String::from_str(key);
                let mut i: usize = 0;
                while i < ms.len() && !(ms[i].0 == k)
                    invariant
                        i <= ms@.len(),
                        k@ == key@,
                        forall|j: int| 0 <= j < i ==> (#[trigger] ms@[j]).0@ != key@,
                    decreases ms@.len() - i,
                {
                    i = i + 1;
                }
                proof {
                    lemma_member_index(ms@, key@);
                    if i < ms@.len() {
                        assert(ms@[i as int].0@ == key@);
                    }
                }
                if i < ms.len() {
                    let (_, v) = ms.remove(i);
                    Some(v)
                } else {
                    None
                }
            },
            _ => None,
        }
    }

    /// Whether this is `null`.
    pub fn is_null(&self) -> (r: bool)
        ensures
            r == (*self is Null),
    {
        match self {
            Json::Null => true,
            _ => false,
        }
    }

    /// Whether this is an object.
    pub fn is_object(&self) -> (r: bool)
        ensures
            r == (*self is Object),
    {
        match self {
            Json::Object(_) => true,
            _ => false,
        }
    }

    /// The text of a string value.
    pub fn as_str(&self) -> (r: Option<&String>)
        ensures
            r matches Some(s) ==> *self == Json::Str(*s),
            r is None ==> !(*self is Str),
    {
        match self {
            Json::Str(s) => Some(s),
            _ => None,
        }
    }
}

/// What a JSON document decodes to: its value, or `None` when the bytes are not one JSON
/// document (serde_json's `from_slice` into its `Value`, read by `value_json`).
pub uninterp spec fn json_of(bytes: Seq<u8>) -> Option<Json>;

#[verifier::external_type_specification]
#[verifier::external_body]
pub struct ExJsonValue(serde_json::Value);

/// serde_json's value in the library's model, variant for variant; object members keep the
/// order in which serde_json hands them out.
#[verifier::external_body]
fn value_json(value: serde_json::Value) -> Json {
    match value {
        serde_json::Value::Null => Json::Null,
        serde_json::Value::Bool(b) => Json::Bool(b),
        serde_json::Value::Number(n) => Json::Number(JsonNumber { unsigned: n.as_u64(), text: n.to_string() }),
        serde_json::Value::String(s) => Json::Str(s),
        serde_json::Value::Array(items) => Json::Array(items.into_iter().map(value_json).collect()),
        serde_json::Value::Object(ms) => Json::Object(ms.into_iter().map(|(k, v)| (k, value_json(v))).collect()),
    }
}

/// Decode one JSON document with `serde_json::from_slice`. The result is named, not stated:
/// it is `json_of` of the bytes, so equal bytes decode alike; which texts are JSON is left to
/// serde_json.
#[verifier::external_body]
pub(crate) fn parse_json(bytes: &[u8]) -> (r: Option<Json>)
    ensures
        r == json_of(bytes@),
{
    serde_json::from_slice::<serde_json::Value>(bytes).ok().map(value_json)
}

} // verus!
