//! Shared response envelopes for worker validation and GTK command completion.
use crate::json::Json;
use crate::text::{utf8_len, utf8_size};
use vstd::prelude::*;
use vstd::string::StringExecFns;

verus! {

/// Maximum encoded response bytes, including its line delimiter.
pub const MAX_RESPONSE_BYTES: usize = 4194304;

/// Whether `v` is an object whose members are exactly `keys` paired with `values`, in order.
pub open spec fn object_of(v: Json, keys: Seq<Seq<char>>, values: Seq<Json>) -> bool {
    v matches Json::Object(ms) && ms@.len() == keys.len() && keys.len() == values.len() && forall|i: int|
        0 <= i < keys.len() ==> (#[trigger] ms@[i]).0@ == keys[i] && ms@[i].1 == values[i]
}

/// Move the request identity and result into a successful protocol response.
pub fn ok(req_id: Json, result: Json) -> (r: Json)
    ensures
        object_of(r, seq!["id"@, "ok"@, "result"@], seq![req_id, Json::Bool(true), result]),
{
    let ghost (i, o) = (req_id, result);
    let mut ms: Vec<(String, Json)> = Vec::new();
    ms.push((String::from_str("id"), req_id));
    ms.push((String::from_str("ok"), Json::Bool(true)));
    ms.push((String::from_str("result"), result));
    let r = Json::Object(ms);
    assert(object_of(r, seq!["id"@, "ok"@, "result"@], seq![i, Json::Bool(true), o]));
    r
}

/// Whether `v` is a string with the text `t`.
pub open spec fn text_is(v: Json, t: Seq<char>) -> bool {
    match v {
        Json::Str(s) => s@ == t,
        _ => false,
    }
}

/// Whether `d` is the error detail `{"code": code, "message": message}`.
pub open spec fn error_detail(d: Json, code: Seq<char>, message: Seq<char>) -> bool {
    match d {
        Json::Object(es) => es@.len() == 2 && es@[0].0@ == "code"@ && text_is(es@[0].1, code)
            && es@[1].0@ == "message"@ && text_is(es@[1].1, message),
        _ => false,
    }
}

/// Whether `r` is the failed response `{"error": detail, "id": id, "ok": false}`.
pub open spec fn error_response(r: Json, id: Json, code: Seq<char>, message: Seq<char>) -> bool {
    match r {
        Json::Object(ms) => ms@.len() == 3 && ms@[0].0@ == "error"@ && error_detail(ms@[0].1, code, message)
            && ms@[1].0@ == "id"@ && ms@[1].1 == id && ms@[2].0@ == "ok"@ && ms@[2].1 == Json::Bool(false),
        _ => false,
    }
}

/// Build a failed response, preserving request identity and copying public error details.
pub fn err(req_id: Json, code: &str, message: &str) -> (r: Json)
    ensures
        error_response(r, req_id, code@, message@),
{
    let mut detail: Vec<(String, Json)> = Vec::new();
    detail.push((String::from_str("code"), Json::Str(String::from_str(code))));
    detail.push((String::from_str("message"), Json::Str(String::from_str(message))));
    let mut ms: Vec<(String, Json)> = Vec::new();
    ms.push((String::from_str("error"), Json::Object(detail)));
    ms.push((String::from_str("id"), req_id));
    ms.push((String::from_str("ok"), Json::Bool(false)));
    Json::Object(ms)
}

/// Return a small valid error when even the echoed identity exceeds the response budget.
pub fn fallback_error() -> (s: &'static str)
    ensures
        s@ == "{\"id\":null,\"ok\":false,\"error\":{\"code\":\"response_too_large\",\"message\":\"response exceeds encoded byte limit\"}}"@,
{
    "{\"id\":null,\"ok\":false,\"error\":{\"code\":\"response_too_large\",\"message\":\"response exceeds encoded byte limit\"}}"
}

/// The text of `fallback_error`.
pub open spec fn fallback_text() -> Seq<char> {
    "{\"id\":null,\"ok\":false,\"error\":{\"code\":\"response_too_large\",\"message\":\"response exceeds encoded byte limit\"}}"@
}

/// Whether an encoding succeeded and leaves room for the line delimiter within
/// `MAX_RESPONSE_BYTES`.
pub open spec fn fits(encoded: Option<String>) -> bool {
    encoded matches Some(t) && utf8_len(t@) < MAX_RESPONSE_BYTES
}

/// The line body to send for a response: its encoding when that fits the budget, otherwise the
/// encoding of its correlated `response_too_large` error when that fits, otherwise
/// `fallback_error`. `None` stands for an encoding that failed.
pub fn response_body(encoded: Option<String>, fallback: Option<String>) -> (r: String)
    ensures
        r@ == if fits(encoded) {
            encoded->0@
        } else if fits(fallback) {
            fallback->0@
        } else {
            fallback_text()
        },
{
    if let Some(text) = encoded {
        if utf8_size(text.as_str()) < MAX_RESPONSE_BYTES {
            return text;
        }
    }
    if let Some(text) = fallback {
        if utf8_size(text.as_str()) < MAX_RESPONSE_BYTES {
            return text;
        }
    }
    String::from_str(fallback_error())
}

} // verus!
