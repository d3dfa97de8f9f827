//! Turning the payload of one streamed event into a per-site reply.
//!
//! The payload is a JSON object `{ "from": <site>, "body": <result> }`, where
//! the result carries no tag: it is a success when it has a `response` field of
//! the expected shape, and otherwise a failure when it has an integer
//! `status_code` and a string `error_message`. Anything else is undecodable:
//! such a frame is kept as `Malformed` and skipped by every policy.
use vstd::prelude::*;
use crate::aggregate::{Frame, SiteReply};
use crate::enums::OpalResponse;

verus! {

/// A JSON value, as far as replies are read.
pub enum JsonValue {
    Null,
    Bool(bool),
    Integer(i64),
    /// A number with a fraction or outside the range of `i64`.
    OtherNumber,
    Text(String),
    Array(Vec<JsonValue>),
    Object(Vec<(String, JsonValue)>),
}

/// The value of the first field named `key`.
pub open spec fn first_field(fields: Seq<(String, JsonValue)>, key: Seq<char>) -> Option<JsonValue>
    decreases fields.len(),
{
    if fields.len() == 0 {
        None
    } else if fields[0].0@ == key {
        Some(fields[0].1)
    } else {
        first_field(fields.drop_first(), key)
    }
}

/// The field `key` of an object.
pub open spec fn field(v: JsonValue, key: Seq<char>) -> Option<JsonValue> {
    match v {
        JsonValue::Object(fields) => first_field(fields@, key),
        _ => None,
    }
}

pub open spec fn as_text(v: Option<JsonValue>) -> Option<String> {
    match v {
        Some(JsonValue::Text(s)) => Some(s),
        _ => None,
    }
}

pub open spec fn as_status(v: Option<JsonValue>) -> Option<i32> {
    match v {
        Some(JsonValue::Integer(n)) => if i32::MIN <= n <= i32::MAX {
            Some(n as i32)
        } else {
            None
        },
        _ => None,
    }
}

/// An array whose items are all strings.
pub open spec fn as_text_list(v: Option<JsonValue>) -> Option<Seq<String>> {
    match v {
        Some(JsonValue::Array(items)) => if forall|i: int|
            0 <= i < items@.len() ==> (#[trigger] items@[i]) is Text {
            Some(items@.map_values(|x: JsonValue| x->Text_0))
        } else {
            None
        },
        _ => None,
    }
}

/// The failure shape of a result, if it has it.
pub open spec fn failure_body<T>(v: JsonValue) -> Option<OpalResponse<T>> {
    match (as_status(field(v, "status_code"@)), as_text(field(v, "error_message"@))) {
        (Some(code), Some(msg)) => Some(OpalResponse::Failure { status_code: code, error_message: msg }),
        _ => None,
    }
}

/// A result whose success payload is one string.
pub open spec fn text_body(v: JsonValue) -> Option<OpalResponse<String>> {
    match as_text(field(v, "response"@)) {
        Some(s) => Some(OpalResponse::Success { response: s }),
        None => failure_body(v),
    }
}

/// A result whose success payload is a list of strings, seen through the
/// list's contents.
pub open spec fn list_body(v: JsonValue) -> Option<OpalResponse<Seq<String>>> {
    match as_text_list(field(v, "response"@)) {
        Some(l) => Some(OpalResponse::Success { response: l }),
        None => failure_body(v),
    }
}

pub open spec fn list_body_view(b: OpalResponse<Vec<String>>) -> OpalResponse<Seq<String>> {
    match b {
        OpalResponse::Success { response } => OpalResponse::Success { response: response@ },
        OpalResponse::Failure { status_code, error_message } => OpalResponse::Failure {
            status_code,
            error_message,
        },
    }
}

fn lookup<'a>(v: &'a JsonValue, key: &str) -> (r: Option<&'a JsonValue>)
    ensures
        r matches Some(x) ==> field(*v, key@) == Some(*x),
        r is None ==> field(*v, key@) is None,
{
    match *v {
        JsonValue::Object(ref fields) => {
            let k = key.to_owned();
            let mut i: usize = 0;
            assert(fields@.skip(0) =~= fields@);
            while i < fields.len()
                invariant
                    0 <= i <= fields.len(),
                    k@ == key@,
                    *v == JsonValue::Object(*fields),
                    first_field(fields@, key@) == first_field(fields@.skip(i as int), key@),
                decreases fields.len() - i,
            {
                assert(fields@.skip(i as int).drop_first() =~= fields@.skip(i + 1));
                assert(fields@.skip(i as int)[0] == fields@[i as int]);
                if fields[i].0 == k {
                    assert(first_field(fields@.skip(i as int), key@) == Some(fields@[i as int].1));
                    return Some(&fields[i].1);
                }
                i = i + 1;
            }
            None
        },
        _ => None,
    }
}

fn read_text(v: Option<&JsonValue>) -> (r: Option<String>)
    ensures
        r == as_text(match v {
            Some(x) => Some(*x),
            None => None,
        }),
{
    match v {
        Some(JsonValue::Text(s)) => Some(s.clone()),
        _ => None,
    }
}

fn read_status(v: Option<&JsonValue>) -> (r: Option<i32>)
    ensures
        r == as_status(match v {
            Some(x) => Some(*x),
            None => None,
        }),
{
    match v {
        Some(JsonValue::Integer(n)) => if i32::MIN as i64 <= *n && *n <= i32::MAX as i64 {
            Some(*n as i32)
        } else {
            None
        },
        _ => None,
    }
}

fn read_text_list(v: Option<&JsonValue>) -> (r: Option<Vec<String>>)
    ensures
        match r {
            Some(l) => as_text_list(match v {
                Some(x) => Some(*x),
                None => None,
            }) == Some(l@),
            None => as_text_list(match v {
                Some(x) => Some(*x),
                None => None,
            }) is None,
        },
{
    match v {
        Some(JsonValue::Array(items)) => {
            let mut out: Vec<String> = Vec::new();
            let mut i: usize = 0;
            while i < items.len()
                invariant
                    0 <= i <= items.len(),
                    out@.len() == i,
                    v == Some(&JsonValue::Array(*items)),
                    forall|j: int| 0 <= j < i ==> (#[trigger] items@[j]) is Text && out@[j] == items@[j]->Text_0,
                decreases items.len() - i,
            {
                match &items[i] {
                    JsonValue::Text(s) => out.push(s.clone()),
                    _ => {
                        assert(!(items@[i as int] is Text));
                        assert(as_text_list(Some(JsonValue::Array(*items))) is None);
                        return None;
                    },
                }
                i = i + 1;
            }
            assert(out@ =~= items@.map_values(|x: JsonValue| x->Text_0));
            Some(out)
        },
        _ => None,
    }
}

fn read_failure<T>(v: &JsonValue) -> (r: Option<OpalResponse<T>>)
    ensures
        r == failure_body::<T>(*v),
{
    let code = read_status(lookup(v, "status_code"));
    let msg = read_text(lookup(v, "error_message"));
    match (code, msg) {
        (Some(c), Some(m)) => Some(OpalResponse::Failure { status_code: c, error_message: m }),
        _ => None,
    }
}

/// Decodes a result whose success payload is one string.
pub fn decode_text_body(v: &JsonValue) -> (r: Option<OpalResponse<String>>)
    ensures
        r == text_body(*v),
{
    match read_text(lookup(v, "response")) {
        Some(s) => Some(OpalResponse::Success { response: s }),
        None => read_failure(v),
    }
}

/// Decodes a result whose success payload is a list of strings.
pub fn decode_list_body(v: &JsonValue) -> (r: Option<OpalResponse<Vec<String>>>)
    ensures
        match r {
            Some(b) => list_body(*v) == Some(list_body_view(b)),
            None => list_body(*v) is None,
        },
{
    match read_text_list(lookup(v, "response")) {
        Some(l) => Some(OpalResponse::Success { response: l }),
        None => read_failure(v),
    }
}

/// The reply a payload holds, when its result carries one string.
pub open spec fn text_reply(v: JsonValue) -> Option<SiteReply<String>> {
    match (as_text(field(v, "from"@)), field(v, "body"@)) {
        (Some(site), Some(b)) => match text_body(b) {
            Some(body) => Some(SiteReply { from: site, body }),
            None => None,
        },
        _ => None,
    }
}

/// The text used for a payload that cannot be decoded.
pub open spec fn undecodable_text() -> Seq<char> {
    "Failed to deserialize message into a result"@
}

/// Turns the payload of a message event into a frame for a policy whose
/// results carry one string. `None` stands for a payload that is not JSON.
pub fn decode_text_frame(payload: Option<&JsonValue>) -> (r: Frame<String>)
    ensures
        match payload {
            Some(v) => match text_reply(*v) {
                Some(rep) => r == Frame::Reply(rep),
                None => r matches Frame::Malformed(m) && m@ == undecodable_text(),
            },
            None => r matches Frame::Malformed(m) && m@ == undecodable_text(),
        },
{
    if let Some(v) = payload {
        let site = read_text(lookup(v, "from"));
        if let (Some(s), Some(b)) = (site, lookup(v, "body")) {
            if let Some(body) = decode_text_body(b) {
                return Frame::Reply(SiteReply { from: s, body });
            }
        }
    }
    Frame::Malformed(String::from_str("Failed to deserialize message into a result"))
}

/// Turns the payload of a message event into a frame for a policy whose
/// results carry a list of strings. `None` stands for a payload that is not
/// JSON.
pub fn decode_list_frame(payload: Option<&JsonValue>) -> (r: Frame<Vec<String>>)
    ensures
        match payload {
            Some(v) => match (as_text(field(*v, "from"@)), field(*v, "body"@)) {
                (Some(site), Some(b)) if list_body(b) is Some => r matches Frame::Reply(rep) && rep.from
                    == site && list_body(b) == Some(list_body_view(rep.body)),
                _ => r matches Frame::Malformed(m) && m@ == undecodable_text(),
            },
            None => r matches Frame::Malformed(m) && m@ == undecodable_text(),
        },
{
    if let Some(v) = payload {
        let site = read_text(lookup(v, "from"));
        if let (Some(s), Some(b)) = (site, lookup(v, "body")) {
            if let Some(body) = decode_list_body(b) {
                return Frame::Reply(SiteReply { from: s, body });
            }
        }
    }
    Frame::Malformed(String::from_str("Failed to deserialize message into a result"))
}

} // verus!
