//! A JSON document as plain values, and the lookups the bridge makes in one.
use vstd::prelude::*;
use crate::text::str_equal;

verus! {

/// A JSON value. Numbers keep their source text; object members keep their order, and
/// a key names at most one member.
pub enum JsonValue {
    Null,
    Bool(bool),
    Number(String),
    Str(String),
    Array(Vec<JsonValue>),
    Object(Vec<(String, JsonValue)>),
}

/// The value of the first member named `key`, or `Null` when there is none.
pub open spec fn field_of(fields: Seq<(String, JsonValue)>, key: Seq<char>) -> JsonValue
    decreases fields.len(),
{
    if fields.len() == 0 {
        JsonValue::Null
    } else if fields[0].0@ == key {
        fields[0].1
    } else {
        field_of(fields.drop_first(), key)
    }
}

/// `v[key]`: the member `key` of an object, `Null` for anything else.
pub open spec fn json_get(v: JsonValue, key: Seq<char>) -> JsonValue {
    match v {
        JsonValue::Object(fields) => field_of(fields@, key),
        _ => JsonValue::Null,
    }
}

/// The text of a JSON string.
pub open spec fn json_str(v: JsonValue) -> Option<Seq<char>> {
    match v {
        JsonValue::Str(s) => Some(s@),
        _ => None,
    }
}

/// The elements of a JSON array.
pub open spec fn json_array(v: JsonValue) -> Option<Seq<JsonValue>> {
    match v {
        JsonValue::Array(items) => Some(items@),
        _ => None,
    }
}

/// The member `key` of an object; `None` stands for `Null`.
pub fn get<'a>(v: &'a JsonValue, key: &str) -> (r: Option<&'a JsonValue>)
    ensures
        match r {
            Some(x) => *x == json_get(*v, key@),
            None => json_get(*v, key@) == JsonValue::Null,
        },
{
    match v {
        JsonValue::Object(fields) => {
            let mut i: usize = 0;
            assert(fields@.skip(0) =~= fields@);
            while i < fields.len()
                invariant
                    i <= fields@.len(),
                    json_get(*v, key@) == field_of(fields@, key@),
                    field_of(fields@, key@) == field_of(fields@.skip(i as int), key@),
                decreases fields@.len() - i,
            {
                assert(fields@.skip(i as int)[0] == fields@[i as int]);
                assert(fields@.skip(i as int).drop_first() =~= fields@.skip(i + 1));
                if str_equal(fields[i].0.as_str(), key) {
                    assert(fields@.skip(i as int).len() > 0);
                    assert(field_of(fields@.skip(i as int), key@) == fields@[i as int].1);
                    return Some(&fields[i].1);
                }
                i = i + 1;
            }
            assert(fields@.skip(i as int) =~= Seq::<(String, JsonValue)>::empty());
            None
        },
        _ => None,
    }
}

/// The text of a JSON string.
pub fn as_str(v: &JsonValue) -> (r: Option<&str>)
    ensures
        match r {
            Some(s) => json_str(*v) == Some(s@),
            None => json_str(*v) is None,
        },
{
    match v {
        JsonValue::Str(s) => Some(s.as_str()),
        _ => None,
    }
}

/// The text of `v[key]` when it is a string.
pub fn get_str<'a>(v: &'a JsonValue, key: &str) -> (r: Option<&'a str>)
    ensures
        match r {
            Some(s) => json_str(json_get(*v, key@)) == Some(s@),
            None => json_str(json_get(*v, key@)) is None,
        },
{
    match get(v, key) {
        Some(x) => as_str(x),
        None => None,
    }
}

/// The elements of a JSON array.
pub fn as_array(v: &JsonValue) -> (r: Option<&Vec<JsonValue>>)
    ensures
        match r {
            Some(items) => json_array(*v) == Some(items@),
            None => json_array(*v) is None,
        },
{
    match v {
        JsonValue::Array(items) => Some(items),
        _ => None,
    }
}

/// A JSON document as `serde_json` parses it.
#[verifier::external_type_specification]
#[verifier::external_body]
pub struct ExJsonDocument(serde_json::Value);

/// The lower-case hexadecimal digit of `d` (below 16).
pub open spec fn hex_lower(d: nat) -> char {
    if d < 10 {
        (48 + d) as char
    } else {
        (87 + d) as char
    }
}

/// How JSON writes one character inside a string literal: quotes, backslashes and
/// control characters escaped, everything else as it is.
pub open spec fn json_escape(c: char) -> Seq<char> {
    if c == '"' {
        seq!['\\', '"']
    } else if c == '\\' {
        seq!['\\', '\\']
    } else if c == '\n' {
        seq!['\\', 'n']
    } else if c == '\r' {
        seq!['\\', 'r']
    } else if c == '\t' {
        seq!['\\', 't']
    } else if (c as u32) < 0x20 {
        seq!['\\', 'u', '0', '0', hex_lower((c as u32 / 16) as nat), hex_lower((c as u32 % 16) as nat)]
    } else {
        seq![c]
    }
}

/// The characters of `s`, each written as JSON writes it inside a string literal.
pub open spec fn json_escaped(s: Seq<char>) -> Seq<char>
    decreases s.len(),
{
    if s.len() == 0 {
        Seq::empty()
    } else {
        json_escaped(s.drop_last()) + json_escape(s.last())
    }
}

/// The JSON string literal of `s`.
pub open spec fn json_string_literal(s: Seq<char>) -> Seq<char> {
    seq!['"'] + json_escaped(s) + seq!['"']
}

/// `text` is the JSON string literal of some string.
pub open spec fn is_string_literal(text: Seq<char>) -> bool {
    exists|s: Seq<char>| text == #[trigger] json_string_literal(s)
}

/// What `serde_json::from_str` parses `text` into: the document, or the text of the error.
pub uninterp spec fn parsed_json(text: Seq<char>) -> Result<JsonValue, Seq<char>>;

/// Takes a `serde_json` document over into a `JsonValue`, variant for variant, numbers
/// by their text.
#[verifier::external_body]
fn from_document(v: serde_json::Value) -> JsonValue {
    match v {
        serde_json::Value::Null => JsonValue::Null,
        serde_json::Value::Bool(b) => JsonValue::Bool(b),
        serde_json::Value::Number(n) => JsonValue::Number(n.to_string()),
        serde_json::Value::String(s) => JsonValue::Str(s),
        serde_json::Value::Array(a) => JsonValue::Array(a.into_iter().map(from_document).collect()),
        serde_json::Value::Object(m) => JsonValue::Object(m.into_iter().map(|(k, x)| (k, from_document(x))).collect()),
    }
}

/// `serde_json::from_str` into a document, taken over as a `JsonValue`. The contract
/// names its result (the document, or the error's text), and states what JSON's grammar
/// fixes of it for a string literal: the string it writes, with its escapes decoded.
/// Of other documents it says nothing more than the name.
#[verifier::external_body]
pub(crate) fn parse_json(text: &str) -> (r: Result<JsonValue, String>)
    ensures
        match r {
            Ok(v) => parsed_json(text@) == Ok::<JsonValue, Seq<char>>(v),
            Err(e) => parsed_json(text@) == Err::<JsonValue, Seq<char>>(e@),
        },
        match r {
            Ok(JsonValue::Str(t)) => is_string_literal(text@) ==> json_string_literal(t@) == text@,
            _ => !is_string_literal(text@),
        },
{
    match serde_json::from_str::<serde_json::Value>(text) {
        Ok(v) => Ok(from_document(v)),
        Err(e) => Err(e.to_string()),
    }
}

} // verus!
