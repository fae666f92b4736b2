//! The JSON values that log lines carry, held as plain data.
use serde_json::Value;
use vstd::prelude::*;

verus! {

/// A JSON number as `serde_json` keeps it: a non-negative integer, a
/// negative integer, or a floating-point number (whose value the viewer
/// never reads).
#[derive(Debug, Clone, Copy, PartialEq, Eq)]
pub enum JsonNumber {
    PosInt(u64),
    NegInt(i64),
    Float,
}

/// A JSON value. Object members keep the order in which the parser hands
/// them out.
#[derive(Debug)]
pub enum JsonValue {
    Null,
    Bool(bool),
    Number(JsonNumber),
    Str(String),
    Array(Vec<JsonValue>),
    Object(Vec<(String, JsonValue)>),
}

impl JsonNumber {
    /// `Number::as_u64`: the value when it is a non-negative integer.
    pub open spec fn spec_as_u64(self) -> Option<u64> {
        match self {
            JsonNumber::PosInt(u) => Some(u),
            _ => None,
        }
    }

    /// `Number::as_i64`: the value when it is an integer that fits in `i64`.
    pub open spec fn spec_as_i64(self) -> Option<i64> {
        match self {
            JsonNumber::PosInt(u) => if u <= i64::MAX {
                Some(u as i64)
            } else {
                None
            },
            JsonNumber::NegInt(i) => Some(i),
            JsonNumber::Float => None,
        }
    }
}

/// The member of an object's entries with the given key, the first one
/// where several share it.
pub open spec fn entries_get(entries: Seq<(String, JsonValue)>, key: Seq<char>) -> Option<
    JsonValue,
>
    decreases entries.len(),
{
    if entries.len() == 0 {
        None
    } else if entries[0].0@ == key {
        Some(entries[0].1)
    } else {
        entries_get(entries.drop_first(), key)
    }
}

/// `Value::get` with a string index: the member of an object, nothing for
/// any other value.
pub open spec fn spec_get_key(v: JsonValue, key: Seq<char>) -> Option<JsonValue> {
    match v {
        JsonValue::Object(entries) => entries_get(entries@, key),
        _ => None,
    }
}

/// Looks up `key` among the members of `v` when `v` is an object.
pub fn get_key<'a>(v: &'a JsonValue, key: &String) -> (r: Option<&'a JsonValue>)
    ensures
        r matches Some(x) ==> spec_get_key(*v, key@) == Some(*x),
        r is None ==> spec_get_key(*v, key@) is None,
{
    match v {
        JsonValue::Object(entries) => {
            let mut i: usize = 0;
            assert(entries@.skip(0) =~= entries@);
            while i < entries.len()
                invariant
                    i <= entries.len(),
                    spec_get_key(*v, key@) == entries_get(entries@, key@),
                    entries_get(entries@, key@) == entries_get(entries@.skip(i as int), key@),
                decreases entries.len() - i,
            {
                assert(entries@.skip(i as int)[0] == entries@[i as int]);
                assert(entries@.skip(i as int).drop_first() =~= entries@.skip(i + 1));
                if entries[i].0 == *key {
                    return Some(&entries[i].1);
                }
                i = i + 1;
            }
            assert(entries@.skip(i as int).len() == 0);
            None
        },
        _ => None,
    }
}

/// What `serde_json::from_str::<serde_json::Value>` makes of a text: the
/// value when the text is one JSON document, nothing otherwise.
pub uninterp spec fn json_parse(text: Seq<char>) -> Option<JsonValue>;

/// Parses `text` with `serde_json::from_str::<serde_json::Value>` and hands
/// the value out as a [`JsonValue`]; a parse error gives `None`. The grammar
/// that serde_json accepts is not restated: the result is only named, as a
/// function of the text.
#[verifier::external_body]
pub fn parse_json(text: &str) -> (r: Option<JsonValue>)
    ensures
        r == json_parse(text@),
{
    serde_json::from_str::<Value>(text).ok().map(JsonValue::from_serde)
}

/// `serde_json::Value`, the parser's own tree, which only the conversion
/// below reads.
#[verifier::external_type_specification]
#[verifier::external_body]
pub struct ExSerdeValue(serde_json::Value);

impl JsonValue {
    /// Converts a parsed `serde_json::Value` member by member; numbers are
    /// told apart with `Number::as_u64` and `Number::as_i64`.
    #[verifier::external_body]
    fn from_serde(v: Value) -> JsonValue {
        match v {
            Value::Null => JsonValue::Null,
            Value::Bool(b) => JsonValue::Bool(b),
            Value::Number(n) => JsonValue::Number(match (n.as_u64(), n.as_i64()) {
                (Some(u), _) => JsonNumber::PosInt(u),
                (None, Some(i)) => JsonNumber::NegInt(i),
                (None, None) => JsonNumber::Float,
            }),
            Value::String(s) => JsonValue::Str(s),
            Value::Array(a) => JsonValue::Array(a.into_iter().map(JsonValue::from_serde).collect()),
            Value::Object(m) => JsonValue::Object(m.into_iter().map(|(k, x)| (k, JsonValue::from_serde(x))).collect()),
        }
    }
}

} // verus!
