use vstd::prelude::*;

verus! {

/// A decoded JSON value. Numbers are told apart as serde_json stores them:
/// non-negative integers, negative integers, and the rest.
#[derive(Debug)]
pub enum JsonValue {
    Null,
    Bool(bool),
    UInt(u64),
    NegInt(i64),
    OtherNumber,
    Str(String),
    Array(Vec<JsonValue>),
    Object(Vec<(String, JsonValue)>),
}

/// serde_json's value tree; it only passes through the conversion in
/// `parse_json`.
#[verifier::external_type_specification]
#[verifier::external_body]
pub struct ExJsonValue(serde_json::Value);

/// The value that JSON text decodes to, or `None` where the text is not one
/// JSON value.
pub uninterp spec fn json_decode(text: Seq<char>) -> Option<JsonValue>;

/// The JSON string literal, quotes and escapes included, that stands for `s`.
pub uninterp spec fn json_quoted(s: Seq<char>) -> Seq<char>;

/// Relies on `serde_json::from_str::<serde_json::Value>`: it decodes the
/// text alone, and fails on anything that is not exactly one JSON value.
#[verifier::external_body]
pub(crate) fn parse_json(text: &str) -> (r: Option<JsonValue>)
    ensures
        r == json_decode(text@),
{
    serde_json::from_str::<serde_json::Value>(text).ok().map(from_serde_value)
}

/// Takes serde_json's value tree over into `JsonValue`, variant for variant,
/// an object's entries in the order of serde_json's map; the result
/// conversion of `parse_json`, called from its body alone.
#[verifier::external_body]
fn from_serde_value(v: serde_json::Value) -> JsonValue {
    match v {
        serde_json::Value::Null => JsonValue::Null,
        serde_json::Value::Bool(b) => JsonValue::Bool(b),
        serde_json::Value::Number(n) => match (n.as_u64(), n.as_i64()) {
            (Some(u), _) => JsonValue::UInt(u),
            (None, Some(i)) => JsonValue::NegInt(i),
            (None, None) => JsonValue::OtherNumber,
        },
        serde_json::Value::String(s) => JsonValue::Str(s),
        serde_json::Value::Array(a) => JsonValue::Array(a.into_iter().map(from_serde_value).collect()),
        serde_json::Value::Object(m) => JsonValue::Object(
            m.into_iter().map(|(k, x)| (k, from_serde_value(x))).collect(),
        ),
    }
}

/// Relies on `serde_json::to_string` on a `str`: it writes the string as a
/// JSON literal and cannot fail on one.
#[verifier::external_body]
pub(crate) fn json_quote(s: &str) -> (r: String)
    ensures
        r@ == json_quoted(s@),
{
    serde_json::to_string(s).unwrap_or_default()
}

/// The value that an object gives to `key`; where the key repeats, the last
/// entry counts.
pub open spec fn field_of(fields: Seq<(String, JsonValue)>, key: Seq<char>) -> Option<JsonValue>
    decreases fields.len(),
{
    if fields.len() == 0 {
        None
    } else if fields.last().0@ == key {
        Some(fields.last().1)
    } else {
        field_of(fields.drop_last(), key)
    }
}

/// Looks `key` up in the entries of an object.
pub fn get_field<'a>(fields: &'a Vec<(String, JsonValue)>, key: &str) -> (r: Option<&'a JsonValue>)
    ensures
        match r {
            Some(v) => field_of(fields@, key@) == Some(*v),
            None => field_of(fields@, key@) is None,
        },
{
    let key_s = key.to_owned();
    let mut found: Option<&JsonValue> = None;
    let mut i: usize = 0;
    while i < fields.len()
        invariant
            i <= fields.len(),
            key_s@ == key@,
            match found {
                Some(v) => field_of(fields@.take(i as int), key@) == Some(*v),
                None => field_of(fields@.take(i as int), key@) is None,
            },
        decreases fields.len() - i,
    {
        assert(fields@.take(i + 1).drop_last() == fields@.take(i as int));
        if fields[i].0 == key_s {
            found = Some(&fields[i].1);
        }
        i = i + 1;
    }
    assert(fields@.take(i as int) == fields@);
    found
}

} // verus!
