//! The parsed TOML and JSON documents that the lockfile readers walk, held as
//! plain values. Parsing itself is done by the `toml` and `serde_json`
//! crates; what they return is converted, variant by variant, into the
//! types here.
use vstd::prelude::*;

verus! {

/// A TOML value as far as the lockfile readers look into it: strings,
/// arrays and tables (with their keys in the order the parser yields them);
/// integers, floats, booleans and datetimes are all `Other`.
#[derive(Debug)]
pub enum TomlValue {
    Str(String),
    Array(Vec<TomlValue>),
    Table(Vec<(String, TomlValue)>),
    Other,
}

/// A JSON value as far as the lockfile readers look into it: strings and
/// objects (with their keys in the order the parser yields them); null,
/// booleans, numbers and arrays are all `Other`.
#[derive(Debug)]
pub enum JsonValue {
    Str(String),
    Object(Vec<(String, JsonValue)>),
    Other,
}

#[verifier::external_type_specification]
#[verifier::external_body]
pub struct ExTomlDocumentValue(toml::Value);

#[verifier::external_type_specification]
#[verifier::external_body]
pub struct ExJsonDocumentValue(serde_json::Value);

/// The value that the `toml` crate parses a text into, where it parses.
pub uninterp spec fn toml_document(text: Seq<char>) -> Option<TomlValue>;

/// The text of the error that the `toml` crate reports for a text it
/// does not parse.
pub uninterp spec fn toml_error_message(text: Seq<char>) -> Seq<char>;

/// The value that `serde_json` parses a text into, where it parses.
pub uninterp spec fn json_document(text: Seq<char>) -> Option<JsonValue>;

/// The text of the error that `serde_json` reports for a text it does not
/// parse.
pub uninterp spec fn json_error_message(text: Seq<char>) -> Seq<char>;

/// Converts a `toml::Value` into a `TomlValue`, one variant for one variant;
/// the four scalar kinds that the readers do not look into become `Other`.
#[verifier::external_body]
fn toml_value_from(v: toml::Value) -> TomlValue {
    match v {
        toml::Value::String(s) => TomlValue::Str(s),
        toml::Value::Array(a) => TomlValue::Array(a.into_iter().map(toml_value_from).collect()),
        toml::Value::Table(t) => TomlValue::Table(
            t.into_iter().map(|(k, v)| (k, toml_value_from(v))).collect(),
        ),
        toml::Value::Integer(_) => TomlValue::Other,
        toml::Value::Float(_) => TomlValue::Other,
        toml::Value::Boolean(_) => TomlValue::Other,
        toml::Value::Datetime(_) => TomlValue::Other,
    }
}

/// Converts a `serde_json::Value` into a `JsonValue`, one variant for one
/// variant; the four kinds that the readers do not look into become `Other`.
#[verifier::external_body]
fn json_value_from(v: serde_json::Value) -> JsonValue {
    match v {
        serde_json::Value::String(s) => JsonValue::Str(s),
        serde_json::Value::Object(m) => JsonValue::Object(
            m.into_iter().map(|(k, v)| (k, json_value_from(v))).collect(),
        ),
        serde_json::Value::Null => JsonValue::Other,
        serde_json::Value::Bool(_) => JsonValue::Other,
        serde_json::Value::Number(_) => JsonValue::Other,
        serde_json::Value::Array(_) => JsonValue::Other,
    }
}

/// Parses a TOML document with `<toml::Value as FromStr>::from_str`
/// (`toml::from_str`). Claims that the outcome is a function of the text:
/// the value `toml_document(text)` where it parses, and otherwise no value
/// and the error's `Display` text `toml_error_message(text)`.
#[verifier::external_body]
pub(crate) fn parse_toml_text(text: &str) -> (res: Result<TomlValue, String>)
    ensures
        match res {
            Ok(v) => toml_document(text@) == Some(v),
            Err(m) => toml_document(text@) is None && m@ == toml_error_message(text@),
        },
{
    match text.parse::<toml::Value>() {
        Ok(v) => Ok(toml_value_from(v)),
        Err(e) => Err(e.to_string()),
    }
}

/// Parses a JSON document with `serde_json::from_str::<serde_json::Value>`.
/// Claims that the outcome is a function of the text: the value
/// `json_document(text)` where it parses, and otherwise no value and the
/// error's `Display` text `json_error_message(text)`.
#[verifier::external_body]
pub(crate) fn parse_json_text(text: &str) -> (res: Result<JsonValue, String>)
    ensures
        match res {
            Ok(v) => json_document(text@) == Some(v),
            Err(m) => json_document(text@) is None && m@ == json_error_message(text@),
        },
{
    match serde_json::from_str::<serde_json::Value>(text) {
        Ok(v) => Ok(json_value_from(v)),
        Err(e) => Err(e.to_string()),
    }
}

/// The value under `key` among the entries of a TOML table (the first
/// entry with that key).
pub open spec fn toml_entry(entries: Seq<(String, TomlValue)>, key: Seq<char>) -> Option<
    TomlValue,
>
    decreases entries.len(),
{
    if entries.len() == 0 {
        None
    } else if entries[0].0@ == key {
        Some(entries[0].1)
    } else {
        toml_entry(entries.drop_first(), key)
    }
}

/// `toml::Value::get` with a string key: the value under `key` if `v` is a
/// table that has it.
pub open spec fn toml_get(v: TomlValue, key: Seq<char>) -> Option<TomlValue> {
    match v {
        TomlValue::Table(entries) => toml_entry(entries@, key),
        _ => None,
    }
}

/// `toml::Value::as_str` on an optional value.
pub open spec fn toml_str(v: Option<TomlValue>) -> Option<Seq<char>> {
    match v {
        Some(TomlValue::Str(s)) => Some(s@),
        _ => None,
    }
}

/// The value under `key` among the entries of a JSON object (the first
/// entry with that key).
pub open spec fn json_entry(entries: Seq<(String, JsonValue)>, key: Seq<char>) -> Option<
    JsonValue,
>
    decreases entries.len(),
{
    if entries.len() == 0 {
        None
    } else if entries[0].0@ == key {
        Some(entries[0].1)
    } else {
        json_entry(entries.drop_first(), key)
    }
}

/// `serde_json::Value::get` with a string key: the value under `key` if `v`
/// is an object that has it.
pub open spec fn json_get(v: JsonValue, key: Seq<char>) -> Option<JsonValue> {
    match v {
        JsonValue::Object(entries) => json_entry(entries@, key),
        _ => None,
    }
}

/// `serde_json::Value::as_str` on an optional value.
pub open spec fn json_str(v: Option<JsonValue>) -> Option<Seq<char>> {
    match v {
        Some(JsonValue::Str(s)) => Some(s@),
        _ => None,
    }
}

/// The value under `key` if `v` is a table that has it.
pub fn toml_lookup<'a>(v: &'a TomlValue, key: &String) -> (r: Option<&'a TomlValue>)
    ensures
        match r {
            Some(x) => toml_get(*v, key@) == Some(*x),
            None => toml_get(*v, key@) is None,
        },
{
    match v {
        TomlValue::Table(entries) => {
            let n = entries.len();
            assert(entries@.skip(0) =~= entries@);
            for i in 0..n
                invariant
                    n == entries@.len(),
                    toml_get(*v, key@) == toml_entry(entries@.skip(i as int), key@),
            {
                assert(entries@.skip(i as int).drop_first() =~= entries@.skip(i + 1));
                if entries[i].0 == *key {
                    return Some(&entries[i].1);
                }
            }
            None
        },
        _ => None,
    }
}

/// The value under `key` if `v` is an object that has it.
pub fn json_lookup<'a>(v: &'a JsonValue, key: &String) -> (r: Option<&'a JsonValue>)
    ensures
        match r {
            Some(x) => json_get(*v, key@) == Some(*x),
            None => json_get(*v, key@) is None,
        },
{
    match v {
        JsonValue::Object(entries) => {
            let n = entries.len();
            assert(entries@.skip(0) =~= entries@);
            for i in 0..n
                invariant
                    n == entries@.len(),
                    json_get(*v, key@) == json_entry(entries@.skip(i as int), key@),
            {
                assert(entries@.skip(i as int).drop_first() =~= entries@.skip(i + 1));
                if entries[i].0 == *key {
                    return Some(&entries[i].1);
                }
            }
            None
        },
        _ => None,
    }
}

} // verus!
