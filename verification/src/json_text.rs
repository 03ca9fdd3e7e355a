//! JSON text: reading a configuration document from the text of its file, and
//! the text that is written back or shown, both through `serde_json`.

use vstd::prelude::*;
use crate::json::{JsonValue, Json, entries_model};
use crate::nested_keys::empty_object;

verus! {

/// `serde_json::Value`, carried through as an opaque value.
#[verifier::external_type_specification]
#[verifier::external_body]
pub struct ExSerdeValue(serde_json::Value);

/// The document that the JSON text `text` stands for, as `serde_json` parses
/// it into a `Value`; none where the text is not a JSON document.
pub uninterp spec fn json_text_value(text: Seq<char>) -> Option<Json>;

/// The text that `serde_json` writes for document `v`, pretty-printed.
pub uninterp spec fn pretty_json_text(v: Json) -> Seq<char>;

/// The library's form of a parsed `serde_json::Value`, variant for variant:
/// numbers keep their text, object members come in the map's order.
#[verifier::external_body]
fn from_serde(v: serde_json::Value) -> JsonValue {
    match v {
        serde_json::Value::Null => JsonValue::Null,
        serde_json::Value::Bool(b) => JsonValue::Bool(b),
        serde_json::Value::Number(n) => JsonValue::Number(n.to_string()),
        serde_json::Value::String(s) => JsonValue::Str(s),
        serde_json::Value::Array(items) => JsonValue::Array(items.into_iter().map(from_serde).collect()),
        serde_json::Value::Object(map) => JsonValue::Object(map.into_iter().map(|(k, v)| (k, from_serde(v))).collect()),
    }
}

/// The `serde_json::Value` of a document, variant for variant: a number's text
/// is read back as a JSON number (kept as a string where it is not one), and
/// object members are inserted into the map in order.
#[verifier::external_body]
fn to_serde(v: &JsonValue) -> serde_json::Value {
    match v {
        JsonValue::Null => serde_json::Value::Null,
        JsonValue::Bool(b) => serde_json::Value::Bool(*b),
        JsonValue::Number(t) => t.parse().map(serde_json::Value::Number).unwrap_or_else(|_| serde_json::Value::String(t.clone())),
        JsonValue::Str(s) => serde_json::Value::String(s.clone()),
        JsonValue::Array(items) => serde_json::Value::Array(items.iter().map(to_serde).collect()),
        JsonValue::Object(members) => serde_json::Value::Object(members.iter().map(|(k, v)| (k.clone(), to_serde(v))).collect()),
    }
}

/// Parses JSON text into a document, or gives the parser's message.
///
/// Calls `serde_json::from_str::<serde_json::Value>`. The contract names the
/// parsed document, a function of the text alone, and says nothing more of it;
/// of a failure it says only that the text has no document.
#[verifier::external_body]
fn parse_json(text: &str) -> (r: Result<JsonValue, String>)
    ensures
        match r {
            Ok(v) => json_text_value(text@) == Some(v.model()),
            Err(_) => json_text_value(text@) is None,
        },
{
    match serde_json::from_str::<serde_json::Value>(text) {
        Ok(v) => Ok(from_serde(v)),
        Err(e) => Err(e.to_string()),
    }
}

/// The pretty-printed JSON text of a document.
///
/// Calls `serde_json::to_string_pretty` on the document's `Value`; serialising
/// a `Value`, whose maps have string keys, does not fail. The contract names
/// the text, a function of the document's model alone (the map is ordered by
/// key and keeps the last member of a key), and says nothing more of it.
#[verifier::external_body]
fn to_pretty_json(v: &JsonValue) -> (s: String)
    ensures
        s@ == pretty_json_text(v.model()),
{
    serde_json::to_string_pretty(&to_serde(v)).unwrap_or_default()
}

/// The configuration that a file's text gives: an empty object where there is
/// no file, the parsed document where the text parses, else an empty object.
pub open spec fn config_value(text: Option<Seq<char>>) -> Json {
    match text {
        None => empty_object(),
        Some(t) => match json_text_value(t) {
            Some(j) => j,
            None => empty_object(),
        },
    }
}

/// Reads the configuration document from the text of its file (`None` where
/// the file could not be read). Text that does not parse gives an empty
/// object, and the parser's message to warn with.
pub fn config_from_text(text: Option<String>) -> (r: (JsonValue, Option<String>))
    ensures
        r.0.model() == config_value(match text { Some(t) => Some(t@), None => None }),
        r.1 is Some <==> (text is Some && json_text_value(text->0@) is None),
{
    let empty = JsonValue::Object(Vec::new());
    proof {
        assert(entries_model(Seq::<(String, JsonValue)>::empty()) =~= Map::empty());
        assert(empty.model() == empty_object());
    }
    match text {
        None => (empty, None),
        Some(t) => match parse_json(t.as_str()) {
            Ok(v) => (v, None),
            Err(e) => (empty, Some(e)),
        },
    }
}

/// The text that is written to, or shown of, the configuration file for
/// document `doc`: its pretty-printed JSON.
pub fn config_text(doc: &JsonValue) -> (s: String)
    ensures
        s@ == pretty_json_text(doc.model()),
{
    to_pretty_json(doc)
}

/// Why `config init` refused to write the configuration file.
#[derive(Debug)]
pub enum ConfigInitError {
    /// The file already exists and overwriting it was not asked for.
    AlreadyExists,
}

/// The text that `config init` writes (an empty object), given whether the
/// file exists and whether `force` asks to overwrite it; an existing file is
/// kept unless `force` is given.
pub fn config_init_text(exists: bool, force: bool) -> (r: Result<String, ConfigInitError>)
    ensures
        exists && !force ==> r matches Err(ConfigInitError::AlreadyExists),
        !(exists && !force) ==> (r matches Ok(t) && t@ == pretty_json_text(empty_object())),
{
    if exists && !force {
        return Err(ConfigInitError::AlreadyExists);
    }
    let empty = JsonValue::Object(Vec::new());
    proof {
        assert(entries_model(Seq::<(String, JsonValue)>::empty()) =~= Map::empty());
        assert(empty.model() == empty_object());
    }
    Ok(config_text(&empty))
}

} // verus!
