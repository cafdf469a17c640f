//! TOML documents, and the texts that bytes from outside stand for.

use crate::json;
use crate::json::{json_of, json_text, Json, JsonView};
use crate::text::{begins, starts_with, trim_start, trimmed_start};
use vstd::prelude::*;
use vstd::utf8::{decode_utf8, valid_utf8};

verus! {

// ---------------------------------------------------------------------------
// Bytes
// ---------------------------------------------------------------------------

/// The text that `String::from_utf8_lossy` makes of bytes.
pub uninterp spec fn lossy_text(bytes: Seq<u8>) -> Seq<char>;

/// Calls `String::from_utf8_lossy`. The claim is that the text depends on the
/// bytes alone, and that bytes which are UTF-8 are taken as they are.
#[verifier::external_body]
pub(crate) fn lossy(bytes: &[u8]) -> (r: String)
    ensures
        r@ == lossy_text(bytes@),
        valid_utf8(bytes@) ==> r@ == decode_utf8(bytes@),
{
    String::from_utf8_lossy(bytes).into_owned()
}

/// Calls `str::from_utf8`. The claim is that it gives a text just where the
/// bytes are UTF-8, and then the one that they encode.
#[verifier::external_body]
pub(crate) fn utf8(bytes: &[u8]) -> (r: Option<String>)
    ensures
        match r {
            Some(s) => valid_utf8(bytes@) && s@ == decode_utf8(bytes@),
            None => !valid_utf8(bytes@),
        },
{
    std::str::from_utf8(bytes).ok().map(str::to_owned)
}

// ---------------------------------------------------------------------------
// TOML
// ---------------------------------------------------------------------------

#[verifier::external_type_specification]
#[verifier::external_body]
pub struct ExToml(toml::Value);

/// What a `toml::Value` holds, as JSON.
pub uninterp spec fn toml_json(v: toml::Value) -> JsonView;

/// What `toml::from_str` makes of a document: a value, or the text of its
/// error.
pub uninterp spec fn toml_document(s: Seq<char>) -> Result<JsonView, Seq<char>>;

/// Calls `toml::from_str` for a `toml::Value`. The claim is that the outcome
/// depends on the text alone.
#[verifier::external_body]
fn decode(raw: &str) -> (r: Result<toml::Value, String>)
    ensures
        match r {
            Ok(v) => toml_document(raw@) == Ok::<JsonView, Seq<char>>(toml_json(v)),
            Err(e) => toml_document(raw@) == Err::<JsonView, Seq<char>>(e@),
        },
{
    toml::from_str(raw).map_err(|e| e.to_string())
}

/// Calls `serde_json::to_value` for a `toml::Value`. The claim is that the
/// value holds what the TOML value holds, and that there always is one: the
/// call fails only on keys that are no texts, or where a part refuses to be
/// serialised, and a `toml::Value` has neither.
#[verifier::external_body]
fn to_value(v: &toml::Value) -> (r: Result<serde_json::Value, String>)
    ensures
        r is Ok,
        json_of(r->Ok_0) == toml_json(*v),
{
    serde_json::to_value(v).map_err(|e| e.to_string())
}

/// Calls `serde_json::to_string` for a `toml::Value`. The claim is that the
/// text is the compact one of what the TOML value holds, and that there always
/// is one, for the reasons given at [`to_value`].
#[verifier::external_body]
fn to_text(v: &toml::Value) -> (r: Result<String, String>)
    ensures
        r is Ok,
        (r->Ok_0)@ == json_text(toml_json(*v)),
{
    serde_json::to_string(v).map_err(|e| e.to_string())
}

/// What a TOML document holds, where it is one.
pub fn read_toml(raw: &str) -> (r: Option<Json>)
    ensures
        match r {
            Some(v) => toml_document(raw@) == Ok::<JsonView, Seq<char>>(v@),
            None => toml_document(raw@) is Err,
        },
{
    match decode(raw) {
        Ok(v) => match to_value(&v) {
            Ok(j) => Some(json::from_value(j)),
            Err(_) => None,
        },
        Err(_) => None,
    }
}

/// The JSON text of a document that is JSON or TOML: what begins with a brace
/// is taken for JSON as it is.
pub fn to_json(raw: &str) -> (r: Result<String, String>)
    ensures
        starts_with(trim_start(raw@), "{"@) ==> (r matches Ok(s) && s@ == raw@),
        !starts_with(trim_start(raw@), "{"@) ==> match toml_document(raw@) {
            Err(e) => r matches Err(x) && x@ == "parse TOML Desired state: "@ + e,
            Ok(v) => r matches Ok(s) && s@ == json_text(v),
        },
{
    let start = trimmed_start(raw);
    if begins(start.as_str(), "{") {
        return Ok(raw.to_owned());
    }
    match decode(raw) {
        Err(e) => Err("parse TOML Desired state: ".to_owned().concat(e.as_str())),
        Ok(v) => match to_text(&v) {
            Ok(s) => Ok(s),
            Err(e) => Err("encode JSON: ".to_owned().concat(e.as_str())),
        },
    }
}

} // verus!
