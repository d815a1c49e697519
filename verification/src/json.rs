//! Values read out of JSON text with `serde_json`, as plain values.

use vstd::prelude::*;

verus! {

/// A value found in a JSON document: its text when it is a string, its number when it is
/// a whole number that fits 64 bits, and the value written out as compact JSON.
#[derive(Debug)]
pub struct JsonValue {
    pub text: Option<String>,
    pub whole: Option<u64>,
    pub json: String,
}

/// A `JsonValue` as plain values.
pub open spec fn value_view(v: JsonValue) -> (Option<Seq<char>>, Option<u64>, Seq<char>) {
    (
        match v.text {
            Some(s) => Some(s@),
            None => None,
        },
        v.whole,
        v.json@,
    )
}

/// A lookup's outcome as plain values.
pub open spec fn lookup_view(r: Result<Option<JsonValue>, String>) -> Result<
    Option<(Option<Seq<char>>, Option<u64>, Seq<char>)>,
    Seq<char>,
> {
    match r {
        Ok(Some(v)) => Ok(Some(value_view(v))),
        Ok(None) => Ok(None),
        Err(e) => Err(e@),
    }
}

/// What `serde_json` finds in the text `doc` at the JSON pointer `pointer`: the parse
/// error's text when `doc` is not JSON, nothing when no value is there, and otherwise the
/// value as `JsonValue` holds it.
pub uninterp spec fn json_at(doc: Seq<char>, pointer: Seq<char>) -> Result<
    Option<(Option<Seq<char>>, Option<u64>, Seq<char>)>,
    Seq<char>,
>;

/// `serde_json::from_str` into a `serde_json::Value`, then `Value::pointer`, with the
/// value found read by `as_str`, `as_u64` and `to_string`, and a parse error by its
/// `to_string`. The outcome is named `json_at` of the same text and pointer; nothing more
/// is claimed of it.
#[verifier::external_body]
pub(crate) fn value_at(doc: &str, pointer: &str) -> (r: Result<Option<JsonValue>, String>)
    ensures
        lookup_view(r) == json_at(doc@, pointer@),
{
    match serde_json::from_str::<serde_json::Value>(doc) {
        Ok(v) => Ok(v.pointer(pointer).map(|x| JsonValue {
            text: x.as_str().map(str::to_owned),
            whole: x.as_u64(),
            json: x.to_string(),
        })),
        Err(e) => Err(e.to_string()),
    }
}

/// The text at a lookup, when the value there is a string.
pub open spec fn text_in(l: Result<Option<(Option<Seq<char>>, Option<u64>, Seq<char>)>, Seq<char>>) -> Option<
    Seq<char>,
> {
    match l {
        Ok(Some(v)) => v.0,
        _ => None,
    }
}

/// The number at a lookup, when the value there is a whole number that fits 64 bits.
pub open spec fn whole_in(l: Result<Option<(Option<Seq<char>>, Option<u64>, Seq<char>)>, Seq<char>>) -> Option<
    u64,
> {
    match l {
        Ok(Some(v)) => v.1,
        _ => None,
    }
}

/// Whether a lookup found a value.
pub open spec fn found(l: Result<Option<(Option<Seq<char>>, Option<u64>, Seq<char>)>, Seq<char>>) -> bool {
    l matches Ok(Some(_))
}

/// The text of an optional string, as plain values.
pub open spec fn opt_text(o: Option<String>) -> Option<Seq<char>> {
    match o {
        Some(s) => Some(s@),
        None => None,
    }
}

/// The string at `pointer` in `doc`, when there is one; the parse error otherwise.
pub fn text_at(doc: &str, pointer: &str) -> (r: Result<Option<String>, String>)
    ensures
        json_at(doc@, pointer@) matches Err(e) ==> (r matches Err(x) && x@ == e),
        json_at(doc@, pointer@) is Ok ==> (r matches Ok(t) && opt_text(t) == text_in(
            json_at(doc@, pointer@),
        )),
{
    match value_at(doc, pointer) {
        Err(e) => Err(e),
        Ok(None) => Ok(None),
        Ok(Some(v)) => Ok(v.text),
    }
}

/// The whole number at `pointer` in `doc`, when there is one; the parse error otherwise.
pub fn whole_at(doc: &str, pointer: &str) -> (r: Result<Option<u64>, String>)
    ensures
        json_at(doc@, pointer@) matches Err(e) ==> (r matches Err(x) && x@ == e),
        json_at(doc@, pointer@) is Ok ==> r == Ok::<Option<u64>, String>(
            whole_in(json_at(doc@, pointer@)),
        ),
{
    match value_at(doc, pointer) {
        Err(e) => Err(e),
        Ok(None) => Ok(None),
        Ok(Some(v)) => Ok(v.whole),
    }
}


/// The top level of a JSON value: an object's members, each as its key and its value
/// written out as compact JSON; an array's elements, each written out as compact JSON; or
/// anything else.
#[derive(Debug)]
pub enum JsonShape {
    Object(Vec<(String, String)>),
    Array(Vec<String>),
    Other,
}

/// A `JsonShape` as plain values.
pub enum ShapeModel {
    Object(Seq<(Seq<char>, Seq<char>)>),
    Array(Seq<Seq<char>>),
    Other,
}

/// Members of a JSON object, each as its key and its value as compact JSON.
pub open spec fn members(ms: Seq<(String, String)>) -> Seq<(Seq<char>, Seq<char>)> {
    ms.map_values(|kv: (String, String)| (kv.0@, kv.1@))
}

pub open spec fn shape_model(s: JsonShape) -> ShapeModel {
    match s {
        JsonShape::Object(m) => ShapeModel::Object(members(m@)),
        JsonShape::Array(a) => ShapeModel::Array(a@.map_values(|x: String| x@)),
        JsonShape::Other => ShapeModel::Other,
    }
}

/// A shape lookup's outcome as plain values.
pub open spec fn shape_view(r: Result<Option<JsonShape>, String>) -> Result<
    Option<ShapeModel>,
    Seq<char>,
> {
    match r {
        Ok(Some(s)) => Ok(Some(shape_model(s))),
        Ok(None) => Ok(None),
        Err(e) => Err(e@),
    }
}

/// What `serde_json` finds in the text `doc` at the JSON pointer `pointer`, by its top
/// level: the parse error's text when `doc` is not JSON, nothing when no value is there,
/// and otherwise the value's shape as `JsonShape` holds it.
pub uninterp spec fn json_shape(doc: Seq<char>, pointer: Seq<char>) -> Result<
    Option<ShapeModel>,
    Seq<char>,
>;

/// `serde_json::from_str` into a `serde_json::Value`, then `Value::pointer`; the value found
/// is told apart by its variant, an object's members and an array's elements each written
/// out with `to_string`, and a parse error read by its `to_string`. The outcome is named
/// `json_shape` of the same text and pointer; nothing more is claimed of it.
#[verifier::external_body]
pub(crate) fn shape_at(doc: &str, pointer: &str) -> (r: Result<Option<JsonShape>, String>)
    ensures
        shape_view(r) == json_shape(doc@, pointer@),
{
    match serde_json::from_str::<serde_json::Value>(doc) {
        Ok(v) => Ok(v.pointer(pointer).map(|x| match x {
            serde_json::Value::Object(m) => JsonShape::Object(
                m.iter().map(|(k, v)| (k.clone(), v.to_string())).collect(),
            ),
            serde_json::Value::Array(a) => JsonShape::Array(a.iter().map(|v| v.to_string()).collect()),
            _ => JsonShape::Other,
        })),
        Err(e) => Err(e.to_string()),
    }
}

/// The text `s` as a JSON string, quotes and escapes included, as `serde_json` writes it.
pub uninterp spec fn json_quote(s: Seq<char>) -> Seq<char>;

/// `serde_json::to_string` of a string: the string written as a JSON string literal. The
/// result is named `json_quote` of the same text; nothing more is claimed of it.
#[verifier::external_body]
pub(crate) fn quote(s: &str) -> (r: String)
    ensures
        r@ == json_quote(s@),
{
    serde_json::to_string(s).unwrap_or_default()
}

/// What `serde_json` makes of the compact JSON text `doc` written out again, pretty: the
/// text, or the parse error's text when `doc` is not JSON.
pub uninterp spec fn json_pretty(doc: Seq<char>) -> Result<Seq<char>, Seq<char>>;

/// `serde_json::from_str` into a `serde_json::Value`, then `serde_json::to_string_pretty`.
/// The outcome is named `json_pretty` of the same text; nothing more is claimed of it.
#[verifier::external_body]
pub(crate) fn pretty(doc: &str) -> (r: Result<String, String>)
    ensures
        match r {
            Ok(t) => json_pretty(doc@) == Ok::<Seq<char>, Seq<char>>(t@),
            Err(e) => json_pretty(doc@) == Err::<Seq<char>, Seq<char>>(e@),
        },
{
    match serde_json::from_str::<serde_json::Value>(doc) {
        Ok(v) => serde_json::to_string_pretty(&v).map_err(|e| e.to_string()),
        Err(e) => Err(e.to_string()),
    }
}


/// What `serde_json` makes of the JSON text `doc` written out again, compact: the text, or
/// the parse error's text when `doc` is not JSON.
pub uninterp spec fn json_compact(doc: Seq<char>) -> Result<Seq<char>, Seq<char>>;

/// `serde_json::from_str` into a `serde_json::Value`, then `to_string`. The outcome is
/// named `json_compact` of the same text; nothing more is claimed of it.
#[verifier::external_body]
pub(crate) fn compact(doc: &str) -> (r: Result<String, String>)
    ensures
        match r {
            Ok(t) => json_compact(doc@) == Ok::<Seq<char>, Seq<char>>(t@),
            Err(e) => json_compact(doc@) == Err::<Seq<char>, Seq<char>>(e@),
        },
{
    match serde_json::from_str::<serde_json::Value>(doc) {
        Ok(v) => Ok(v.to_string()),
        Err(e) => Err(e.to_string()),
    }
}

} // verus!
