//! The bridge to the TOML format: parsing and printing go through the
//! `toml` crate, behind trusted wrappers. What the crate computes is named,
//! not restated: [`toml_doc_of`] and [`toml_text_of`] stand for its results,
//! and everything the library proves about a parsed store or a rendered
//! configuration is stated over those names.
use vstd::prelude::*;

use crate::doc::{DocValue, DocView};

verus! {

#[verifier::external_type_specification]
#[verifier::external_body]
pub struct ExTomlValue(toml::Value);

/// What parsing TOML text yields, carried into the library's document:
/// `toml::from_str::<toml::Value>` computes it from the text alone.
pub uninterp spec fn toml_doc_of(s: Seq<char>) -> Option<DocView>;

/// What printing a document as TOML yields: `toml::to_string` computes it
/// from the document alone. `None` where the document has no TOML form (a
/// null, an opaque scalar, or a shape the printer refuses).
pub uninterp spec fn toml_text_of(d: DocView) -> Option<Seq<char>>;

pub open spec fn view_opt_string(r: Option<String>) -> Option<Seq<char>> {
    match r {
        Some(s) => Some(s@),
        None => None,
    }
}

/// Relies on the variants of toml::Value: each is carried over one arm at a
/// time, fields moved as they are. A float or datetime has no place in a
/// profile, so those arms fold to the opaque scalar, which every decoder of
/// this library rejects.
#[verifier::external_body]
fn doc_from_toml(v: toml::Value) -> DocValue {
    match v {
        toml::Value::String(s) => DocValue::Str(s),
        toml::Value::Integer(i) => DocValue::Int(i),
        toml::Value::Float(_) => DocValue::Other,
        toml::Value::Boolean(b) => DocValue::Bool(b),
        toml::Value::Datetime(_) => DocValue::Other,
        toml::Value::Array(a) => DocValue::Arr(a.into_iter().map(doc_from_toml).collect()),
        toml::Value::Table(t) => DocValue::Obj(
            t.into_iter().map(|(k, v)| (k, doc_from_toml(v))).collect(),
        ),
    }
}

/// Relies on the constructors of toml::Value: each document node is carried
/// over one arm at a time. A null or opaque scalar has no TOML form, so it
/// yields `None`.
#[verifier::external_body]
fn toml_from_doc(d: &DocValue) -> Option<toml::Value> {
    match d {
        DocValue::Null | DocValue::Other => None,
        DocValue::Bool(b) => Some(toml::Value::Boolean(*b)),
        DocValue::Int(i) => Some(toml::Value::Integer(*i)),
        DocValue::Str(s) => Some(toml::Value::String(s.clone())),
        DocValue::Arr(items) => items.iter().map(toml_from_doc).collect::<Option<Vec<_>>>().map(
            toml::Value::Array,
        ),
        DocValue::Obj(pairs) => pairs.iter().map(
            |(k, v)| Some((k.clone(), toml_from_doc(v)?)),
        ).collect::<Option<toml::map::Map<_, _>>>().map(toml::Value::Table),
    }
}

/// Relies on toml::from_str::<toml::Value>: parsing is deterministic in the
/// text, so its outcome is exactly [`toml_doc_of`] of the text.
#[verifier::external_body]
pub(crate) fn parse_toml_text(s: &str) -> (r: Option<DocValue>)
    ensures
        match r {
            Some(d) => toml_doc_of(s@) == Some(d@),
            None => toml_doc_of(s@) is None,
        },
{
    match toml::from_str::<toml::Value>(s) {
        Ok(v) => Some(doc_from_toml(v)),
        Err(_) => None,
    }
}

/// Relies on toml::to_string on toml::Value: printing is deterministic in
/// the value, so its outcome is exactly [`toml_text_of`] of the document.
#[verifier::external_body]
pub(crate) fn encode_toml_doc(d: &DocValue) -> (r: Option<String>)
    ensures
        view_opt_string(r) == toml_text_of(d@),
{
    match toml_from_doc(d) {
        Some(v) => toml::to_string(&v).ok(),
        None => None,
    }
}

} // verus!
