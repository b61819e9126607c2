//! The trusted boundary to the `toml` crate: declarations of its types,
//! a plain-value mirror of a parsed document, and the one wrapper that
//! parses text into that mirror. What the parse returns is a function of
//! the text alone, so it is given a name, `doc_of`; everything after the
//! boundary works on the mirror and is verified.

use vstd::prelude::*;

verus! {

#[verifier::external_type_specification]
#[verifier::external_body]
pub struct ExTomlValue(toml::Value);

#[verifier::external_type_specification]
#[verifier::external_body]
pub struct ExTomlDeError(toml::de::Error);

/// A parsed TOML value as plain values: a string with its content, an
/// array with its elements, a table with its key/value pairs in order,
/// or any other kind of value.
pub enum TomlDoc {
    Str(String),
    Arr(Vec<TomlDoc>),
    Table(Vec<(String, TomlDoc)>),
    Other,
}

/// Every table in the tree keys each name at most once — a TOML document
/// rejects a key defined twice, so parsing can never produce a repeat.
pub open spec fn doc_node_wf(v: TomlDoc) -> bool
    decreases v,
{
    match v {
        TomlDoc::Str(_) => true,
        TomlDoc::Other => true,
        TomlDoc::Arr(vs) => forall|i: int| 0 <= i < vs@.len() ==> doc_node_wf(#[trigger] vs@[i]),
        TomlDoc::Table(ps) => {
            &&& forall|i: int, j: int| 0 <= i < j < ps@.len() ==> ps@[i].0@ != ps@[j].0@
            &&& forall|i: int| 0 <= i < ps@.len() ==> doc_node_wf(#[trigger] ps@[i].1)
        },
    }
}

/// The pairs of a parsed document's top-level table, all well formed.
pub open spec fn doc_pairs_wf(ps: Seq<(String, TomlDoc)>) -> bool {
    &&& forall|i: int, j: int| 0 <= i < j < ps.len() ==> ps[i].0@ != ps[j].0@
    &&& forall|i: int| 0 <= i < ps.len() ==> doc_node_wf(#[trigger] ps[i].1)
}

/// What parsing a text yields: the top-level pairs of its document, or
/// nothing when the text is not well-formed TOML. The result depends on
/// the text alone.
pub uninterp spec fn doc_of(s: Seq<char>) -> Option<Vec<(String, TomlDoc)>>;

/// Part of the parse boundary below: converts one node of the parsed
/// tree into the mirror, one for one, one arm per variant.
#[verifier::external_body]
fn value_to_doc(v: &toml::Value) -> TomlDoc {
    match v {
        toml::Value::String(s) => TomlDoc::Str(s.clone()),
        toml::Value::Array(a) => TomlDoc::Arr(a.iter().map(value_to_doc).collect()),
        toml::Value::Table(t) => TomlDoc::Table(
            t.iter().map(|(k, x)| (k.clone(), value_to_doc(x))).collect(),
        ),
        _ => TomlDoc::Other,
    }
}

/// Relies on `toml::from_str::<toml::Table>`: parses TOML document text
/// and mirrors the resulting tree one for one. Success, failure and the
/// mirrored content are all fixed by the text, which is what the name
/// `doc_of` records; each table keys a name at most once, since the
/// parser rejects a key defined twice.
#[verifier::external_body]
pub fn parse_document(s: &str) -> (r: Result<Vec<(String, TomlDoc)>, toml::de::Error>)
    ensures
        r matches Ok(d) ==> doc_of(s@) == Some(d) && doc_pairs_wf(d@),
        r is Err ==> doc_of(s@) is None,
{
    match toml::from_str::<toml::Table>(s) {
        Ok(t) => Ok(t.iter().map(|(k, v)| (k.clone(), value_to_doc(v))).collect()),
        Err(e) => Err(e),
    }
}

/// Relies on `toml::de::Error::message`: the parse failure's description.
#[verifier::external_body]
pub fn toml_error_message(e: &toml::de::Error) -> (r: String) {
    e.message().to_owned()
}

} // verus!
