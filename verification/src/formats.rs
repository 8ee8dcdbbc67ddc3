//! The document-text boundary: parsing the two accepted formats and
//! writing the output format, through the `toml` and `serde_json`
//! crates. Every call here is a pure function of its text or document
//! argument; the names below stand for their results.

use vstd::prelude::*;

use crate::doc::CfgTable;
use crate::doc::CfgValue;
use crate::doc::Entry;
use crate::doc::TblView;
use crate::doc::tv_wf;

verus! {

/// The document that the TOML parser yields for a text, if any.
pub uninterp spec fn toml_table_of(s: Seq<char>) -> Option<TblView>;

/// The document that the JSON parser yields for a text, if any.
pub uninterp spec fn json_table_of(s: Seq<char>) -> Option<TblView>;

/// The TOML text that the writer yields for a document.
pub uninterp spec fn toml_text_of(t: TblView) -> Seq<char>;

#[verifier::external_type_specification]
#[verifier::external_body]
#[verifier::reject_recursive_types(K)]
#[verifier::reject_recursive_types(V)]
pub struct ExTomlMap<K, V>(toml::map::Map<K, V>);

#[verifier::external_type_specification]
#[verifier::external_body]
pub struct ExTomlValue(toml::Value);

/// Relies on toml::from_str: whether a text parses, and what it parses
/// to, depend on the text alone; a parsed table maps each key at most
/// once at every level, so the result is well-formed.
#[verifier::external_body]
pub(crate) fn parse_toml_table(s: &str) -> (r: Option<CfgTable>)
    ensures
        r is Some <==> toml_table_of(s@) is Some,
        r matches Some(t) ==> toml_table_of(s@) == Some(t@) && tv_wf(t@),
{
    match toml::from_str::<toml::value::Table>(s) {
        Ok(t) => Some(table_of_toml(t)),
        Err(_) => None,
    }
}

/// Relies on serde_json::from_str: whether a JSON text parses into a
/// table of TOML-representable values, and what it parses to, depend on
/// the text alone; a parsed table maps each key at most once at every
/// level, so the result is well-formed.
#[verifier::external_body]
pub(crate) fn parse_json_table(s: &str) -> (r: Option<CfgTable>)
    ensures
        r is Some <==> json_table_of(s@) is Some,
        r matches Some(t) ==> json_table_of(s@) == Some(t@) && tv_wf(t@),
{
    match serde_json::from_str::<toml::value::Table>(s) {
        Ok(t) => Some(table_of_toml(t)),
        Err(_) => None,
    }
}

/// Relies on toml::to_string: the text written for a document depends
/// on the document alone (and is empty in the writer's error case).
#[verifier::external_body]
pub(crate) fn write_toml_table(t: &CfgTable) -> (r: String)
    ensures
        r@ == toml_text_of(t@),
{
    toml::to_string(&toml_of_table(t)).unwrap_or_default()
}

/// Carries a parsed `toml::Value` over into the document model, one
/// variant to one variant; a float or datetime as its text.
#[verifier::external_body]
fn value_of_toml(v: toml::Value) -> CfgValue {
    match v {
        toml::Value::String(s) => CfgValue::Str(s),
        toml::Value::Integer(i) => CfgValue::Int(i),
        toml::Value::Float(x) => CfgValue::Str(x.to_string()),
        toml::Value::Boolean(b) => CfgValue::Bool(b),
        toml::Value::Datetime(d) => CfgValue::Str(d.to_string()),
        toml::Value::Array(a) => CfgValue::Arr(a.into_iter().map(value_of_toml).collect()),
        toml::Value::Table(t) => CfgValue::Tbl(table_of_toml(t)),
    }
}

/// Carries a parsed `toml` table over into the document model, in the
/// parser's key order.
#[verifier::external_body]
fn table_of_toml(t: toml::value::Table) -> CfgTable {
    CfgTable {
        entries: t.into_iter().map(|(k, v)| Entry { key: k, val: value_of_toml(v) }).collect(),
    }
}

/// Carries a document value back into a `toml::Value`, one variant to
/// one variant; a null as an empty string, which TOML cannot hold.
#[verifier::external_body]
fn toml_of_value(v: &CfgValue) -> toml::Value {
    match v {
        CfgValue::Null => toml::Value::String(String::new()),
        CfgValue::Bool(b) => toml::Value::Boolean(*b),
        CfgValue::Int(i) => toml::Value::Integer(*i),
        CfgValue::Str(s) => toml::Value::String(s.clone()),
        CfgValue::Arr(a) => toml::Value::Array(a.iter().map(toml_of_value).collect()),
        CfgValue::Tbl(t) => toml::Value::Table(toml_of_table(t)),
    }
}

/// Carries a table document back into a `toml` table, in entry order.
#[verifier::external_body]
fn toml_of_table(t: &CfgTable) -> toml::value::Table {
    t.entries.iter().map(|e| (e.key.clone(), toml_of_value(&e.val))).collect()
}

} // verus!
