//! The template-engine boundary, through the `handlebars` crate:
//! registering template sources by name and rendering them against a
//! document. Rendering is a pure function of the registered sources,
//! the name and the document; the names below stand for its results.

use vstd::prelude::*;

use crate::doc::CfgTable;
use crate::doc::CfgValue;
use crate::doc::TblView;

verus! {

#[verifier::external_type_specification]
#[verifier::external_body]
pub struct ExHandlebars<'reg>(handlebars::Handlebars<'reg>);

#[verifier::external_type_specification]
#[verifier::external_body]
pub struct ExJsonValue(serde_json::Value);

/// The engine's registry type, with the static lifetime this crate
/// always uses.
pub type Registry = handlebars::Handlebars<'static>;

/// The sources of the registered templates, by name.
pub uninterp spec fn registry_view(h: Registry) -> Map<Seq<char>, Seq<char>>;

/// Whether a template text compiles.
pub uninterp spec fn template_parses(t: Seq<char>) -> bool;

/// What rendering one registered template against a document yields:
/// the text, or nothing where rendering fails.
pub uninterp spec fn render_of(
    reg: Map<Seq<char>, Seq<char>>,
    name: Seq<char>,
    ctx: TblView,
) -> Option<Seq<char>>;

/// Relies on handlebars::Handlebars::register_template_string: success
/// depends on the template text alone; on success the source stands in
/// the registry under the name, replacing any previous holder; on
/// failure the registry is unchanged and the message describes the
/// fault.
#[verifier::external_body]
pub(crate) fn register_template(
    h: &mut Registry,
    name: &String,
    source: &String,
) -> (r: Result<(), String>)
    ensures
        r is Ok <==> template_parses(source@),
        r is Ok ==> registry_view(*final(h)) == registry_view(*old(h)).insert(name@, source@),
        r is Err ==> registry_view(*final(h)) == registry_view(*old(h)),
{
    h.register_template_string(name, source).map_err(|e| e.to_string())
}

/// Relies on handlebars::Handlebars::render, the document handed over
/// as JSON-shaped data: what comes back depends on the registered
/// sources, the name and the document alone; on failure the message
/// describes the fault.
#[verifier::external_body]
pub(crate) fn render_template(
    h: &Registry,
    name: &String,
    ctx: &CfgTable,
) -> (r: Result<String, String>)
    ensures
        r is Ok <==> render_of(registry_view(*h), name@, ctx@) is Some,
        r matches Ok(s) ==> render_of(registry_view(*h), name@, ctx@) == Some(s@),
{
    h.render(name.as_str(), &json_of_table(ctx)).map_err(|e| e.to_string())
}

/// Carries a document value over into JSON-shaped render data, one
/// variant to one variant.
#[verifier::external_body]
fn json_of_value(v: &CfgValue) -> serde_json::Value {
    match v {
        CfgValue::Null => serde_json::Value::Null,
        CfgValue::Bool(b) => serde_json::Value::Bool(*b),
        CfgValue::Int(i) => serde_json::Value::from(*i),
        CfgValue::Str(s) => serde_json::Value::String(s.clone()),
        CfgValue::Arr(a) => serde_json::Value::Array(a.iter().map(json_of_value).collect()),
        CfgValue::Tbl(t) => json_of_table(t),
    }
}

/// Carries a table document over into a JSON object, in entry order.
#[verifier::external_body]
fn json_of_table(t: &CfgTable) -> serde_json::Value {
    serde_json::Value::Object(
        t.entries.iter().map(|e| (e.key.clone(), json_of_value(&e.val))).collect(),
    )
}

} // verus!
