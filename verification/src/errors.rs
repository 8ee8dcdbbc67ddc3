//! Errors of the configuration engine.

use vstd::prelude::*;
use vstd::string::StringExecFns;

verus! {

/// The ways assembling or compiling a configuration can fail.
#[derive(Debug, PartialEq, Eq)]
pub enum CfgError {
    /// A layer file or value was present but not a well-formed document;
    /// carries the name of the failing source.
    ParseError(String),
    /// Table nesting deeper than the merge bound; carries the bound.
    MergeDepthExceeded(u32),
    /// The environment variable was set but parseable in neither accepted
    /// format; carries the variable name.
    InvalidEnvironmentConfig(String),
    /// A template failed to register; carries the template name and the
    /// engine's message.
    TemplateRegistrationError(String, String),
    /// A template failed to render; carries the template name and the
    /// engine's message.
    RenderError(String, String),
    /// A read or write failed outside the "file absent" happy path;
    /// carries a description.
    IOError(String),
}

impl CfgError {
    /// A short display of the error, for reporting by the caller.
    pub fn message(&self) -> String {
        match self {
            CfgError::ParseError(src) => format_message("invalid document in ", src),
            CfgError::MergeDepthExceeded(_) => format_message(
                "max recursive merge depth exceeded",
                "",
            ),
            CfgError::InvalidEnvironmentConfig(var) => format_message(
                "invalid environment configuration in ",
                var,
            ),
            CfgError::TemplateRegistrationError(name, _) => format_message(
                "failed to register template ",
                name,
            ),
            CfgError::RenderError(name, _) => format_message("failed to render template ", name),
            CfgError::IOError(what) => format_message("i/o failure: ", what),
        }
    }
}

/// Joins the fixed text and the detail of an error message.
fn format_message(head: &str, tail: &str) -> (r: String)
    ensures
        r@ == head@ + tail@,
{
    let mut out = head.to_owned();
    out.append(tail);
    out
}

} // verus!
