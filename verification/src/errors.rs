//! The closed set of failures the generator reports. Every error is
//! terminal: it is formatted as a single line and surfaced to the operator.

use vstd::prelude::*;
use vstd::string::*;

verus! {

/// One failure of the generator.
///
/// `IOError` and `ParseBoolError` carry the underlying message of a
/// filesystem failure or of an invalid boolean flag value; they are
/// constructed at the edges of the program. `PostParseError` names the
/// field of a post that failed to parse. The two template variants are
/// the precondition gate's findings, and `RenderError` carries the
/// template engine's message.
#[derive(Debug, PartialEq, Eq)]
pub enum CairoError {
    IOError(String),
    ParseBoolError(String),
    PostParseError(String),
    CantFindIndexTemplate,
    CantFindPostTemplate,
    RenderError(String),
}

/// The mathematical shadow of `CairoError`: the same variants over
/// character sequences.
pub ghost enum SpecError {
    IOError(Seq<char>),
    ParseBoolError(Seq<char>),
    PostParseError(Seq<char>),
    CantFindIndexTemplate,
    CantFindPostTemplate,
    RenderError(Seq<char>),
}

impl View for CairoError {
    type V = SpecError;

    open spec fn view(&self) -> SpecError {
        match self {
            CairoError::IOError(m) => SpecError::IOError(m@),
            CairoError::ParseBoolError(m) => SpecError::ParseBoolError(m@),
            CairoError::PostParseError(m) => SpecError::PostParseError(m@),
            CairoError::CantFindIndexTemplate => SpecError::CantFindIndexTemplate,
            CairoError::CantFindPostTemplate => SpecError::CantFindPostTemplate,
            CairoError::RenderError(m) => SpecError::RenderError(m@),
        }
    }
}

impl SpecError {
    /// The single human-readable line for each variant.
    pub open spec fn spec_message(&self) -> Seq<char> {
        match self {
            SpecError::IOError(m) => "io — "@ + *m,
            SpecError::ParseBoolError(m) => "cli parse error — "@ + *m,
            SpecError::PostParseError(m) => "post parse error — "@ + *m,
            SpecError::CantFindIndexTemplate => "could not find index template"@,
            SpecError::CantFindPostTemplate => "could not find post template"@,
            SpecError::RenderError(m) => "render error — "@ + *m,
        }
    }
}

impl CairoError {
    /// Format this error as its single report line.
    pub fn message(&self) -> (r: String)
        ensures
            r@ == self@.spec_message(),
    {
        match self {
            CairoError::IOError(m) => String::from_str("io — ").concat(m.as_str()),
            CairoError::ParseBoolError(m) => String::from_str("cli parse error — ")
                .concat(m.as_str()),
            CairoError::PostParseError(m) => String::from_str("post parse error — ")
                .concat(m.as_str()),
            CairoError::CantFindIndexTemplate => String::from_str(
                "could not find index template",
            ),
            CairoError::CantFindPostTemplate => String::from_str(
                "could not find post template",
            ),
            CairoError::RenderError(m) => String::from_str("render error — ")
                .concat(m.as_str()),
        }
    }
}

} // verus!
