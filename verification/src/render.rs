//! The template engine, taken as a black box: a template text and a JSON
//! context text go in, rendered text or an error message comes out.

use vstd::prelude::*;

verus! {

/// What rendering yields for a template text and a context text: the
/// rendered output, or the engine's error message. The outcome depends on
/// the two texts alone, so one build rendered twice gives identical bytes.
pub uninterp spec fn render_text(tpl: Seq<char>, ctx: Seq<char>) -> Result<Seq<char>, Seq<char>>;

/// Relies on `handlebars::Handlebars::render_template` of a fresh default
/// registry, with `serde_json::from_str` converting the context text into
/// the JSON data the engine takes, and `to_string` on either error: for a
/// fixed template text and context text the outcome is always the same
/// rendered text or the same message.
#[verifier::external_body]
pub(crate) fn render_template(tpl: &str, ctx: &str) -> (r: Result<String, String>)
    ensures
        r is Ok <==> render_text(tpl@, ctx@) is Ok,
        r is Ok ==> r->Ok_0@ == render_text(tpl@, ctx@)->Ok_0,
        r is Err ==> r->Err_0@ == render_text(tpl@, ctx@)->Err_0,
{
    let data: serde_json::Value = match serde_json::from_str(ctx) {
        Ok(v) => v,
        Err(e) => {
            return Err(e.to_string());
        },
    };
    match handlebars::Handlebars::new().render_template(tpl, &data) {
        Ok(s) => Ok(s),
        Err(e) => Err(e.to_string()),
    }
}

} // verus!
