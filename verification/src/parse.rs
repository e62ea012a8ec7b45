//! The boundary with the external configuration parser. Everything below
//! the wrapped calls works on the library's own value model; nothing
//! downstream depends on the parser's types.
use vstd::prelude::*;

use crate::value::JsonValue;
use crate::value::Number;
use crate::value::ValueModel;
use crate::value::wf;

verus! {

/// The parse outcome of one document text: the model of the tree that valid
/// text parses to, or nothing for invalid text. The parser reads the text
/// alone — no clock, environment or randomness — so the outcome is a
/// function of the text; this name stands for that function, and the
/// trusted boundary below is the only place that states anything about it.
pub uninterp spec fn parsed_doc(text: Seq<char>) -> Option<ValueModel>;

/// The parser's diagnostic for a text that does not parse: likewise a
/// function of the text alone.
pub uninterp spec fn parse_diag(text: Seq<char>) -> Seq<char>;

/// Relies on hcl::from_str and serde_json::to_value: parses configuration
/// text into the parser's tree, re-expresses it as a generic JSON tree and
/// converts it, through `tree_to_value` below, into the library's model.
/// Valid text yields the parsed document — well-formed, see
/// `tree_to_value` — and invalid text the parser's diagnostic, a syntax
/// failure prefixed "Parse error: ". Both calls depend on the text alone,
/// which justifies the two names.
#[verifier::external_body]
fn parse_raw(text: &str) -> (r: Result<JsonValue, String>)
    ensures
        match r {
            Ok(v) => parsed_doc(text@) == Some(v@) && wf(v@),
            Err(e) => parsed_doc(text@) is None && e@ == parse_diag(text@),
        },
{
    let parsed: hcl::Value = match hcl::from_str(text) {
        Ok(v) => v,
        Err(hcl::Error::Parse(e)) => return Err(format!("Parse error: {}", e)),
        Err(e) => return Err(format!("{}", e)),
    };
    match serde_json::to_value(&parsed) {
        Ok(tree) => Ok(tree_to_value(tree)),
        Err(e) => Err(format!("{}", e)),
    }
}

/// The conversion half of the boundary above, and what makes its
/// well-formedness claim true: a serde_json tree's map keys are unique and
/// kept in insertion order, and a floating-point number's rendering is a
/// non-empty numeric token carrying a decimal point or an exponent.
#[verifier::external_body]
fn tree_to_value(tree: serde_json::Value) -> (r: JsonValue) {
    match tree {
        serde_json::Value::Null => JsonValue::Null,
        serde_json::Value::Bool(b) => JsonValue::Bool(b),
        serde_json::Value::Number(n) => JsonValue::Number(match (n.as_i64(), n.as_u64()) {
            (Some(i), _) => Number::Int(i),
            (None, Some(u)) => Number::Uint(u),
            _ => Number::Float(n.to_string()),
        }),
        serde_json::Value::String(s) => JsonValue::Str(s),
        serde_json::Value::Array(items) => JsonValue::Array(items.into_iter().map(tree_to_value).collect()),
        serde_json::Value::Object(map) => JsonValue::Object(map.into_iter().map(|(k, v)| (k, tree_to_value(v))).collect()),
    }
}

/// Parse one document of configuration text. Succeeds exactly on valid
/// text, with the well-formed parsed document; fails with the parser's
/// diagnostic.
pub fn parse_document(text: &str) -> (r: Result<JsonValue, String>)
    ensures
        r is Ok <==> parsed_doc(text@) is Some,
        r is Ok ==> r->Ok_0@ == parsed_doc(text@)->Some_0 && wf(r->Ok_0@),
        r is Err ==> r->Err_0@ == parse_diag(text@),
{
    parse_raw(text)
}

} // verus!
