//! Trusted boundary to serde_json.
//!
//! Property values are opaque structured documents held as
//! `serde_json::Value`. The engine only stores and copies them; the codec
//! renders them as JSON text and parses that text back. Those three
//! operations are the whole surface relied on here.
//!
//! Rendering is total, but parsing is not its exact inverse on every
//! value: the parser enforces a recursion-depth limit that the renderer
//! does not, so the rendering of a deeply nested value can be refused.
//! [`json_parses`] names the values whose rendering the parser does
//! accept; every claim of recovery is conditional on it.

use vstd::prelude::*;

verus! {

#[verifier::external_type_specification]
#[verifier::external_body]
pub struct ExJsonValue(serde_json::Value);

#[verifier::external_type_specification]
#[verifier::external_body]
pub struct ExJsonError(serde_json::Error);

/// The JSON text that a value renders to. With this crate's feature set,
/// objects keep their entries ordered by key, so the text is a function of
/// the value alone.
pub uninterp spec fn json_text_of(v: serde_json::Value) -> Seq<char>;

/// Whether the parser accepts this value's own rendering. Parsing
/// enforces a recursion-depth limit that rendering does not, so this does
/// not hold of every value; it too is a function of the value alone.
pub uninterp spec fn json_parses(v: serde_json::Value) -> bool;

/// Relies on the derived `Clone` of `serde_json::Value`: the copy equals
/// the original.
pub assume_specification[ <serde_json::Value as Clone>::clone ](v: &serde_json::Value) -> (r:
    serde_json::Value)
    ensures
        r == *v,
;

/// Relies on `serde_json::Value`'s `Display`: renders the value as JSON
/// text, depending on the value alone.
#[verifier::external_body]
pub(crate) fn json_to_string(v: &serde_json::Value) -> (r: String)
    ensures
        r@ == json_text_of(*v),
{
    v.to_string()
}

/// Relies on `serde_json::from_str`, with the `float_roundtrip` feature
/// on so that numbers reparse exactly: when the text is the rendering of
/// a value the parser accepts, parsing gives back exactly that value, and
/// a parse failure means the parser accepts no value rendering to this
/// text.
#[verifier::external_body]
pub(crate) fn json_from_str(s: &str) -> (r: Result<serde_json::Value, serde_json::Error>)
    ensures
        match r {
            Ok(w) => forall|v: serde_json::Value| #[trigger] json_text_of(v) == s@ ==> w == v,
            Err(_) => forall|v: serde_json::Value|
                #[trigger] json_text_of(v) == s@ ==> !json_parses(v),
        },
{
    serde_json::from_str(s)
}

} // verus!
